//! Character-sequence utilities shared by the text-processing code.
//!
//! Strings are processed as vectors of `char`, whose view is the same
//! `Seq<char>` as the view of the string they came from.

use vstd::prelude::*;

verus! {

/// The ASCII lower-case form of `c`; characters outside `A..=Z` are unchanged.
pub open spec fn ascii_lower(c: char) -> char {
    if 'A' <= c && c <= 'Z' {
        ((c as u8) + 32) as u8 as char
    } else {
        c
    }
}

/// Executable form of [`ascii_lower`].
pub fn to_ascii_lower(c: char) -> (r: char)
    ensures
        r == ascii_lower(c),
{
    if 'A' <= c && c <= 'Z' {
        let b: u8 = c as u8;
        (b + 32) as char
    } else {
        c
    }
}

/// `pat` occurs in `s` at index `i`.
pub open spec fn matches_at(s: Seq<char>, i: int, pat: Seq<char>) -> bool {
    &&& 0 <= i
    &&& i + pat.len() <= s.len()
    &&& forall|k: int| 0 <= k < pat.len() ==> #[trigger] s[i + k] == pat[k]
}

/// `pat`, given in lower case, occurs in `s` at index `i` when ASCII letter
/// case is ignored.
pub open spec fn matches_ci_at(s: Seq<char>, i: int, pat: Seq<char>) -> bool {
    &&& 0 <= i
    &&& i + pat.len() <= s.len()
    &&& forall|k: int| 0 <= k < pat.len() ==> ascii_lower(#[trigger] s[i + k]) == pat[k]
}

/// Executable form of [`matches_at`].
pub fn starts_with_at(s: &Vec<char>, i: usize, pat: &Vec<char>) -> (r: bool)
    ensures
        r == matches_at(s@, i as int, pat@),
{
    if i > s.len() || pat.len() > s.len() - i {
        return false;
    }
    let mut k: usize = 0;
    while k < pat.len()
        invariant
            i + pat.len() <= s.len(),
            k <= pat.len(),
            forall|j: int| 0 <= j < k ==> #[trigger] s@[i + j] == pat@[j],
        decreases pat.len() - k,
    {
        if s[i + k] != pat[k] {
            return false;
        }
        k += 1;
    }
    true
}

/// Executable form of [`matches_ci_at`].
pub fn starts_with_ci_at(s: &Vec<char>, i: usize, pat: &Vec<char>) -> (r: bool)
    ensures
        r == matches_ci_at(s@, i as int, pat@),
{
    if i > s.len() || pat.len() > s.len() - i {
        return false;
    }
    let mut k: usize = 0;
    while k < pat.len()
        invariant
            i + pat.len() <= s.len(),
            k <= pat.len(),
            forall|j: int| 0 <= j < k ==> ascii_lower(#[trigger] s@[i + j]) == pat@[j],
        decreases pat.len() - k,
    {
        if to_ascii_lower(s[i + k]) != pat[k] {
            return false;
        }
        k += 1;
    }
    true
}

/// What a vector of character vectors holds: the sequence of their views.
pub open spec fn chars_view(v: Seq<Vec<char>>) -> Seq<Seq<char>> {
    v.map_values(|l: Vec<char>| l@)
}

/// What a vector of strings holds: the sequence of their views.
pub open spec fn strings_view(v: Seq<String>) -> Seq<Seq<char>> {
    v.map_values(|l: String| l@)
}

/// The characters of a string slice, in order.
pub fn chars_of(s: &str) -> (r: Vec<char>)
    ensures
        r@ == s@,
{
    let mut out: Vec<char> = Vec::new();
    for c in it: s.chars()
        invariant
            out@ == it.seq().take(it.index()),
    {
        out.push(c);
    }
    out
}

/// Collects characters into a `String` with `String::from_iter`, which keeps
/// every character in its place.
#[verifier::external_body]
pub(crate) fn string_of(chars: &Vec<char>) -> (r: String)
    ensures
        r@ == chars@,
{
    String::from_iter(chars.iter())
}

/// Appends a copy of `src` to `out`.
pub fn append_chars(out: &mut Vec<char>, src: &Vec<char>)
    ensures
        final(out)@ == old(out)@ + src@,
{
    let mut k: usize = 0;
    while k < src.len()
        invariant
            k <= src.len(),
            out@ == old(out)@ + src@.take(k as int),
        decreases src.len() - k,
    {
        out.push(src[k]);
        k += 1;
    }
    assert(src@.take(src.len() as int) == src@);
}

/// The characters of `s` from index `from` up to, not including, `to`.
pub(crate) fn slice_chars(s: &Vec<char>, from: usize, to: usize) -> (r: Vec<char>)
    requires
        from <= to <= s.len(),
    ensures
        r@ == s@.subrange(from as int, to as int),
{
    let mut out: Vec<char> = Vec::new();
    let mut k: usize = from;
    while k < to
        invariant
            from <= k <= to <= s.len(),
            out@ == s@.subrange(from as int, k as int),
        decreases to - k,
    {
        out.push(s[k]);
        k += 1;
    }
    out
}

/// The least index at or after `from` at which `pat` occurs in `s`, or
/// `s.len()` when there is none.
pub open spec fn find_from(s: Seq<char>, pat: Seq<char>, from: int) -> int
    decreases s.len() - from,
{
    if from >= s.len() {
        s.len() as int
    } else if matches_at(s, from, pat) {
        from
    } else {
        find_from(s, pat, from + 1)
    }
}

/// `find_from` returns an index in range, at which `pat` occurs unless the
/// index is `s.len()`, and `pat` occurs nowhere between `from` and it.
pub proof fn lemma_find_from(s: Seq<char>, pat: Seq<char>, from: int)
    requires
        0 <= from <= s.len(),
    ensures
        from <= find_from(s, pat, from) <= s.len(),
        find_from(s, pat, from) < s.len() ==> matches_at(s, find_from(s, pat, from), pat),
        forall|j: int| from <= j < find_from(s, pat, from) ==> !matches_at(s, j, pat),
    decreases s.len() - from,
{
    if from < s.len() && !matches_at(s, from, pat) {
        lemma_find_from(s, pat, from + 1);
    }
}

/// Executable form of [`find_from`]: `None` stands for "no occurrence".
pub(crate) fn find_chars(s: &Vec<char>, pat: &Vec<char>, from: usize) -> (r: Option<usize>)
    requires
        from <= s.len(),
    ensures
        match r {
            Some(i) => i < s.len() && i as int == find_from(s@, pat@, from as int),
            None => find_from(s@, pat@, from as int) == s.len(),
        },
{
    let mut i: usize = from;
    while i < s.len()
        invariant
            from <= i <= s.len(),
            find_from(s@, pat@, from as int) == find_from(s@, pat@, i as int),
        decreases s.len() - i,
    {
        if starts_with_at(s, i, pat) {
            return Some(i);
        }
        i += 1;
    }
    None
}

/// `s` with every occurrence of `pat` at or after index `from` replaced by
/// `to`, scanning from the left; `pat` is given in lower case and matched
/// without regard to ASCII letter case. An empty `pat` matches nowhere.
pub open spec fn replace_ci_from(s: Seq<char>, pat: Seq<char>, to: Seq<char>, from: int) -> Seq<char>
    decreases s.len() - from,
{
    if from >= s.len() || from < 0 {
        Seq::empty()
    } else if pat.len() > 0 && matches_ci_at(s, from, pat) {
        to + replace_ci_from(s, pat, to, from + pat.len())
    } else {
        seq![s[from]] + replace_ci_from(s, pat, to, from + 1)
    }
}

/// `s` with every occurrence of `pat` replaced by `to` (see [`replace_ci_from`]).
pub open spec fn replace_ci(s: Seq<char>, pat: Seq<char>, to: Seq<char>) -> Seq<char> {
    replace_ci_from(s, pat, to, 0)
}

/// `pat` occurs somewhere in `s`, ASCII letter case ignored.
pub open spec fn contains_ci(s: Seq<char>, pat: Seq<char>) -> bool {
    exists|i: int| matches_ci_at(s, i, pat)
}

/// Executable form of [`replace_ci`].
pub fn replace_all_ci(s: &Vec<char>, pat: &Vec<char>, to: &Vec<char>) -> (r: Vec<char>)
    ensures
        r@ == replace_ci(s@, pat@, to@),
{
    let mut out: Vec<char> = Vec::new();
    let mut i: usize = 0;
    while i < s.len()
        invariant
            i <= s.len(),
            out@ + replace_ci_from(s@, pat@, to@, i as int) == replace_ci(s@, pat@, to@),
        decreases s.len() - i,
    {
        if pat.len() > 0 && starts_with_ci_at(s, i, pat) {
            let ghost before = out@;
            append_chars(&mut out, to);
            assert(out@ + replace_ci_from(s@, pat@, to@, i + pat.len()) == before + (to@
                + replace_ci_from(s@, pat@, to@, i + pat.len())));
            i += pat.len();
        } else {
            let ghost before = out@;
            out.push(s[i]);
            assert(out@ + replace_ci_from(s@, pat@, to@, i + 1) == before + (seq![s@[i as int]]
                + replace_ci_from(s@, pat@, to@, i + 1)));
            i += 1;
        }
    }
    assert(out@ + Seq::<char>::empty() == out@);
    out
}

/// Replacing a pattern that does not occur changes nothing.
pub proof fn lemma_replace_ci_absent(s: Seq<char>, pat: Seq<char>, to: Seq<char>, from: int)
    requires
        0 <= from <= s.len(),
        forall|i: int| from <= i ==> !matches_ci_at(s, i, pat),
    ensures
        replace_ci_from(s, pat, to, from) == s.skip(from),
    decreases s.len() - from,
{
    if from < s.len() {
        lemma_replace_ci_absent(s, pat, to, from + 1);
        assert(seq![s[from]] + s.skip(from + 1) == s.skip(from));
    } else {
        assert(s.skip(from) == Seq::<char>::empty());
    }
}

/// The decimal digits of `n`, most significant first, without leading zeros;
/// zero is written `0`.
pub open spec fn decimal(n: nat) -> Seq<char>
    decreases n,
{
    if n < 10 {
        seq![digit_char(n)]
    } else {
        decimal(n / 10).push(digit_char(n % 10))
    }
}

/// The character of the decimal digit `d`.
pub open spec fn digit_char(d: nat) -> char {
    ((48 + d) as u8) as char
}

/// Executable form of [`decimal`].
pub fn decimal_chars(n: u128) -> (r: Vec<char>)
    ensures
        r@ == decimal(n as nat),
{
    let mut rev: Vec<char> = Vec::new();
    let mut m: u128 = n;
    // `rev` holds, in reverse, the digits already split off `n`.
    while m >= 10
        invariant
            decimal(n as nat) == decimal(m as nat) + rev@.reverse(),
        decreases m,
    {
        let d: u8 = (m % 10) as u8;
        let c: char = (48u8 + d) as char;
        let ghost before = rev@;
        rev.push(c);
        assert(rev@.reverse() == seq![c] + before.reverse());
        assert(decimal(m as nat) == decimal((m / 10) as nat).push(c));
        assert(decimal((m / 10) as nat).push(c) + before.reverse() == decimal((m / 10) as nat) + (
            seq![c] + before.reverse()));
        m = m / 10;
    }
    let d: u8 = m as u8;
    let c: char = (48u8 + d) as char;
    let mut out: Vec<char> = Vec::new();
    out.push(c);
    let mut k: usize = rev.len();
    while k > 0
        invariant
            k <= rev.len(),
            out@ == seq![c] + rev@.reverse().take(rev.len() - k),
        decreases k,
    {
        k -= 1;
        out.push(rev[k]);
        assert(rev@.reverse().take(rev.len() - k) == rev@.reverse().take(rev.len() - k - 1).push(
            rev@[k as int]));
    }
    assert(rev@.reverse().take(rev.len() as int) == rev@.reverse());
    out
}

/// Appends the characters of `src` to `out`.
pub fn append_str(out: &mut Vec<char>, src: &str)
    ensures
        final(out)@ == old(out)@ + src@,
{
    let chars = chars_of(src);
    append_chars(out, &chars);
}

/// The three digits of a number below 1000 without the zeros at its end;
/// nothing for zero.
pub open spec fn fraction_digits(frac: nat) -> Seq<char> {
    if frac % 1000 == 0 {
        Seq::empty()
    } else if frac % 100 == 0 {
        seq![digit_char(frac / 100 % 10)]
    } else if frac % 10 == 0 {
        seq![digit_char(frac / 100 % 10), digit_char(frac / 10 % 10)]
    } else {
        seq![digit_char(frac / 100 % 10), digit_char(frac / 10 % 10), digit_char(frac % 10)]
    }
}

/// A number of thousandths written in decimal notation: the whole part, and
/// after a point the thousandths without zeros at the end, if there are any;
/// a minus sign in front of a negative number. So 14000 is `14`, 16800 is
/// `16.8` and -5 is `-0.005`.
pub open spec fn milli_text(v: int) -> Seq<char> {
    let magnitude = (if v < 0 {
        -v
    } else {
        v
    }) as nat;
    let sign = if v < 0 {
        seq!['-']
    } else {
        Seq::<char>::empty()
    };
    let fraction = if magnitude % 1000 == 0 {
        Seq::<char>::empty()
    } else {
        seq!['.'] + fraction_digits(magnitude % 1000)
    };
    sign + decimal(magnitude / 1000) + fraction
}

/// The character of a decimal digit.
pub(crate) fn digit(d: u8) -> (c: char)
    requires
        d < 10,
    ensures
        c == digit_char(d as nat),
{
    (48u8 + d) as char
}

/// Writes a number of thousandths in decimal notation (see [`milli_text`]).
pub(crate) fn milli_chars(v: i128) -> (r: Vec<char>)
    requires
        v > i128::MIN,
    ensures
        r@ == milli_text(v as int),
{
    let mut out: Vec<char> = Vec::new();
    let magnitude: u128 = if v < 0 {
        out.push('-');
        (-v) as u128
    } else {
        v as u128
    };
    let whole = decimal_chars(magnitude / 1000);
    append_chars(&mut out, &whole);
    let frac: u128 = magnitude % 1000;
    if frac != 0 {
        out.push('.');
        out.push(digit((frac / 100 % 10) as u8));
        if frac % 100 != 0 {
            out.push(digit((frac / 10 % 10) as u8));
            if frac % 10 != 0 {
                out.push(digit((frac % 10) as u8));
            }
        }
    }
    assert(out@ =~= milli_text(v as int));
    out
}

/// Whether two character vectors hold the same characters.
pub fn chars_equal(a: &Vec<char>, b: &Vec<char>) -> (r: bool)
    ensures
        r == (a@ == b@),
{
    if a.len() != b.len() {
        return false;
    }
    let mut i: usize = 0;
    while i < a.len()
        invariant
            a.len() == b.len(),
            i <= a.len(),
            forall|j: int| 0 <= j < i ==> a@[j] == b@[j],
        decreases a.len() - i,
    {
        if a[i] != b[i] {
            return false;
        }
        i += 1;
    }
    assert(a@ =~= b@);
    true
}

/// `s` with every ASCII capital letter made small.
pub open spec fn lower(s: Seq<char>) -> Seq<char> {
    s.map_values(|c: char| ascii_lower(c))
}

/// Executable form of [`lower`].
pub fn lower_chars(s: &Vec<char>) -> (r: Vec<char>)
    ensures
        r@ == lower(s@),
{
    let mut out: Vec<char> = Vec::new();
    let mut i: usize = 0;
    while i < s.len()
        invariant
            i <= s.len(),
            out@ == lower(s@).take(i as int),
        decreases s.len() - i,
    {
        out.push(to_ascii_lower(s[i]));
        assert(lower(s@).take(i + 1) =~= lower(s@).take(i as int).push(ascii_lower(s@[i as int])));
        i += 1;
    }
    assert(lower(s@).take(s.len() as int) =~= lower(s@));
    out
}

/// Whether a character is white space, by the Unicode property of that name.
pub open spec fn is_white(c: char) -> bool {
    let u = c as u32;
    (9 <= u <= 13) || u == 0x20 || u == 0x85 || u == 0xA0 || u == 0x1680 || (0x2000 <= u <= 0x200A)
        || u == 0x2028 || u == 0x2029 || u == 0x202F || u == 0x205F || u == 0x3000
}

/// Executable form of [`is_white`].
pub fn is_white_char(c: char) -> (r: bool)
    ensures
        r == is_white(c),
{
    let u = c as u32;
    (9 <= u && u <= 13) || u == 0x20 || u == 0x85 || u == 0xA0 || u == 0x1680 || (0x2000 <= u && u
        <= 0x200A) || u == 0x2028 || u == 0x2029 || u == 0x202F || u == 0x205F || u == 0x3000
}

} // verus!
