//! Reading a font description as the command line gives it: words in any
//! order, of which `bold` and `italic` set a flag, a number with or without
//! `pt` sets the size, `#rrggbb` or `#rgb` sets the colour, and any other
//! word names the font family.

use crate::pdf::headers::FontSpec;
use crate::pdf::transform::{parse_unsigned, unsigned_value};
use crate::text::{
    chars_equal, chars_of, is_white, is_white_char, lower, lower_chars, slice_chars, string_of,
};
use vstd::prelude::*;

verus! {

/// The mathematical model of a [`FontSpec`].
pub struct FontSpecValue {
    pub bold: bool,
    pub italic: bool,
    pub size: Option<u32>,
    pub family: Option<Seq<char>>,
    pub color: Option<(u8, u8, u8)>,
}

/// The model of a family name.
pub open spec fn family_view(family: Option<String>) -> Option<Seq<char>> {
    match family {
        Some(f) => Some(f@),
        None => None,
    }
}

impl FontSpec {
    /// The model of this font description.
    pub open spec fn view(self) -> FontSpecValue {
        FontSpecValue {
            bold: self.bold,
            italic: self.italic,
            size: self.size,
            family: family_view(self.family),
            color: self.color,
        }
    }
}

/// The index at which the word that starts at `i` ends.
pub open spec fn word_end(s: Seq<char>, i: int) -> int
    decreases s.len() - i,
{
    if i >= s.len() || i < 0 || is_white(s[i]) {
        i
    } else {
        word_end(s, i + 1)
    }
}

/// The words of `s` from index `i` on: the runs of characters between white
/// space.
pub open spec fn words_from(s: Seq<char>, i: int) -> Seq<Seq<char>>
    decreases s.len() - i,
{
    if i >= s.len() || i < 0 {
        Seq::empty()
    } else if is_white(s[i]) {
        words_from(s, i + 1)
    } else if i < word_end(s, i) <= s.len() {
        seq![s.subrange(i, word_end(s, i))] + words_from(s, word_end(s, i))
    } else {
        // A word that starts within `s` ends after its start and within `s`.
        Seq::empty()
    }
}

/// The words of a text.
pub open spec fn words(s: Seq<char>) -> Seq<Seq<char>> {
    words_from(s, 0)
}

/// A word ends after its start and within the text.
proof fn lemma_word_end(s: Seq<char>, i: int)
    requires
        0 <= i <= s.len(),
    ensures
        i <= word_end(s, i) <= s.len(),
        i < s.len() && !is_white(s[i]) ==> i < word_end(s, i),
    decreases s.len() - i,
{
    if i < s.len() && !is_white(s[i]) {
        lemma_word_end(s, i + 1);
    }
}

/// What a vector of words holds.
pub open spec fn word_views(v: Seq<Vec<char>>) -> Seq<Seq<char>> {
    v.map_values(|w: Vec<char>| w@)
}

/// Cuts a text into its words.
pub fn split_words(s: &Vec<char>) -> (r: Vec<Vec<char>>)
    ensures
        word_views(r@) == words(s@),
{
    let mut out: Vec<Vec<char>> = Vec::new();
    let mut i: usize = 0;
    assert(word_views(out@) =~= Seq::<Seq<char>>::empty());
    while i < s.len()
        invariant
            i <= s.len(),
            word_views(out@) + words_from(s@, i as int) == words(s@),
        decreases s.len() - i,
    {
        if is_white_char(s[i]) {
            i += 1;
        } else {
            let start = i;
            while i < s.len() && !is_white_char(s[i])
                invariant
                    start <= i <= s.len(),
                    word_end(s@, start as int) == word_end(s@, i as int),
                decreases s.len() - i,
            {
                i += 1;
            }
            proof {
                lemma_word_end(s@, start as int);
                assert(word_end(s@, start as int) == i);
            }
            let word = slice_chars(s, start, i);
            let ghost before = word_views(out@);
            let ghost piece = word@;
            out.push(word);
            assert(word_views(out@) =~= before.push(piece));
            assert(before.push(piece) + words_from(s@, i as int) =~= before + (seq![piece]
                + words_from(s@, i as int)));
        }
    }
    assert(word_views(out@) + Seq::<Seq<char>>::empty() =~= word_views(out@));
    out
}

/// The value of a hexadecimal digit, in either letter case.
pub open spec fn hex_value(c: char) -> Option<int> {
    if '0' <= c <= '9' {
        Some(c as int - 48)
    } else if 'a' <= c <= 'f' {
        Some(c as int - 87)
    } else if 'A' <= c <= 'F' {
        Some(c as int - 55)
    } else {
        None
    }
}

/// The index of the first character from `from` on that is no `#`.
pub open spec fn after_hashes(s: Seq<char>, from: int) -> int
    decreases s.len() - from,
{
    if from >= s.len() || from < 0 || s[from] != '#' {
        from
    } else {
        after_hashes(s, from + 1)
    }
}

/// The colour that a hexadecimal colour code names: after any `#` signs at
/// the start, six digits give red, green and blue with two digits each, and
/// three digits give them with one digit each, which counts twice. Anything
/// else names no colour.
pub open spec fn hex_color(s: Seq<char>) -> Option<(u8, u8, u8)> {
    let h = s.subrange(after_hashes(s, 0), s.len() as int);
    if h.len() == 6 && (forall|i: int| 0 <= i < 6 ==> hex_value(#[trigger] h[i]) is Some) {
        Some(
            (
                (hex_value(h[0])->0 * 16 + hex_value(h[1])->0) as u8,
                (hex_value(h[2])->0 * 16 + hex_value(h[3])->0) as u8,
                (hex_value(h[4])->0 * 16 + hex_value(h[5])->0) as u8,
            ),
        )
    } else if h.len() == 3 && (forall|i: int| 0 <= i < 3 ==> hex_value(#[trigger] h[i]) is Some) {
        Some(
            (
                (hex_value(h[0])->0 * 17) as u8,
                (hex_value(h[1])->0 * 17) as u8,
                (hex_value(h[2])->0 * 17) as u8,
            ),
        )
    } else {
        None
    }
}

/// The value of a hexadecimal digit, if the character is one.
fn hex_digit(c: char) -> (r: Option<u8>)
    ensures
        match r {
            Some(v) => hex_value(c) == Some(v as int) && v < 16,
            None => hex_value(c) is None,
        },
{
    if '0' <= c && c <= '9' {
        Some(c as u8 - 48)
    } else if 'a' <= c && c <= 'f' {
        Some(c as u8 - 87)
    } else if 'A' <= c && c <= 'F' {
        Some(c as u8 - 55)
    } else {
        None
    }
}

/// Reads a hexadecimal colour code given as characters (see [`hex_color`]).
pub fn hex_color_of(s: &Vec<char>) -> (r: Option<(u8, u8, u8)>)
    ensures
        r == hex_color(s@),
{
    let mut start: usize = 0;
    while start < s.len() && s[start] == '#'
        invariant
            start <= s.len(),
            after_hashes(s@, 0) == after_hashes(s@, start as int),
        decreases s.len() - start,
    {
        start += 1;
    }
    assert(after_hashes(s@, 0) == start);
    let ghost h = s@.subrange(start as int, s@.len() as int);
    let n = s.len() - start;
    if n != 6 && n != 3 {
        return None;
    }
    let mut digits: Vec<u8> = Vec::new();
    let mut i: usize = 0;
    while i < n
        invariant
            i <= n,
            n == s.len() - start,
            n == 6 || n == 3,
            after_hashes(s@, 0) == start,
            h == s@.subrange(start as int, s@.len() as int),
            digits.len() == i,
            forall|k: int|
                0 <= k < i ==> hex_value(#[trigger] h[k]) == Some(digits@[k] as int) && digits@[k]
                    < 16,
        decreases n - i,
    {
        assert(h[i as int] == s@[start + i]);
        match hex_digit(s[start + i]) {
            Some(v) => {
                let ghost before = digits@;
                digits.push(v);
                assert forall|k: int| 0 <= k < i + 1 implies hex_value(#[trigger] h[k]) == Some(
                    digits@[k] as int,
                ) && digits@[k] < 16 by {
                    if k < i {
                        assert(digits@[k] == before[k]);
                    }
                }
            },
            None => {
                return None;
            },
        }
        i += 1;
    }
    if n == 6 {
        Some((digits[0] * 16 + digits[1], digits[2] * 16 + digits[3], digits[4] * 16 + digits[5]))
    } else {
        Some((digits[0] * 17, digits[1] * 17, digits[2] * 17))
    }
}

/// Reads a colour code like `#ff0000` or `#f00`: red, green and blue, each
/// from 0 to 255 (see [`hex_color`]).
pub fn parse_hex_color(hex: &str) -> (r: Option<(u8, u8, u8)>)
    ensures
        r == hex_color(hex@),
{
    hex_color_of(&chars_of(hex))
}

/// Whether `s` ends in `pt`.
pub open spec fn ends_with_pt(s: Seq<char>) -> bool {
    s.len() >= 2 && s[s.len() - 2] == 'p' && s[s.len() - 1] == 't'
}

/// `s` without any `pt` at its end.
pub open spec fn without_pt(s: Seq<char>) -> Seq<char>
    decreases s.len(),
{
    if ends_with_pt(s) {
        without_pt(s.subrange(0, s.len() - 2))
    } else {
        s
    }
}

/// Whether all characters of `s` are ASCII.
pub open spec fn all_ascii(s: Seq<char>) -> bool {
    forall|i: int| 0 <= i < s.len() ==> (#[trigger] s[i]) as u32 <= 127
}

/// The bytes of ASCII characters.
pub open spec fn ascii_bytes(s: Seq<char>) -> Seq<u8> {
    s.map_values(|c: char| c as u8)
}

/// The font size, in thousandths of a point, that a word writes: a decimal
/// number, with `pt` after it if wanted. Thousandths are rounded down to
/// whole ones. A word that is no such number, or whose size is no `u32`,
/// writes no size.
pub open spec fn size_value(token: Seq<char>) -> Option<u32> {
    let body = without_pt(token);
    if !all_ascii(body) {
        None
    } else {
        match unsigned_value(ascii_bytes(body)) {
            Some(v) => if v / 1000 <= u32::MAX {
                Some((v / 1000) as u32)
            } else {
                None
            },
            None => None,
        }
    }
}

/// Reads a font size given as characters (see [`size_value`]).
pub fn size_of_chars(token: &Vec<char>) -> (r: Option<u32>)
    ensures
        r == size_value(token@),
{
    let mut end: usize = token.len();
    assert(token@.take(token.len() as int) =~= token@);
    while end >= 2 && token[end - 2] == 'p' && token[end - 1] == 't'
        invariant
            end <= token.len(),
            without_pt(token@) == without_pt(token@.take(end as int)),
        decreases end,
    {
        assert(token@.take(end as int).subrange(0, end - 2) =~= token@.take(end - 2));
        end -= 2;
    }
    assert(without_pt(token@) == token@.take(end as int));
    let ghost body = token@.take(end as int);
    let mut bytes: Vec<u8> = Vec::new();
    let mut i: usize = 0;
    while i < end
        invariant
            i <= end <= token.len(),
            body == token@.take(end as int),
            body == without_pt(token@),
            all_ascii(body.take(i as int)),
            bytes@ == ascii_bytes(body.take(i as int)),
        decreases end - i,
    {
        let c = token[i];
        if c as u32 > 127 {
            assert(body[i as int] == c);
            return None;
        }
        bytes.push(c as u8);
        assert(body.take(i + 1) =~= body.take(i as int).push(c));
        assert(ascii_bytes(body.take(i + 1)) =~= ascii_bytes(body.take(i as int)).push(c as u8));
        i += 1;
    }
    assert(body.take(end as int) =~= body);
    match parse_unsigned(&bytes) {
        Some(v) => {
            if v / 1000 > 0xffff_ffff {
                None
            } else {
                Some((v / 1000) as u32)
            }
        },
        None => {
            proof {
                // A number of more thousandths than an `i64` holds is no `u32`.
                if unsigned_value(ascii_bytes(body)) is Some {
                    assert(unsigned_value(ascii_bytes(body))->0 > i64::MAX);
                }
            }
            None
        },
    }
}

/// Reads a font size like `14`, `14pt` or `14.5pt`, in thousandths of a
/// point (see [`size_value`]).
pub fn parse_size_token(token: &str) -> (r: Option<u32>)
    ensures
        r == size_value(token@),
{
    size_of_chars(&chars_of(token))
}

/// A family name as it is meant: with a space for every underscore.
pub open spec fn family_name(word: Seq<char>) -> Seq<char> {
    word.map_values(
        |c: char|
            if c == '_' {
                ' '
            } else {
                c
            },
    )
}

/// The font description after one more word was read: `bold` and `italic`,
/// in any letter case, set their flag; a colour code of a `#` and six or
/// three hexadecimal digits sets the colour; a size sets the size; and any
/// other word names the family.
pub open spec fn with_word(spec: FontSpecValue, word: Seq<char>) -> FontSpecValue {
    if lower(word) == "bold"@ {
        FontSpecValue { bold: true, ..spec }
    } else if lower(word) == "italic"@ {
        FontSpecValue { italic: true, ..spec }
    } else if word.len() > 0 && word[0] == '#' && (word.len() == 7 || word.len() == 4)
        && hex_color(word) is Some {
        FontSpecValue { color: hex_color(word), ..spec }
    } else if size_value(lower(word)) is Some {
        FontSpecValue { size: size_value(lower(word)), ..spec }
    } else {
        FontSpecValue { family: Some(family_name(word)), ..spec }
    }
}

/// The font description that the first `upto` of the words give.
pub open spec fn described(list: Seq<Seq<char>>, upto: int) -> FontSpecValue
    decreases upto,
{
    if upto <= 0 {
        FontSpecValue { bold: false, italic: false, size: None, family: None, color: None }
    } else {
        with_word(described(list, upto - 1), list[upto - 1])
    }
}

/// The font description that a text gives.
pub open spec fn font_spec_of(text: Seq<char>) -> FontSpecValue {
    described(words(text), words(text).len() as int)
}

impl FontSpec {
    /// Reads a font description: words in any order, of which `bold` and
    /// `italic` set a flag, a number with or without `pt` sets the size, a
    /// colour code `#rrggbb` or `#rgb` sets the colour, and any other word
    /// names the font family, with underscores for spaces. Of words of the
    /// same kind the last one counts.
    pub fn parse(spec: &str) -> (r: FontSpec)
        ensures
            r@ == font_spec_of(spec@),
    {
        let list = split_words(&chars_of(spec));
        let ghost views = word_views(list@);
        let bold = chars_of("bold");
        let italic = chars_of("italic");
        let mut result = FontSpec::default();
        let mut i: usize = 0;
        while i < list.len()
            invariant
                i <= list.len(),
                views == word_views(list@),
                bold@ == "bold"@,
                italic@ == "italic"@,
                result@ == described(views, i as int),
            decreases list.len() - i,
        {
            let word = &list[i];
            assert(views[i as int] == word@);
            let small = lower_chars(word);
            if chars_equal(&small, &bold) {
                result.bold = true;
            } else if chars_equal(&small, &italic) {
                result.italic = true;
            } else {
                let color = if word.len() > 0 && word[0] == '#' && (word.len() == 7 || word.len()
                    == 4) {
                    hex_color_of(word)
                } else {
                    None
                };
                match color {
                    Some(c) => {
                        result.color = Some(c);
                    },
                    None => match size_of_chars(&small) {
                        Some(size) => {
                            result.size = Some(size);
                        },
                        None => {
                            let mut family: Vec<char> = Vec::new();
                            let mut k: usize = 0;
                            while k < word.len()
                                invariant
                                    k <= word.len(),
                                    family@ == family_name(word@).take(k as int),
                                decreases word.len() - k,
                            {
                                let c = word[k];
                                family.push(
                                    if c == '_' {
                                        ' '
                                    } else {
                                        c
                                    },
                                );
                                assert(family_name(word@).take(k + 1) =~= family_name(word@).take(
                                    k as int,
                                ).push(family_name(word@)[k as int]));
                                k += 1;
                            }
                            assert(family_name(word@).take(word.len() as int) =~= family_name(
                                word@,
                            ));
                            result.family = Some(string_of(&family));
                        },
                    },
                }
            }
            i += 1;
        }
        result
    }

    /// A font description that gives the size `size`, in thousandths of a
    /// point, and nothing else.
    pub fn with_size(size: u32) -> (r: FontSpec)
        ensures
            r@ == (FontSpecValue {
                bold: false,
                italic: false,
                size: Some(size),
                family: None,
                color: None,
            }),
    {
        FontSpec { bold: false, italic: false, size: Some(size), family: None, color: None }
    }
}

} // verus!
