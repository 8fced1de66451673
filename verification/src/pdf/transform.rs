//! Detecting the coordinate transform that a content stream leaves in
//! effect.
//!
//! The scan is shallow on purpose. It looks at the first `cm` operator of
//! the stream and at the tokens before it: the six tokens in front of the
//! operator are its operands, and a `q` operator anywhere before them means
//! that the transform is set inside a save/restore bracket and will be undone.
//! It does not follow the graphics state stack.

use crate::pdf::document::{resolved, PdfDocument};
use crate::pdf::object::{bytes_eq, key, name, ObjectId, PdfObject, Value};
use crate::pdf::overlay::{content_ids, list_content_ids};
use crate::pdf::stamp::entry;
use vstd::prelude::*;

verus! {

/// An affine transform `[a b c d e f]`, each entry in millionths.
#[derive(Clone, Copy, Debug, PartialEq, Eq, Structural)]
pub struct TransformMatrix {
    pub a: i64,
    pub b: i64,
    pub c: i64,
    pub d: i64,
    pub e: i64,
    pub f: i64,
}

/// The transform that changes nothing, `[1 0 0 1 0 0]`.
pub open spec fn identity() -> TransformMatrix {
    TransformMatrix { a: 1_000_000, b: 0, c: 0, d: 1_000_000, e: 0, f: 0 }
}

impl TransformMatrix {
    /// The transform that changes nothing.
    pub fn identity() -> (r: TransformMatrix)
        ensures
            r == identity(),
    {
        TransformMatrix { a: 1_000_000, b: 0, c: 0, d: 1_000_000, e: 0, f: 0 }
    }

    /// Whether this transform changes nothing.
    pub fn is_identity(&self) -> (r: bool)
        ensures
            r == (*self == identity()),
    {
        self.a == 1_000_000 && self.b == 0 && self.c == 0 && self.d == 1_000_000 && self.e == 0
            && self.f == 0
    }
}

/// Whether a byte is white space in a content stream: a null, tab, line
/// feed, form feed, carriage return or space.
pub open spec fn is_space(b: u8) -> bool {
    b == 0 || b == 9 || b == 10 || b == 12 || b == 13 || b == 32
}

/// The index at which the run of bytes that are no white space, from `i`
/// on, ends.
pub open spec fn run_end(s: Seq<u8>, i: int) -> int
    decreases s.len() - i,
{
    if i >= s.len() || i < 0 || is_space(s[i]) {
        i
    } else {
        run_end(s, i + 1)
    }
}

/// The tokens of `s` from index `i` on: the runs of bytes between white
/// space.
pub open spec fn tokens_from(s: Seq<u8>, i: int) -> Seq<Seq<u8>>
    decreases s.len() - i,
{
    if i >= s.len() || i < 0 {
        Seq::empty()
    } else if is_space(s[i]) {
        tokens_from(s, i + 1)
    } else if i < run_end(s, i) <= s.len() {
        seq![s.subrange(i, run_end(s, i))] + tokens_from(s, run_end(s, i))
    } else {
        // A run that starts within `s` ends after its start and within `s`.
        Seq::empty()
    }
}

/// The tokens of a content stream.
pub open spec fn tokens(s: Seq<u8>) -> Seq<Seq<u8>> {
    tokens_from(s, 0)
}

/// A run ends after its start and within the bytes.
pub proof fn lemma_run_end(s: Seq<u8>, i: int)
    requires
        0 <= i <= s.len(),
    ensures
        i <= run_end(s, i) <= s.len(),
        i < s.len() && !is_space(s[i]) ==> i < run_end(s, i),
        forall|j: int| i <= j < run_end(s, i) ==> !is_space(#[trigger] s[j]),
        run_end(s, i) < s.len() ==> is_space(s[run_end(s, i)]),
    decreases s.len() - i,
{
    if i < s.len() && !is_space(s[i]) {
        lemma_run_end(s, i + 1);
    }
}

/// Whether a byte is a decimal digit.
pub open spec fn is_digit(b: u8) -> bool {
    48 <= b <= 57
}

/// Whether all of `s` are decimal digits.
pub open spec fn all_digits(s: Seq<u8>) -> bool {
    forall|i: int| 0 <= i < s.len() ==> is_digit(#[trigger] s[i])
}

/// The number that decimal digits write.
pub open spec fn digits_value(s: Seq<u8>) -> int
    decreases s.len(),
{
    if s.len() == 0 {
        0
    } else {
        digits_value(s.drop_last()) * 10 + (s.last() - 48)
    }
}

/// The millionths that the digits after a decimal point write; digits after
/// the sixth do not count.
pub open spec fn fraction_value(s: Seq<u8>) -> int {
    let d = |i: int|
        if i < s.len() {
            s[i] - 48
        } else {
            0int
        };
    d(0) * 100000 + d(1) * 10000 + d(2) * 1000 + d(3) * 100 + d(4) * 10 + d(5)
}

/// The index of the decimal point of `s`, or its length without one.
pub open spec fn point_index(s: Seq<u8>, from: int) -> int
    decreases s.len() - from,
{
    if from >= s.len() || from < 0 {
        s.len() as int
    } else if s[from] == 46 {
        from
    } else {
        point_index(s, from + 1)
    }
}

/// The value, in millionths, of an unsigned number: digits, with a decimal
/// point and more digits if wanted; at least one digit in all. `None` for
/// anything else.
pub open spec fn unsigned_value(s: Seq<u8>) -> Option<int> {
    let p = point_index(s, 0);
    let whole = s.subrange(0, p);
    let fraction = if p < s.len() {
        s.subrange(p + 1, s.len() as int)
    } else {
        Seq::<u8>::empty()
    };
    if all_digits(whole) && all_digits(fraction) && whole.len() + fraction.len() > 0 {
        Some(digits_value(whole) * 1000000 + fraction_value(fraction))
    } else {
        None
    }
}

/// The value, in millionths, of the number that a token writes: an unsigned
/// number with a sign in front if wanted. `None` for a token that is no
/// number, or whose value is no `i64`.
pub open spec fn number_value(s: Seq<u8>) -> Option<int> {
    let signed = s.len() > 0 && (s[0] == 43 || s[0] == 45);
    let body = if signed {
        s.subrange(1, s.len() as int)
    } else {
        s
    };
    match unsigned_value(body) {
        Some(v) => if v <= i64::MAX {
            if s.len() > 0 && s[0] == 45 {
                Some(-v)
            } else {
                Some(v)
            }
        } else {
            None
        },
        None => None,
    }
}

/// The operator that concatenates a matrix to the transform, `cm`.
pub open spec fn concat_operator() -> Seq<u8> {
    seq![99u8, 109u8]
}

/// The operator that saves the graphics state, `q`.
pub open spec fn save_operator() -> Seq<u8> {
    seq![113u8]
}

/// The least index from `from` on of a token equal to `token`, or the number
/// of tokens.
pub open spec fn first_token(list: Seq<Seq<u8>>, token: Seq<u8>, from: int) -> int
    decreases list.len() - from,
{
    if from >= list.len() || from < 0 {
        list.len() as int
    } else if list[from] == token {
        from
    } else {
        first_token(list, token, from + 1)
    }
}

/// The transform that the tokens of a content stream leave in effect.
///
/// Where there is a `cm` operator, the six tokens before the first one are
/// all numbers and no `q` stands anywhere before them, it is the matrix of
/// those numbers. In every other case it is the identity: without a `cm`,
/// with operands that are missing or no numbers, and where a `q` before the
/// operands brackets the transform.
pub open spec fn detected(list: Seq<Seq<u8>>) -> TransformMatrix {
    let k = first_token(list, concat_operator(), 0);
    if k < list.len() && k >= 6 && first_token(list, save_operator(), 0) >= k - 6 && (forall|
        j: int,
    |
        k - 6 <= j < k ==> number_value(#[trigger] list[j]) is Some) {
        TransformMatrix {
            a: number_value(list[k - 6])->0 as i64,
            b: number_value(list[k - 5])->0 as i64,
            c: number_value(list[k - 4])->0 as i64,
            d: number_value(list[k - 3])->0 as i64,
            e: number_value(list[k - 2])->0 as i64,
            f: number_value(list[k - 1])->0 as i64,
        }
    } else {
        identity()
    }
}

/// What a vector of tokens holds.
pub open spec fn token_views(v: Seq<Vec<u8>>) -> Seq<Seq<u8>> {
    v.map_values(|t: Vec<u8>| t@)
}

/// Cuts a content stream into its tokens.
pub fn tokenize(content: &[u8]) -> (r: Vec<Vec<u8>>)
    ensures
        token_views(r@) == tokens(content@),
{
    let mut out: Vec<Vec<u8>> = Vec::new();
    let mut i: usize = 0;
    assert(token_views(out@) =~= Seq::<Seq<u8>>::empty());
    while i < content.len()
        invariant
            i <= content.len(),
            token_views(out@) + tokens_from(content@, i as int) == tokens(content@),
        decreases content.len() - i,
    {
        let b = content[i];
        if b == 0 || b == 9 || b == 10 || b == 12 || b == 13 || b == 32 {
            i += 1;
        } else {
            let start = i;
            let mut token: Vec<u8> = Vec::new();
            while i < content.len() && !(content[i] == 0 || content[i] == 9 || content[i] == 10
                || content[i] == 12 || content[i] == 13 || content[i] == 32)
                invariant
                    start <= i <= content.len(),
                    token@ == content@.subrange(start as int, i as int),
                    run_end(content@, start as int) == run_end(content@, i as int),
                decreases content.len() - i,
            {
                token.push(content[i]);
                assert(content@.subrange(start as int, i + 1) =~= content@.subrange(
                    start as int,
                    i as int,
                ).push(content@[i as int]));
                i += 1;
            }
            proof {
                lemma_run_end(content@, start as int);
                assert(run_end(content@, start as int) == i);
            }
            let ghost before = token_views(out@);
            let ghost piece = token@;
            out.push(token);
            assert(token_views(out@) =~= before.push(piece));
            assert(before.push(piece) + tokens_from(content@, i as int) =~= before + (seq![piece]
                + tokens_from(content@, i as int)));
        }
    }
    assert(token_views(out@) + Seq::<Seq<u8>>::empty() =~= token_views(out@));
    out
}

/// The digits of a number write at least what fewer of them write.
proof fn lemma_digits_grow(s: Seq<u8>, k: int)
    requires
        all_digits(s),
        0 <= k <= s.len(),
    ensures
        0 <= digits_value(s.take(k)) <= digits_value(s),
    decreases s.len() - k,
{
    if k < s.len() {
        lemma_digits_grow(s, k + 1);
        assert(s.take(k + 1).drop_last() =~= s.take(k));
        lemma_digits_nonnegative(s.take(k));
        assert(is_digit(s[k]));
    } else {
        assert(s.take(k) =~= s);
        lemma_digits_nonnegative(s);
    }
}

/// Digits write no negative number.
proof fn lemma_digits_nonnegative(s: Seq<u8>)
    requires
        all_digits(s),
    ensures
        0 <= digits_value(s),
    decreases s.len(),
{
    if s.len() > 0 {
        lemma_digits_nonnegative(s.drop_last());
        assert(is_digit(s[s.len() - 1]));
    }
}

/// The decimal point found from `from` on is the first one there.
pub proof fn lemma_point_index(s: Seq<u8>, from: int)
    requires
        0 <= from <= s.len(),
    ensures
        from <= point_index(s, from) <= s.len(),
        point_index(s, from) < s.len() ==> s[point_index(s, from)] == 46,
        forall|j: int| from <= j < point_index(s, from) ==> #[trigger] s[j] != 46,
    decreases s.len() - from,
{
    if from < s.len() && s[from] != 46 {
        lemma_point_index(s, from + 1);
    }
}

/// The value of an unsigned number in millionths, if it is one and its value
/// is an `i64` (see [`unsigned_value`]).
pub fn parse_unsigned(body: &Vec<u8>) -> (r: Option<i64>)
    ensures
        match unsigned_value(body@) {
            Some(v) => if v <= i64::MAX {
                r == Some(v as i64)
            } else {
                r is None
            },
            None => r is None,
        },
        r matches Some(v) ==> v >= 0 && unsigned_value(body@) == Some(v as int),
{
    let ghost p = point_index(body@, 0);
    let ghost whole_digits = body@.subrange(0, p);
    proof {
        lemma_point_index(body@, 0);
    }
    let mut whole: i64 = 0;
    let mut i: usize = 0;
    while i < body.len() && body[i] != 46
        invariant
            i <= body.len(),
            p == point_index(body@, 0),
            whole_digits == body@.subrange(0, p),
            p == point_index(body@, i as int),
            i <= p <= body.len(),
            all_digits(body@.take(i as int)),
            whole == digits_value(body@.take(i as int)),
            0 <= whole <= 9_223_372_036_859,
        decreases body.len() - i,
    {
        let b = body[i];
        proof {
            lemma_point_index(body@, i + 1);
            assert(whole_digits[i as int] == b);
        }
        if b < 48 || b > 57 {
            assert(!is_digit(whole_digits[i as int]));
            return None;
        }
        assert(body@.take(i + 1).drop_last() =~= body@.take(i as int));
        assert(all_digits(body@.take(i + 1)));
        if whole > 922_337_203_685 {
            // Ten times this and six more digits are no `i64`.
            proof {
                if all_digits(whole_digits) {
                    assert(whole_digits.take(i + 1) =~= body@.take(i + 1));
                    lemma_digits_grow(whole_digits, i + 1);
                    assert(digits_value(body@.take(i + 1)) == whole * 10 + (b - 48));
                    assert(digits_value(whole_digits) * 1000000 > i64::MAX);
                }
            }
            return None;
        }
        whole = whole * 10 + (b - 48) as i64;
        i += 1;
    }
    proof {
        lemma_point_index(body@, i as int);
    }
    assert(i == p);
    assert(whole_digits =~= body@.take(i as int));
    let ghost fraction = if p < body@.len() {
        body@.subrange(p + 1, body@.len() as int)
    } else {
        Seq::<u8>::empty()
    };
    let mut millionths: i64 = 0;
    let mut count: usize = 0;
    if i < body.len() {
        let start = i + 1;
        let mut j: usize = start;
        assert(fraction.take(0) =~= Seq::<u8>::empty());
        while j < body.len()
            invariant
                start <= j <= body.len(),
                start == p + 1,
                p == point_index(body@, 0),
                p < body@.len(),
                fraction == body@.subrange(p + 1, body@.len() as int),
                all_digits(fraction.take(j - start)),
                0 <= millionths <= 999_999,
                millionths == fraction_value(fraction.take(j - start)),
            decreases body.len() - j,
        {
            let b = body[j];
            assert(fraction[j - start] == b);
            if b < 48 || b > 57 {
                assert(!is_digit(fraction[j - start]));
                assert(!all_digits(fraction));
                assert(p < body@.len());
                assert(unsigned_value(body@) is None);
                return None;
            }
            let place: i64 = if j - start == 0 {
                100000
            } else if j - start == 1 {
                10000
            } else if j - start == 2 {
                1000
            } else if j - start == 3 {
                100
            } else if j - start == 4 {
                10
            } else if j - start == 5 {
                1
            } else {
                0
            };
            assert(fraction.take(j - start + 1)[j - start] == b);
            assert(forall|k: int|
                0 <= k < j - start ==> #[trigger] fraction.take(j - start + 1)[k]
                    == fraction.take(j - start)[k]);
            millionths = millionths + place * ((b - 48) as i64);
            j += 1;
        }
        assert(fraction.take(j - start) =~= fraction);
        count = body.len() - start;
    } else {
        assert(millionths == fraction_value(fraction));
    }
    assert(whole_digits.len() == i);
    assert(fraction.len() == count);
    if i + count == 0 {
        assert(unsigned_value(body@) is None);
        return None;
    }
    assert(unsigned_value(body@) == Some(whole * 1000000 + millionths));
    if whole > 9_223_372_036_854 || (whole == 9_223_372_036_854 && millionths > 775_807) {
        return None;
    }
    Some(whole * 1_000_000 + millionths)
}

/// The value, in millionths, of the number that a token writes, if it
/// writes one and its value is an `i64` (see [`number_value`]).
pub fn parse_number(token: &[u8]) -> (r: Option<i64>)
    ensures
        match r {
            Some(v) => number_value(token@) == Some(v as int),
            None => number_value(token@) is None,
        },
{
    let signed = token.len() > 0 && (token[0] == 43 || token[0] == 45);
    let start: usize = if signed {
        1
    } else {
        0
    };
    let mut body: Vec<u8> = Vec::new();
    let mut i: usize = start;
    while i < token.len()
        invariant
            start <= i <= token.len(),
            body@ == token@.subrange(start as int, i as int),
        decreases token.len() - i,
    {
        body.push(token[i]);
        i += 1;
    }
    assert(body@ =~= if signed {
        token@.subrange(1, token@.len() as int)
    } else {
        token@
    });
    assert(signed == (token@.len() > 0 && (token@[0] == 43 || token@[0] == 45)));
    match parse_unsigned(&body) {
        Some(v) => {
            assert(unsigned_value(body@) == Some(v as int));
            assert(number_value(token@) == Some(
                if token@.len() > 0 && token@[0] == 45 {
                    -(v as int)
                } else {
                    v as int
                },
            ));
            if token.len() > 0 && token[0] == 45 {
                Some(-v)
            } else {
                Some(v)
            }
        },
        None => {
            assert(number_value(token@) is None);
            None
        },
    }
}

/// The index of the first token from `from` on that equals `token`, or the
/// number of tokens (see [`first_token`]).
fn find_token(list: &Vec<Vec<u8>>, token: &Vec<u8>, limit: usize) -> (r: usize)
    requires
        limit <= list.len(),
    ensures
        r <= limit,
        r < limit ==> r == first_token(token_views(list@), token@, 0),
        r == limit ==> first_token(token_views(list@), token@, 0) >= limit,
{
    let ghost views = token_views(list@);
    let mut i: usize = 0;
    while i < limit
        invariant
            i <= limit <= list.len(),
            views == token_views(list@),
            first_token(views, token@, 0) == first_token(views, token@, i as int),
        decreases limit - i,
    {
        assert(views[i as int] == list@[i as int]@);
        if bytes_eq(list[i].as_slice(), token.as_slice()) {
            return i;
        }
        i += 1;
    }
    proof {
        lemma_first_token(views, token@, limit as int);
    }
    limit
}

/// The first token found from `from` on stands at or after `from`.
proof fn lemma_first_token(list: Seq<Seq<u8>>, token: Seq<u8>, from: int)
    requires
        0 <= from <= list.len(),
    ensures
        from <= first_token(list, token, from) <= list.len(),
    decreases list.len() - from,
{
    if from < list.len() && list[from] != token {
        lemma_first_token(list, token, from + 1);
    }
}

/// Detects the transform that a content stream leaves in effect for what
/// is appended to it.
///
/// The first `cm` operator of the stream counts. Where the six tokens before
/// it are numbers and no `q` operator stands anywhere before them, the result
/// is the matrix of those numbers, each in millionths. In every other case
/// the result is the identity: a `q` before the operands means that the
/// transform will be undone by the matching restore.
pub fn detect_transform(content: &[u8]) -> (r: TransformMatrix)
    ensures
        r == detected(tokens(content@)),
{
    let list = tokenize(content);
    let ghost views = token_views(list@);
    let cm: Vec<u8> = vec![99u8, 109u8];
    let q: Vec<u8> = vec![113u8];
    assert(cm@ =~= concat_operator());
    assert(q@ =~= save_operator());
    let k = find_token(&list, &cm, list.len());
    if k >= list.len() || k < 6 {
        return TransformMatrix::identity();
    }
    let save = find_token(&list, &q, k - 6);
    if save < k - 6 {
        return TransformMatrix::identity();
    }
    let mut values: Vec<i64> = Vec::new();
    let mut j: usize = k - 6;
    while j < k
        invariant
            6 <= k < list.len(),
            k - 6 <= j <= k,
            views == token_views(list@),
            views == tokens(content@),
            k == first_token(views, concat_operator(), 0),
            first_token(views, save_operator(), 0) >= k - 6,
            values.len() == j - (k - 6),
            forall|i: int|
                k - 6 <= i < j ==> number_value(#[trigger] views[i]) == Some(
                    values@[i - (k - 6)] as int,
                ),
        decreases k - j,
    {
        assert(views[j as int] == list@[j as int]@);
        match parse_number(list[j].as_slice()) {
            Some(v) => {
                let ghost before = values@;
                values.push(v);
                assert forall|i: int| k - 6 <= i < j + 1 implies number_value(
                    #[trigger] views[i],
                ) == Some(values@[i - (k - 6)] as int) by {
                    if i < j {
                        assert(values@[i - (k - 6)] == before[i - (k - 6)]);
                    }
                }
            },
            None => {
                assert(number_value(views[j as int]) is None);
                return TransformMatrix::identity();
            },
        }
        j += 1;
    }
    assert(number_value(views[k - 6]) == Some(values@[0] as int));
    assert(number_value(views[k - 5]) == Some(values@[1] as int));
    assert(number_value(views[k - 4]) == Some(values@[2] as int));
    assert(number_value(views[k - 3]) == Some(values@[3] as int));
    assert(number_value(views[k - 2]) == Some(values@[4] as int));
    assert(number_value(views[k - 1]) == Some(values@[5] as int));
    TransformMatrix {
        a: values[0],
        b: values[1],
        c: values[2],
        d: values[3],
        e: values[4],
        f: values[5],
    }
}

/// The transform that the first content stream of a page leaves in effect;
/// the identity for a page without a content stream to look at.
pub open spec fn page_transform(objects: Map<ObjectId, Value>, page: ObjectId) -> TransformMatrix {
    match resolved(objects, page) {
        Some(Value::Dictionary(d)) => match content_ids(entry(d, name("Contents"))) {
            Some(ids) => if ids.len() > 0 {
                match resolved(objects, ids[0]) {
                    Some(Value::Stream(s)) => detected(tokens(s.content)),
                    _ => identity(),
                }
            } else {
                identity()
            },
            None => identity(),
        },
        _ => identity(),
    }
}

/// Detects the transform that the content of a page leaves in effect, by
/// the first of the page's content streams alone (see [`detect_transform`]).
/// The stream is read as it is: decode the streams of the document first.
pub fn detect_page_transform(doc: &PdfDocument, page_id: ObjectId) -> (r: TransformMatrix)
    ensures
        r == page_transform(doc@.objects, page_id),
{
    match doc.get_object(page_id) {
        Some(PdfObject::Dictionary(d)) => match list_content_ids(
            d.get(key("Contents").as_slice()),
        ) {
            Some(ids) => {
                if ids.len() == 0 {
                    return TransformMatrix::identity();
                }
                match doc.get_object(ids[0]) {
                    Some(PdfObject::Stream(s)) => detect_transform(s.content.as_slice()),
                    _ => TransformMatrix::identity(),
                }
            },
            None => TransformMatrix::identity(),
        },
        _ => TransformMatrix::identity(),
    }
}

} // verus!
