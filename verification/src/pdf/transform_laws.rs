//! What holds of every content stream that starts with a transform.

use crate::pdf::transform::{
    all_digits, concat_operator, detected, first_token, identity, is_digit, is_space,
    lemma_point_index, lemma_run_end, number_value, point_index, run_end, save_operator, tokens,
    tokens_from, unsigned_value, TransformMatrix,
};
use vstd::prelude::*;

verus! {

/// Whether `t` can stand as one token: it is not empty and holds no white
/// space.
pub open spec fn is_word(t: Seq<u8>) -> bool {
    t.len() > 0 && forall|j: int| 0 <= j < t.len() ==> !is_space(#[trigger] t[j])
}

/// Whether `gaps` holds a white-space byte for each of `count` tokens.
pub open spec fn are_gaps(gaps: Seq<u8>, count: nat) -> bool {
    gaps.len() == count && forall|j: int| 0 <= j < gaps.len() ==> is_space(#[trigger] gaps[j])
}

/// The tokens of `list` from index `from` on, each with its byte of `gaps`
/// after it, and then `rest`.
pub open spec fn spelled(list: Seq<Seq<u8>>, gaps: Seq<u8>, from: int, rest: Seq<u8>) -> Seq<u8>
    decreases list.len() - from,
{
    if from < 0 || from >= list.len() {
        rest
    } else {
        list[from] + seq![gaps[from]] + spelled(list, gaps, from + 1, rest)
    }
}

/// The matrix that six number tokens write, each entry in millionths.
pub open spec fn matrix_of(numbers: Seq<Seq<u8>>) -> TransformMatrix {
    TransformMatrix {
        a: number_value(numbers[0])->0 as i64,
        b: number_value(numbers[1])->0 as i64,
        c: number_value(numbers[2])->0 as i64,
        d: number_value(numbers[3])->0 as i64,
        e: number_value(numbers[4])->0 as i64,
        f: number_value(numbers[5])->0 as i64,
    }
}

/// A run within bytes that follow others ends where it ends in those bytes
/// alone.
proof fn lemma_run_end_after(a: Seq<u8>, b: Seq<u8>, i: int)
    requires
        0 <= i <= b.len(),
    ensures
        run_end(a + b, a.len() + i) == a.len() + run_end(b, i),
    decreases b.len() - i,
{
    if i < b.len() {
        assert((a + b)[a.len() + i] == b[i]);
        if !is_space(b[i]) {
            lemma_run_end_after(a, b, i + 1);
        }
    }
}

/// The tokens of bytes that follow others, from their start on, are their
/// own tokens.
proof fn lemma_tokens_after(a: Seq<u8>, b: Seq<u8>, i: int)
    requires
        0 <= i <= b.len(),
    ensures
        tokens_from(a + b, a.len() + i) == tokens_from(b, i),
    decreases b.len() - i,
{
    if i < b.len() {
        assert((a + b)[a.len() + i] == b[i]);
        if is_space(b[i]) {
            lemma_tokens_after(a, b, i + 1);
        } else {
            lemma_run_end_after(a, b, i);
            lemma_run_end(b, i);
            let end = run_end(b, i);
            lemma_tokens_after(a, b, end);
            assert((a + b).subrange(a.len() + i, a.len() + end) =~= b.subrange(i, end));
        }
    }
}

/// A run that starts within a word that white space follows ends with the
/// word.
proof fn lemma_run_end_of_word(t: Seq<u8>, gap: u8, rest: Seq<u8>, i: int)
    requires
        is_word(t),
        is_space(gap),
        0 <= i <= t.len(),
    ensures
        run_end(t + seq![gap] + rest, i) == t.len(),
    decreases t.len() - i,
{
    let s = t + seq![gap] + rest;
    if i < t.len() {
        assert(s[i] == t[i]);
        lemma_run_end_of_word(t, gap, rest, i + 1);
    } else {
        assert(s[i] == gap);
    }
}

/// A word, a white-space byte and more bytes have as their tokens the word
/// and then the tokens of those bytes.
pub proof fn lemma_tokens_of_word(t: Seq<u8>, gap: u8, rest: Seq<u8>)
    requires
        is_word(t),
        is_space(gap),
    ensures
        tokens(t + seq![gap] + rest) == seq![t] + tokens(rest),
{
    let s = t + seq![gap] + rest;
    lemma_run_end_of_word(t, gap, rest, 0);
    assert(s[0] == t[0]);
    assert(s.subrange(0, t.len() as int) =~= t);
    assert(s[t.len() as int] == gap);
    lemma_tokens_after(t + seq![gap], rest, 0);
    assert(tokens_from(s, t.len() as int) == tokens_from(s, (t.len() + 1) as int));
}

/// Words that are written one after the other with white space between
/// them are read back as they are.
pub proof fn lemma_tokens_spelled(list: Seq<Seq<u8>>, gaps: Seq<u8>, from: int, rest: Seq<u8>)
    requires
        0 <= from <= list.len(),
        forall|j: int| 0 <= j < list.len() ==> is_word(#[trigger] list[j]),
        are_gaps(gaps, list.len()),
    ensures
        tokens(spelled(list, gaps, from, rest)) == list.subrange(from, list.len() as int) + tokens(
            rest,
        ),
    decreases list.len() - from,
{
    if from < list.len() {
        lemma_tokens_spelled(list, gaps, from + 1, rest);
        lemma_tokens_of_word(list[from], gaps[from], spelled(list, gaps, from + 1, rest));
        assert(seq![list[from]] + (list.subrange(from + 1, list.len() as int) + tokens(rest))
            =~= list.subrange(from, list.len() as int) + tokens(rest));
    } else {
        assert(list.subrange(from, list.len() as int) + tokens(rest) =~= tokens(rest));
    }
}

/// A token that writes a number is a word, and is neither of the operators
/// `cm` and `q`.
pub proof fn lemma_number_is_word(t: Seq<u8>)
    requires
        number_value(t) is Some,
    ensures
        is_word(t),
        t != concat_operator(),
        t != save_operator(),
{
    let signed = t.len() > 0 && (t[0] == 43 || t[0] == 45);
    let body = if signed {
        t.subrange(1, t.len() as int)
    } else {
        t
    };
    let shift: int = if signed {
        1
    } else {
        0
    };
    assert(unsigned_value(body) is Some);
    lemma_point_index(body, 0);
    let p = point_index(body, 0);
    let whole = body.subrange(0, p);
    let fraction = if p < body.len() {
        body.subrange(p + 1, body.len() as int)
    } else {
        Seq::<u8>::empty()
    };
    assert(all_digits(whole) && all_digits(fraction) && whole.len() + fraction.len() > 0);
    assert forall|j: int| 0 <= j < body.len() implies is_digit(#[trigger] body[j]) || body[j]
        == 46 by {
        if j < p {
            assert(whole[j] == body[j]);
        } else if j > p {
            assert(fraction[j - p - 1] == body[j]);
        }
    }
    assert forall|j: int| 0 <= j < t.len() implies !is_space(#[trigger] t[j]) by {
        if j >= shift {
            assert(body[j - shift] == t[j]);
        }
    }
    assert(body.len() > 0);
    if t == concat_operator() {
        assert(t[0] == 99u8);
        assert(body[0] == 99u8);
    }
    if t == save_operator() {
        assert(t[0] == 113u8);
        assert(body[0] == 113u8);
    }
}

/// The first token that equals `token` is the one at `at`, if none before it
/// equals `token`.
proof fn lemma_first_token_at(list: Seq<Seq<u8>>, token: Seq<u8>, from: int, at: int)
    requires
        0 <= from <= at < list.len(),
        list[at] == token,
        forall|j: int| from <= j < at ==> #[trigger] list[j] != token,
    ensures
        first_token(list, token, from) == at,
    decreases at - from,
{
    if from < at {
        lemma_first_token_at(list, token, from + 1, at);
    }
}

/// What six number tokens and the operator `cm` are, and how they differ
/// from `q`.
proof fn lemma_operands(numbers: Seq<Seq<u8>>)
    requires
        numbers.len() == 6,
        forall|j: int| 0 <= j < 6 ==> number_value(#[trigger] numbers[j]) is Some,
    ensures
        is_word(concat_operator()),
        is_word(save_operator()),
        concat_operator() != save_operator(),
        forall|j: int|
            0 <= j < 6 ==> is_word(#[trigger] numbers[j]) && numbers[j] != concat_operator()
                && numbers[j] != save_operator(),
{
    let cm = concat_operator();
    let q = save_operator();
    assert(cm[0] == 99u8 && cm[1] == 109u8);
    assert(q[0] == 113u8);
    assert(cm.len() != q.len());
    assert forall|j: int| 0 <= j < 6 implies is_word(#[trigger] numbers[j]) && numbers[j] != cm
        && numbers[j] != q by {
        lemma_number_is_word(numbers[j]);
    }
}

/// The bracket rule of transform detection, without a bracket: a content
/// stream that starts with six numbers and the operator `cm`, with white
/// space after each, leaves the matrix of those numbers in effect, whatever
/// follows.
pub proof fn lemma_open_transform(numbers: Seq<Seq<u8>>, gaps: Seq<u8>, rest: Seq<u8>)
    requires
        numbers.len() == 6,
        forall|j: int| 0 <= j < 6 ==> number_value(#[trigger] numbers[j]) is Some,
        are_gaps(gaps, 7),
    ensures
        detected(tokens(spelled(numbers.push(concat_operator()), gaps, 0, rest))) == matrix_of(
            numbers,
        ),
{
    let cm = concat_operator();
    let q = save_operator();
    lemma_operands(numbers);
    let open = numbers.push(cm);
    lemma_tokens_spelled(open, gaps, 0, rest);
    let list = tokens(spelled(open, gaps, 0, rest));
    assert(open.subrange(0, open.len() as int) =~= open);
    assert(list == open + tokens(rest));
    assert forall|j: int| 0 <= j < 6 implies #[trigger] list[j] == numbers[j] by {}
    assert(list[6] == cm);
    lemma_first_token_at(list, cm, 0, 6);
    lemma_first_token_from(list, q, 0);
}

/// The bracket rule of transform detection, with a bracket: a content
/// stream that starts with the operator `q`, then six numbers and the
/// operator `cm`, with white space after each, leaves the identity in
/// effect, whatever follows: the restore that matches the `q` undoes the
/// transform.
pub proof fn lemma_bracketed_transform(numbers: Seq<Seq<u8>>, gaps: Seq<u8>, rest: Seq<u8>)
    requires
        numbers.len() == 6,
        forall|j: int| 0 <= j < 6 ==> number_value(#[trigger] numbers[j]) is Some,
        are_gaps(gaps, 8),
    ensures
        detected(
            tokens(
                spelled(seq![save_operator()] + numbers.push(concat_operator()), gaps, 0, rest),
            ),
        ) == identity(),
{
    let cm = concat_operator();
    let q = save_operator();
    lemma_operands(numbers);
    let closed = seq![q] + numbers.push(cm);
    assert forall|j: int| 0 <= j < closed.len() implies is_word(#[trigger] closed[j]) by {
        if 0 < j < 7 {
            assert(closed[j] == numbers[j - 1]);
        }
    }
    lemma_tokens_spelled(closed, gaps, 0, rest);
    let bracketed = tokens(spelled(closed, gaps, 0, rest));
    assert(closed.subrange(0, closed.len() as int) =~= closed);
    assert(bracketed == closed + tokens(rest));
    assert(bracketed[0] == q);
    assert forall|j: int| 1 <= j < 7 implies #[trigger] bracketed[j] == numbers[j - 1] by {}
    assert(bracketed[7] == cm);
    lemma_first_token_at(bracketed, cm, 0, 7);
    lemma_first_token_at(bracketed, q, 0, 0);
}

/// The first token found from `from` on stands at `from` or after it.
proof fn lemma_first_token_from(list: Seq<Seq<u8>>, token: Seq<u8>, from: int)
    requires
        0 <= from,
    ensures
        first_token(list, token, from) >= from || first_token(list, token, from) == list.len(),
    decreases list.len() - from,
{
    if from < list.len() && list[from] != token {
        lemma_first_token_from(list, token, from + 1);
    }
}

} // verus!
