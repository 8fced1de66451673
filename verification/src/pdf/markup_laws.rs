//! What holds of every text that is cut into lines.

use crate::pdf::markup::{
    bracket_break, break_len_at, html_break, html_break_slash, html_break_spaced, lines_from,
    split_lines,
};
use crate::text::{ascii_lower, matches_ci_at};
use vstd::prelude::*;

verus! {

/// Whether `d` is a line-break marker, in any letter case.
pub open spec fn is_marker(d: Seq<char>) -> bool {
    d.len() > 0 && break_len_at(d, 0) == d.len()
}

/// Whether a character can start a line-break marker.
pub open spec fn starts_marker(c: char) -> bool {
    c == '\n' || c == '|' || c == '[' || c == '<'
}

/// Whether `p` is one of the four tags among the markers.
spec fn is_tag(p: Seq<char>) -> bool {
    p == bracket_break() || p == html_break() || p == html_break_slash() || p
        == html_break_spaced()
}

/// A tag matches in a text as it matches in a prefix of the text that is
/// followed by a character that can start a marker: no tag runs across the
/// end of the prefix.
proof fn lemma_tag_in_prefix(s: Seq<char>, a: Seq<char>, i: int, p: Seq<char>)
    requires
        is_tag(p),
        0 <= i < a.len(),
        a.len() < s.len(),
        forall|j: int| 0 <= j < a.len() ==> s[j] == a[j],
        starts_marker(s[a.len() as int]),
    ensures
        matches_ci_at(s, i, p) == matches_ci_at(a, i, p),
{
    if i + p.len() <= a.len() {
        if matches_ci_at(s, i, p) {
            assert forall|k: int| 0 <= k < p.len() implies ascii_lower(#[trigger] a[i + k])
                == p[k] by {
                assert(ascii_lower(s[i + k]) == p[k]);
            }
        }
        if matches_ci_at(a, i, p) {
            assert forall|k: int| 0 <= k < p.len() implies ascii_lower(#[trigger] s[i + k])
                == p[k] by {
                assert(ascii_lower(a[i + k]) == p[k]);
            }
        }
    } else if matches_ci_at(s, i, p) {
        let k = a.len() - i;
        assert(ascii_lower(s[i + k]) == p[k]);
        assert(false);
    }
}

/// A tag matches in the tail of a text as it matches in the tail alone.
proof fn lemma_tag_in_suffix(x: Seq<char>, b: Seq<char>, i: int, p: Seq<char>)
    requires
        0 <= i,
    ensures
        matches_ci_at(x + b, x.len() + i, p) == matches_ci_at(b, i, p),
{
    let s = x + b;
    if matches_ci_at(s, x.len() + i, p) {
        assert forall|k: int| 0 <= k < p.len() implies ascii_lower(#[trigger] b[i + k]) == p[k] by {
            assert(ascii_lower(s[x.len() + i + k]) == p[k]);
        }
    }
    if matches_ci_at(b, i, p) {
        assert forall|k: int| 0 <= k < p.len() implies ascii_lower(
            #[trigger] s[x.len() + i + k],
        ) == p[k] by {
            assert(ascii_lower(b[i + k]) == p[k]);
            assert(s[x.len() + i + k] == b[i + k]);
        }
    }
}

/// The marker at an index of a prefix is the marker at that index of the
/// text, where a character that can start a marker follows the prefix.
proof fn lemma_break_in_prefix(s: Seq<char>, a: Seq<char>, i: int)
    requires
        0 <= i < a.len(),
        a.len() < s.len(),
        forall|j: int| 0 <= j < a.len() ==> s[j] == a[j],
        starts_marker(s[a.len() as int]),
    ensures
        break_len_at(s, i) == break_len_at(a, i),
        i + break_len_at(a, i) <= a.len(),
{
    lemma_tag_in_prefix(s, a, i, bracket_break());
    lemma_tag_in_prefix(s, a, i, html_break());
    lemma_tag_in_prefix(s, a, i, html_break_slash());
    lemma_tag_in_prefix(s, a, i, html_break_spaced());
}

/// The marker at an index of the tail of a text is the marker at that index
/// of the tail alone.
proof fn lemma_break_in_suffix(x: Seq<char>, b: Seq<char>, i: int)
    requires
        0 <= i,
    ensures
        break_len_at(x + b, x.len() + i) == break_len_at(b, i),
{
    lemma_tag_in_suffix(x, b, i, bracket_break());
    lemma_tag_in_suffix(x, b, i, html_break());
    lemma_tag_in_suffix(x, b, i, html_break_slash());
    lemma_tag_in_suffix(x, b, i, html_break_spaced());
    if i < b.len() {
        assert((x + b)[x.len() + i] == b[i]);
    }
}

/// The lines of the tail of a text are the lines of the tail alone.
proof fn lemma_lines_of_suffix(x: Seq<char>, b: Seq<char>, start: int, i: int)
    requires
        0 <= start <= i <= b.len(),
    ensures
        lines_from(x + b, x.len() + start, x.len() + i) == lines_from(b, start, i),
    decreases b.len() - i,
{
    let s = x + b;
    lemma_break_in_suffix(x, b, i);
    if i >= b.len() {
        assert(s.subrange(x.len() + start, s.len() as int) =~= b.subrange(start, b.len() as int));
    } else if break_len_at(b, i) > 0 {
        let n = break_len_at(b, i) as int;
        assert(i + n <= b.len());
        lemma_lines_of_suffix(x, b, i + n, i + n);
        assert(s.subrange(x.len() + start, x.len() + i) =~= b.subrange(start, i));
    } else {
        lemma_lines_of_suffix(x, b, start, i + 1);
    }
}

/// Only `[` and `<` themselves are `[` and `<` in lower case.
proof fn lemma_lower_of_starter(c: char)
    ensures
        ascii_lower(c) == '[' ==> c == '[',
        ascii_lower(c) == '<' ==> c == '<',
{
    if 'A' <= c && c <= 'Z' {
        assert(ascii_lower(c) as u32 == c as u32 + 32);
    }
}

/// A marker starts with a character that can start one, and a text that
/// starts with a marker has that marker at its start.
proof fn lemma_marker_first(d: Seq<char>, b: Seq<char>)
    requires
        is_marker(d),
    ensures
        starts_marker(d[0]),
        break_len_at(d + b, 0) == d.len(),
{
    let s = d + b;
    assert(s[0] == d[0]);
    lemma_lower_of_starter(d[0]);
    if matches_ci_at(d, 0, bracket_break()) {
        assert(ascii_lower(d[0int + 0]) == bracket_break()[0]);
    }
    if matches_ci_at(d, 0, html_break()) {
        assert(ascii_lower(d[0int + 0]) == html_break()[0]);
    }
    if matches_ci_at(d, 0, html_break_slash()) {
        assert(ascii_lower(d[0int + 0]) == html_break_slash()[0]);
    }
    if matches_ci_at(d, 0, html_break_spaced()) {
        assert(ascii_lower(d[0int + 0]) == html_break_spaced()[0]);
    }
    assert(starts_marker(d[0]));
    assert forall|p: Seq<char>| is_tag(p) && matches_ci_at(d, 0, p) implies matches_ci_at(
        s,
        0,
        p,
    ) && ascii_lower(d[0]) == p[0] by {
        assert(ascii_lower(d[0int + 0]) == p[0]);
        assert forall|k: int| 0 <= k < p.len() implies ascii_lower(#[trigger] s[0int + k]) == p[k] by {
            assert(ascii_lower(d[0int + k]) == p[k]);
            assert(s[0int + k] == d[0int + k]);
        }
    }
    assert forall|p: Seq<char>| is_tag(p) && matches_ci_at(s, 0, p) && p.len() <= d.len()
        implies matches_ci_at(d, 0, p) by {
        assert forall|k: int| 0 <= k < p.len() implies ascii_lower(#[trigger] d[0int + k]) == p[k] by {
            assert(ascii_lower(s[0int + k]) == p[k]);
            assert(s[0int + k] == d[0int + k]);
        }
    }
    // A longer tag cannot start where a shorter one fits: they differ in
    // their fourth character.
    if d.len() >= 4 {
        assert(s[0int + 3] == d[0int + 3]);
        if matches_ci_at(d, 0, html_break()) {
            assert(ascii_lower(d[0int + 3]) == html_break()[3]);
        }
        if matches_ci_at(d, 0, bracket_break()) {
            assert(ascii_lower(d[0int + 3]) == bracket_break()[3]);
        }
        if matches_ci_at(d, 0, html_break_slash()) {
            assert(ascii_lower(d[0int + 3]) == html_break_slash()[3]);
        }
        if matches_ci_at(s, 0, html_break_slash()) {
            assert(ascii_lower(s[0int + 3]) == html_break_slash()[3]);
        }
        if matches_ci_at(s, 0, html_break_spaced()) {
            assert(ascii_lower(s[0int + 3]) == html_break_spaced()[3]);
        }
    }
}

/// The lines of a text up to a marker and the lines after it, from a scan
/// that has reached the index `i` before the marker.
proof fn lemma_lines_before_marker(
    a: Seq<char>,
    d: Seq<char>,
    b: Seq<char>,
    start: int,
    i: int,
)
    requires
        is_marker(d),
        0 <= start <= i <= a.len(),
    ensures
        lines_from(a + d + b, start, i) == lines_from(a, start, i) + split_lines(b),
    decreases a.len() - i,
{
    let s = a + d + b;
    lemma_marker_first(d, b);
    assert(s =~= a + (d + b));
    assert(s[a.len() as int] == d[0]);
    if i == a.len() {
        lemma_break_in_suffix(a, d + b, 0);
        assert(break_len_at(s, i) == d.len());
        lemma_lines_of_suffix(a + d, b, 0, 0);
        assert(s.subrange(start, i) =~= a.subrange(start, a.len() as int));
        assert(lines_from(a, start, i) =~= seq![a.subrange(start, a.len() as int)]);
    } else {
        lemma_break_in_prefix(s, a, i);
        let n = break_len_at(a, i) as int;
        if n > 0 {
            lemma_lines_before_marker(a, d, b, i + n, i + n);
            assert(s.subrange(start, i) =~= a.subrange(start, i));
            assert(lines_from(s, start, i) =~= seq![a.subrange(start, i)] + (lines_from(
                a,
                i + n,
                i + n,
            ) + split_lines(b)));
        } else {
            lemma_lines_before_marker(a, d, b, start, i + 1);
        }
    }
}

/// Every marker cuts alike: a text with a marker in it has the lines of what
/// stands before the marker, then the lines of what stands after it,
/// whichever marker it is.
pub proof fn lemma_marker_cuts(a: Seq<char>, d: Seq<char>, b: Seq<char>)
    requires
        is_marker(d),
    ensures
        split_lines(a + d + b) == split_lines(a) + split_lines(b),
{
    lemma_lines_before_marker(a, d, b, 0, 0);
}

/// All markers are equivalent: putting one marker in the place of another
/// leaves the lines as they are.
pub proof fn lemma_markers_equivalent(a: Seq<char>, d1: Seq<char>, d2: Seq<char>, b: Seq<char>)
    requires
        is_marker(d1),
        is_marker(d2),
    ensures
        split_lines(a + d1 + b) == split_lines(a + d2 + b),
{
    lemma_marker_cuts(a, d1, b);
    lemma_marker_cuts(a, d2, b);
}

} // verus!
