//! The small markup of header and footer text: placeholders, line-break
//! markers, inline `[font ...]` spans, and the escaping of PDF string
//! literals.

use crate::text::{
    chars_of, chars_view, contains_ci, decimal, decimal_chars, find_chars, find_from,
    lemma_find_from, lemma_replace_ci_absent, matches_at, matches_ci_at, replace_all_ci, replace_ci,
    slice_chars, starts_with_ci_at, string_of, strings_view,
};
use vstd::prelude::*;

verus! {

/// The line-break marker `[br]`, in lower case.
pub open spec fn bracket_break() -> Seq<char> {
    seq!['[', 'b', 'r', ']']
}

/// The line-break marker `<br>`, in lower case.
pub open spec fn html_break() -> Seq<char> {
    seq!['<', 'b', 'r', '>']
}

/// The line-break marker `<br/>`, in lower case.
pub open spec fn html_break_slash() -> Seq<char> {
    seq!['<', 'b', 'r', '/', '>']
}

/// The line-break marker `<br />`, in lower case.
pub open spec fn html_break_spaced() -> Seq<char> {
    seq!['<', 'b', 'r', ' ', '/', '>']
}

/// The length of the line-break marker that starts at index `i` of `s`, or 0
/// when none starts there. The markers are a newline, `|`, `[br]`, `<br>`,
/// `<br/>` and `<br />`; the tags match in any letter case.
pub open spec fn break_len_at(s: Seq<char>, i: int) -> nat {
    if !(0 <= i < s.len()) {
        0
    } else if s[i] == '\n' || s[i] == '|' {
        1
    } else if matches_ci_at(s, i, bracket_break()) {
        4
    } else if matches_ci_at(s, i, html_break()) {
        4
    } else if matches_ci_at(s, i, html_break_slash()) {
        5
    } else if matches_ci_at(s, i, html_break_spaced()) {
        6
    } else {
        0
    }
}

/// The lines of `s` from index `start` on, where `i >= start` is the index the
/// scan has reached: each marker ends a line and is dropped.
pub open spec fn lines_from(s: Seq<char>, start: int, i: int) -> Seq<Seq<char>>
    decreases s.len() - i,
{
    if i >= s.len() || i < 0 {
        seq![s.subrange(start, s.len() as int)]
    } else if break_len_at(s, i) > 0 {
        seq![s.subrange(start, i)] + lines_from(
            s,
            i + break_len_at(s, i),
            i + break_len_at(s, i),
        )
    } else {
        lines_from(s, start, i + 1)
    }
}

/// The lines of a text field: `s` cut at every line-break marker. A text
/// without markers is one line; `n` markers give `n + 1` lines, some of which
/// may be empty.
pub open spec fn split_lines(s: Seq<char>) -> Seq<Seq<char>> {
    lines_from(s, 0, 0)
}

/// The length of the line-break marker at index `i`, 0 when there is none.
fn break_at(s: &Vec<char>, i: usize) -> (n: usize)
    requires
        i < s.len(),
    ensures
        n == break_len_at(s@, i as int),
        i + n <= s.len(),
{
    let c = s[i];
    if c == '\n' || c == '|' {
        return 1;
    }
    let bracket = vec!['[', 'b', 'r', ']'];
    assert(bracket@ == bracket_break());
    if starts_with_ci_at(s, i, &bracket) {
        return 4;
    }
    let angle = vec!['<', 'b', 'r', '>'];
    assert(angle@ == html_break());
    if starts_with_ci_at(s, i, &angle) {
        return 4;
    }
    let closed = vec!['<', 'b', 'r', '/', '>'];
    assert(closed@ == html_break_slash());
    if starts_with_ci_at(s, i, &closed) {
        return 5;
    }
    let spaced = vec!['<', 'b', 'r', ' ', '/', '>'];
    assert(spaced@ == html_break_spaced());
    if starts_with_ci_at(s, i, &spaced) {
        return 6;
    }
    0
}

/// Cuts a text field into its lines (see [`split_lines`]).
pub fn split_line_chars(s: &Vec<char>) -> (lines: Vec<Vec<char>>)
    ensures
        chars_view(lines@) == split_lines(s@),
{
    let mut lines: Vec<Vec<char>> = Vec::new();
    let mut start: usize = 0;
    let mut i: usize = 0;
    while i < s.len()
        invariant
            start <= i <= s.len(),
            chars_view(lines@) + lines_from(s@, start as int, i as int) == split_lines(s@),
        decreases s.len() - i,
    {
        let n = break_at(s, i);
        if n > 0 {
            let line = slice_chars(s, start, i);
            let ghost before = chars_view(lines@);
            lines.push(line);
            assert(chars_view(lines@) =~= before.push(s@.subrange(start as int, i as int)));
            assert(before.push(s@.subrange(start as int, i as int)) + lines_from(
                s@,
                i + n,
                i + n,
            ) =~= before + (seq![s@.subrange(start as int, i as int)] + lines_from(
                s@,
                i + n,
                i + n,
            )));
            i += n;
            start = i;
        } else {
            i += 1;
        }
    }
    let line = slice_chars(s, start, s.len());
    let ghost before = chars_view(lines@);
    lines.push(line);
    assert(chars_view(lines@) =~= before.push(s@.subrange(start as int, s.len() as int)));
    assert(before.push(s@.subrange(start as int, s.len() as int)) =~= before + seq![
        s@.subrange(start as int, s.len() as int),
    ]);
    lines
}

/// Turns each character vector into a string.
pub fn strings_of(parts: &Vec<Vec<char>>) -> (lines: Vec<String>)
    ensures
        strings_view(lines@) == chars_view(parts@),
{
    let mut lines: Vec<String> = Vec::new();
    let mut k: usize = 0;
    while k < parts.len()
        invariant
            k <= parts.len(),
            strings_view(lines@) == chars_view(parts@).take(k as int),
        decreases parts.len() - k,
    {
        let line = string_of(&parts[k]);
        let ghost before = strings_view(lines@);
        lines.push(line);
        assert(strings_view(lines@) =~= before.push(parts@[k as int]@));
        assert(chars_view(parts@).take(k + 1) =~= chars_view(parts@).take(k as int).push(
            parts@[k as int]@,
        ));
        k += 1;
    }
    assert(chars_view(parts@).take(parts.len() as int) =~= chars_view(parts@));
    lines
}

/// Cuts a text field into its lines. A newline, `|`, `[br]`, `<br>`, `<br/>`
/// and `<br />` (tags in any letter case) each end a line and are dropped;
/// the styles may be mixed within one field.
pub fn parse_multiline_text(text: &str) -> (lines: Vec<String>)
    ensures
        strings_view(lines@) == split_lines(text@),
{
    let chars = chars_of(text);
    let parts = split_line_chars(&chars);
    strings_of(&parts)
}

/// What one character becomes inside a PDF string literal: a backslash and
/// the two parentheses get a backslash in front, a carriage return and a
/// newline are written `\r` and `\n`, and every other character stays.
pub open spec fn escape_char(c: char) -> Seq<char> {
    if c == '\\' {
        seq!['\\', '\\']
    } else if c == '(' {
        seq!['\\', '(']
    } else if c == ')' {
        seq!['\\', ')']
    } else if c == '\r' {
        seq!['\\', 'r']
    } else if c == '\n' {
        seq!['\\', 'n']
    } else {
        seq![c]
    }
}

/// `s` with each character escaped by [`escape_char`].
pub open spec fn escape_pdf(s: Seq<char>) -> Seq<char>
    decreases s.len(),
{
    if s.len() == 0 {
        Seq::empty()
    } else {
        escape_pdf(s.drop_last()) + escape_char(s.last())
    }
}

/// Escapes `s` for use between the parentheses of a PDF string literal.
pub fn escape_chars(s: &Vec<char>) -> (r: Vec<char>)
    ensures
        r@ == escape_pdf(s@),
{
    let mut out: Vec<char> = Vec::new();
    let mut i: usize = 0;
    while i < s.len()
        invariant
            i <= s.len(),
            out@ == escape_pdf(s@.take(i as int)),
        decreases s.len() - i,
    {
        let c = s[i];
        assert(s@.take(i + 1).drop_last() == s@.take(i as int));
        if c == '\\' {
            out.push('\\');
            out.push('\\');
        } else if c == '(' {
            out.push('\\');
            out.push('(');
        } else if c == ')' {
            out.push('\\');
            out.push(')');
        } else if c == '\r' {
            out.push('\\');
            out.push('r');
        } else if c == '\n' {
            out.push('\\');
            out.push('n');
        } else {
            out.push(c);
        }
        assert(out@ == escape_pdf(s@.take(i as int)) + escape_char(c));
        i += 1;
    }
    assert(s@.take(s.len() as int) == s@);
    out
}

/// Escapes `s` for use between the parentheses of a PDF string literal: a
/// backslash goes in front of `\`, `(` and `)`, and a carriage return and a
/// newline are written `\r` and `\n`.
pub fn escape_pdf_string(s: &str) -> (r: String)
    ensures
        r@ == escape_pdf(s@),
{
    let chars = chars_of(s);
    let out = escape_chars(&chars);
    string_of(&out)
}

/// How a span of text is drawn.
#[derive(Clone, Copy, Debug, Default, PartialEq, Eq, Structural)]
pub struct FontStyle {
    pub italic: bool,
    pub bold: bool,
}

/// A run of text with one style.
#[derive(Clone, Debug)]
pub struct TextSegment {
    pub text: String,
    pub style: FontStyle,
}

/// What a [`TextSegment`] holds: its characters and its style.
pub struct Span {
    pub text: Seq<char>,
    pub style: FontStyle,
}

impl View for TextSegment {
    type V = Span;

    open spec fn view(&self) -> Span {
        Span { text: self.text@, style: self.style }
    }
}

/// What a vector of segments holds.
pub open spec fn segments_view(v: Seq<TextSegment>) -> Seq<Span> {
    v.map_values(|t: TextSegment| t@)
}

/// The style word `italic`.
pub open spec fn word_italic() -> Seq<char> {
    seq!['i', 't', 'a', 'l', 'i', 'c']
}

/// The style word `bold`.
pub open spec fn word_bold() -> Seq<char> {
    seq!['b', 'o', 'l', 'd']
}

/// The style that the words of an opening tag ask for: italic where `italic`
/// occurs in them, bold where `bold` does, in any letter case.
pub open spec fn style_of(tag: Seq<char>) -> FontStyle {
    FontStyle { italic: contains_ci(tag, word_italic()), bold: contains_ci(tag, word_bold()) }
}

/// Whether `pat`, given in lower case, occurs in `s` in any letter case.
pub fn contains_chars_ci(s: &Vec<char>, pat: &Vec<char>) -> (r: bool)
    ensures
        r == contains_ci(s@, pat@),
{
    let mut i: usize = 0;
    while i < s.len()
        invariant
            i <= s.len(),
            forall|j: int| 0 <= j < i ==> !matches_ci_at(s@, j, pat@),
        decreases s.len() - i,
    {
        if starts_with_ci_at(s, i, pat) {
            return true;
        }
        i += 1;
    }
    // The one index left is the end of `s`, where only an empty pattern fits.
    starts_with_ci_at(s, s.len(), pat)
}

/// Reads the style words of an opening tag (see [`style_of`]).
pub fn style_of_chars(tag: &Vec<char>) -> (r: FontStyle)
    ensures
        r == style_of(tag@),
{
    let italic = vec!['i', 't', 'a', 'l', 'i', 'c'];
    let bold = vec!['b', 'o', 'l', 'd'];
    assert(italic@ == word_italic());
    assert(bold@ == word_bold());
    FontStyle { italic: contains_chars_ci(tag, &italic), bold: contains_chars_ci(tag, &bold) }
}

/// Reads the style words of an opening tag: the result is italic where
/// `italic` occurs in `tag_content` and bold where `bold` does, in any letter
/// case.
pub fn parse_font_style(tag_content: &str) -> (r: FontStyle)
    ensures
        r == style_of(tag_content@),
{
    let chars = chars_of(tag_content);
    style_of_chars(&chars)
}

/// The start of an opening tag, `[font ` with its space.
pub open spec fn tag_open() -> Seq<char> {
    seq!['[', 'f', 'o', 'n', 't', ' ']
}

/// The closing tag `[/font]`.
pub open spec fn tag_close() -> Seq<char> {
    seq!['[', '/', 'f', 'o', 'n', 't', ']']
}

/// The bracket that ends an opening tag.
pub open spec fn tag_end() -> Seq<char> {
    seq![']']
}

/// A span in the base style.
pub open spec fn plain(text: Seq<char>) -> Span {
    Span { text, style: FontStyle { italic: false, bold: false } }
}

/// The styled spans of `s` from index `from` on.
///
/// Text before an opening tag `[font words]` is a plain span. The text between
/// the tag and the next `[/font]` is a span in the style of the tag's words;
/// without a closing tag the span runs to the end of the text. An opening tag
/// that `]` never ends is plain text itself: it makes one plain span with
/// all that follows it.
pub open spec fn spans_from(s: Seq<char>, from: int) -> Seq<Span>
    decreases s.len() - from,
{
    if from >= s.len() || from < 0 {
        Seq::empty()
    } else {
        let open = find_from(s, tag_open(), from);
        if open >= s.len() {
            seq![plain(s.subrange(from, s.len() as int))]
        } else {
            let before = if open > from {
                seq![plain(s.subrange(from, open))]
            } else {
                Seq::empty()
            };
            let end = find_from(s, tag_end(), open);
            if end >= s.len() {
                before.push(plain(s.subrange(open, s.len() as int)))
            } else {
                let style = style_of(s.subrange(open + 6, end));
                let close = find_from(s, tag_close(), end + 1);
                if close >= s.len() {
                    before.push(Span { text: s.subrange(end + 1, s.len() as int), style })
                } else if from < close + 7 <= s.len() {
                    before.push(Span { text: s.subrange(end + 1, close), style }) + spans_from(
                        s,
                        close + 7,
                    )
                } else {
                    // A closing tag found in `s` ends within `s`.
                    Seq::empty()
                }
            }
        }
    }
}

/// The styled spans of a line of text (see [`spans_from`]).
pub open spec fn spans_of(s: Seq<char>) -> Seq<Span> {
    spans_from(s, 0)
}

/// Cuts a line into its styled spans: text outside `[font words]...[/font]`
/// is plain, text inside has the style of the words (see [`spans_from`]).
pub fn parse_font_tags(text: &str) -> (segments: Vec<TextSegment>)
    ensures
        segments_view(segments@) == spans_of(text@),
{
    let s = chars_of(text);
    parse_font_spans(&s)
}

/// Cuts a line, given as characters, into its styled spans (see
/// [`spans_from`]).
pub fn parse_font_spans(s: &Vec<char>) -> (segments: Vec<TextSegment>)
    ensures
        segments_view(segments@) == spans_of(s@),
{
    let open_pat = vec!['[', 'f', 'o', 'n', 't', ' '];
    let close_pat = vec!['[', '/', 'f', 'o', 'n', 't', ']'];
    let end_pat = vec![']'];
    assert(open_pat@ == tag_open());
    assert(close_pat@ == tag_close());
    assert(end_pat@ == tag_end());
    let base = FontStyle { italic: false, bold: false };
    let mut segments: Vec<TextSegment> = Vec::new();
    let mut from: usize = 0;
    while from < s.len()
        invariant
            from <= s.len(),
            open_pat@ == tag_open(),
            close_pat@ == tag_close(),
            end_pat@ == tag_end(),
            base == (FontStyle { italic: false, bold: false }),
            segments_view(segments@) + spans_from(s@, from as int) == spans_of(s@),
        decreases s.len() - from,
    {
        let ghost done = segments_view(segments@);
        let ghost rest = spans_from(s@, from as int);
        proof {
            lemma_find_from(s@, tag_open(), from as int);
        }
        match find_chars(s, &open_pat, from) {
            None => {
                let text = string_of(&slice_chars(s, from, s.len()));
                segments.push(TextSegment { text, style: base });
                assert(segments_view(segments@) =~= done + rest);
                from = s.len();
            },
            Some(open) => {
                if open > from {
                    let text = string_of(&slice_chars(s, from, open));
                    segments.push(TextSegment { text, style: base });
                }
                let ghost before = segments_view(segments@);
                assert(before =~= done + (if open > from {
                    seq![plain(s@.subrange(from as int, open as int))]
                } else {
                    Seq::empty()
                }));
                proof {
                    lemma_find_from(s@, tag_end(), open as int);
                }
                match find_chars(s, &end_pat, open) {
                    None => {
                        let text = string_of(&slice_chars(s, open, s.len()));
                        segments.push(TextSegment { text, style: base });
                        assert(segments_view(segments@) =~= done + rest);
                        from = s.len();
                    },
                    Some(end) => {
                        // The six characters of `[font ` hold no `]`.
                        assert(end >= open + 6) by {
                            assert(matches_at(s@, open as int, tag_open()));
                            assert(matches_at(s@, end as int, tag_end()));
                            assert(s@[end + 0] == tag_end()[0]);
                            if end < open + 6 {
                                assert(s@[open + (end - open)] == tag_open()[end - open]);
                            }
                        }
                        let style = style_of_chars(&slice_chars(s, open + 6, end));
                        proof {
                            lemma_find_from(s@, tag_close(), end + 1);
                        }
                        match find_chars(s, &close_pat, end + 1) {
                            None => {
                                let text = string_of(&slice_chars(s, end + 1, s.len()));
                                segments.push(TextSegment { text, style });
                                assert(segments_view(segments@) =~= done + rest);
                                from = s.len();
                            },
                            Some(close) => {
                                let text = string_of(&slice_chars(s, end + 1, close));
                                segments.push(TextSegment { text, style });
                                assert(matches_at(s@, close as int, tag_close()));
                                assert(segments_view(segments@) + spans_from(s@, close + 7)
                                    =~= done + rest);
                                from = close + 7;
                            },
                        }
                    },
                }
            },
        }
    }
    assert(segments_view(segments@) + Seq::<Span>::empty() =~= segments_view(segments@));
    segments
}

/// The placeholder `[page]`, in lower case.
pub open spec fn placeholder_page() -> Seq<char> {
    seq!['[', 'p', 'a', 'g', 'e', ']']
}

/// The placeholder `[pages]`, in lower case.
pub open spec fn placeholder_pages() -> Seq<char> {
    seq!['[', 'p', 'a', 'g', 'e', 's', ']']
}

/// The placeholder `[date]`, in lower case.
pub open spec fn placeholder_date() -> Seq<char> {
    seq!['[', 'd', 'a', 't', 'e', ']']
}

/// `text` with `[page]` replaced by the page number, then `[pages]` by the
/// page count, then `[date]` by `date`, each keyword in any letter case.
pub open spec fn expand(text: Seq<char>, page: nat, total: nat, date: Seq<char>) -> Seq<char> {
    replace_ci(
        replace_ci(
            replace_ci(text, placeholder_page(), decimal(page)),
            placeholder_pages(),
            decimal(total),
        ),
        placeholder_date(),
        date,
    )
}

/// The text that stands for the date: the formatted date, or nothing when no
/// date was given.
pub open spec fn date_or_empty(date: Option<&str>) -> Seq<char> {
    match date {
        Some(d) => d@,
        None => Seq::empty(),
    }
}

/// Fills in the placeholders of `text`: `[page]` becomes `page_num`,
/// `[pages]` becomes `total_pages` and `[date]` becomes the formatted date, or
/// nothing when there is none. The keywords match in any letter case.
pub fn expand_placeholders(text: &str, page_num: usize, total_pages: usize, date: Option<&str>) -> (r:
    String)
    ensures
        r@ == expand(text@, page_num as nat, total_pages as nat, date_or_empty(date)),
{
    let chars = chars_of(text);
    let page_pat = vec!['[', 'p', 'a', 'g', 'e', ']'];
    let pages_pat = vec!['[', 'p', 'a', 'g', 'e', 's', ']'];
    let date_pat = vec!['[', 'd', 'a', 't', 'e', ']'];
    assert(page_pat@ == placeholder_page());
    assert(pages_pat@ == placeholder_pages());
    assert(date_pat@ == placeholder_date());
    let step1 = replace_all_ci(&chars, &page_pat, &decimal_chars(page_num as u128));
    let step2 = replace_all_ci(&step1, &pages_pat, &decimal_chars(total_pages as u128));
    let date_chars = match date {
        Some(d) => chars_of(d),
        None => Vec::new(),
    };
    let step3 = replace_all_ci(&step2, &date_pat, &date_chars);
    string_of(&step3)
}

/// A text that holds no placeholder is left as it is: expanding the result of
/// an expansion once more changes nothing, as long as that result holds none.
pub proof fn lemma_expand_clean(text: Seq<char>, page: nat, total: nat, date: Seq<char>)
    requires
        !contains_ci(text, placeholder_page()),
        !contains_ci(text, placeholder_pages()),
        !contains_ci(text, placeholder_date()),
    ensures
        expand(text, page, total, date) == text,
{
    lemma_replace_ci_absent(text, placeholder_page(), decimal(page), 0);
    lemma_replace_ci_absent(text, placeholder_pages(), decimal(total), 0);
    lemma_replace_ci_absent(text, placeholder_date(), date, 0);
    assert(text.skip(0) == text);
}

} // verus!
