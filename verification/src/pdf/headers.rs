//! Headers and footers: their options, the drawing instructions composed
//! for one page, and the stamping of those instructions onto the pages of a
//! document.
//!
//! Lengths are whole numbers of thousandths of a point. A page is 612 by 792
//! points, with the origin at its lower left corner.

use crate::date::{date_text, format_date, Date};
use crate::pdf::markup::{
    escape_chars, escape_pdf, expand, expand_placeholders, parse_font_spans, plain, segments_view,
    spans_from, spans_of, split_line_chars, split_lines, style_of, tag_close, tag_end, tag_open,
    FontStyle, Span,
};
use crate::text::{
    append_chars, append_str, chars_of, chars_view, decimal, decimal_chars, digit, digit_char,
    find_from, lemma_find_from, matches_at, milli_chars, milli_text, string_of,
};
use vstd::prelude::*;

verus! {

/// The width of a page, 612 points.
pub const PAGE_WIDTH: i128 = 612000;

/// The height of a page, 792 points.
pub const PAGE_HEIGHT: i128 = 792000;

/// The distance of the left and right footer zones from the page edges, and
/// of the title's baseline from the top edge: 50 points.
pub const MARGIN: i128 = 50000;

/// The height of the lowest footer line above the bottom edge: 30 points.
pub const FOOTER_BASE: i128 = 30000;

/// The greatest distance from the origin at which a line may start.
pub const REACH: i128 = 0x1_0000_0000_0000_0000_0000_0000_0;

/// The estimated width of `chars` characters at font size `size`: 0.48 of
/// the font size for each character, rounded down to a thousandth of a point.
pub open spec fn text_width(chars: int, size: int) -> int {
    chars * size * 48 / 100
}

/// The horizontal start of a text of width `width` that is centred on the
/// page, rounded towards the centre.
pub open spec fn centered_x(width: int) -> int {
    if width <= PAGE_WIDTH {
        (PAGE_WIDTH - width) / 2
    } else {
        -((width - PAGE_WIDTH) / 2)
    }
}

/// The horizontal start of a text of width `width` that ends at the right
/// margin.
pub open spec fn right_x(width: int) -> int {
    PAGE_WIDTH - MARGIN - width
}

/// The distance between the baselines of a zone: 1.2 times the font size.
pub open spec fn line_height(size: int) -> int {
    size * 12 / 10
}

/// The width of the stroke that thickens bold text: 0.03 of the font size.
pub open spec fn stroke_width(size: int) -> int {
    size * 3 / 100
}

/// The instructions that draw one span at (`x`, `y`): one text object that
/// selects the font, places the text (sheared by 0.21 for italic), sets the
/// render mode (fill, or fill and stroke for bold) and shows the escaped
/// text. A span without text draws nothing.
pub open spec fn span_ops(span: Span, x: int, y: int, size: int) -> Seq<char> {
    if span.text.len() == 0 {
        Seq::empty()
    } else {
        "BT\n"@ + "/F1 "@ + milli_text(size) + " Tf\n"@ + (if span.style.italic {
            "1 0 0.21 1 "@
        } else {
            "1 0 0 1 "@
        }) + milli_text(x) + " "@ + milli_text(y) + " Tm\n"@ + (if span.style.bold {
            "2 Tr\n"@ + milli_text(stroke_width(size)) + " w\n"@
        } else {
            "0 Tr\n"@
        }) + "("@ + escape_pdf(span.text) + ") Tj\n"@ + "ET\n"@
    }
}

/// The estimated width of the first `upto` spans together; markup does not
/// count.
pub open spec fn spans_width(spans: Seq<Span>, size: int, upto: int) -> int
    decreases upto,
{
    if upto <= 0 {
        0
    } else {
        spans_width(spans, size, upto - 1) + text_width(spans[upto - 1].text.len() as int, size)
    }
}

/// The instructions that draw the first `upto` spans of a line that starts
/// at (`x`, `y`), each span after the estimated width of those before it.
pub open spec fn line_ops(spans: Seq<Span>, x: int, y: int, size: int, upto: int) -> Seq<char>
    decreases upto,
{
    if upto <= 0 {
        Seq::empty()
    } else {
        line_ops(spans, x, y, size, upto - 1) + span_ops(
            spans[upto - 1],
            x + spans_width(spans, size, upto - 1),
            y,
            size,
        )
    }
}

/// The instructions that draw a line of text with its inline styles, from
/// (`x`, `y`) on.
pub open spec fn styled_line(line: Seq<char>, x: int, y: int, size: int) -> Seq<char> {
    line_ops(spans_of(line), x, y, size, spans_of(line).len() as int)
}

/// The number of characters in the first `upto` spans together.
pub open spec fn spans_chars(spans: Seq<Span>, upto: int) -> int
    decreases upto,
{
    if upto <= 0 {
        0
    } else {
        spans_chars(spans, upto - 1) + spans[upto - 1].text.len()
    }
}

/// The characters of two lists of spans add up.
proof fn lemma_spans_chars_concat(a: Seq<Span>, b: Seq<Span>, upto: int)
    requires
        0 <= upto <= b.len(),
    ensures
        spans_chars(a + b, a.len() + upto) == spans_chars(a, a.len() as int) + spans_chars(b, upto),
    decreases upto,
{
    if upto > 0 {
        lemma_spans_chars_concat(a, b, upto - 1);
        assert((a + b)[a.len() + upto - 1] == b[upto - 1]);
    } else {
        lemma_spans_chars_prefix(a, a + b, a.len() as int);
    }
}

/// Lists of spans that agree on their first `upto` spans have the same
/// number of characters there.
proof fn lemma_spans_chars_prefix(a: Seq<Span>, b: Seq<Span>, upto: int)
    requires
        0 <= upto <= a.len(),
        upto <= b.len(),
        forall|i: int| 0 <= i < upto ==> a[i] == b[i],
    ensures
        spans_chars(a, upto) == spans_chars(b, upto),
    decreases upto,
{
    if upto > 0 {
        lemma_spans_chars_prefix(a, b, upto - 1);
    }
}

/// The spans of a text hold at most twice the characters of the text.
proof fn lemma_spans_chars_bound(s: Seq<char>, from: int)
    requires
        0 <= from <= s.len(),
    ensures
        spans_chars(spans_from(s, from), spans_from(s, from).len() as int) <= 2 * (s.len() - from),
    decreases s.len() - from,
{
    if from < s.len() {
        lemma_find_from(s, tag_open(), from);
        let open = find_from(s, tag_open(), from);
        let first = plain(s.subrange(from, open));
        let before = if open > from {
            seq![first]
        } else {
            Seq::<Span>::empty()
        };
        assert(spans_chars(before, before.len() as int) == open - from) by {
            if open > from {
                assert(spans_chars(before, 0) == 0);
                assert(before[0].text.len() == open - from);
            }
        }
        if open >= s.len() {
            let all = seq![plain(s.subrange(from, s.len() as int))];
            assert(spans_chars(all, 0) == 0);
        } else {
            lemma_find_from(s, tag_end(), open);
            let end = find_from(s, tag_end(), open);
            if end >= s.len() {
                let last = seq![plain(s.subrange(open, s.len() as int))];
                assert(spans_chars(last, 0) == 0);
                assert(before.push(last[0]) =~= before + last);
                lemma_spans_chars_concat(before, last, 1);
            } else {
                lemma_find_from(s, tag_close(), end + 1);
                let style = style_of(s.subrange(open + 6, end));
                let close = find_from(s, tag_close(), end + 1);
                if close >= s.len() {
                    let last = seq![Span { text: s.subrange(end + 1, s.len() as int), style }];
                    assert(spans_chars(last, 0) == 0);
                    assert(before.push(last[0]) =~= before + last);
                    lemma_spans_chars_concat(before, last, 1);
                } else {
                    assert(matches_at(s, close, tag_close()));
                    let mid = seq![Span { text: s.subrange(end + 1, close), style }];
                    let rest = spans_from(s, close + 7);
                    lemma_spans_chars_bound(s, close + 7);
                    assert(spans_chars(mid, 0) == 0);
                    assert(before.push(mid[0]) =~= before + mid);
                    lemma_spans_chars_concat(before, mid, 1);
                    lemma_spans_chars_concat(before + mid, rest, rest.len() as int);
                }
            }
        }
    }
}

/// The width of spans is at most their number of characters times the font
/// size.
proof fn lemma_spans_width_bound(spans: Seq<Span>, size: int, upto: int)
    requires
        0 <= upto <= spans.len(),
        0 <= size,
    ensures
        0 <= spans_width(spans, size, upto) <= spans_chars(spans, upto) * size,
        0 <= spans_chars(spans, upto),
    decreases upto,
{
    if upto > 0 {
        lemma_spans_width_bound(spans, size, upto - 1);
        let n = spans[upto - 1].text.len() as int;
        assert(0 <= n * size * 48 / 100 <= n * size) by (nonlinear_arith)
            requires
                0 <= n,
                0 <= size,
        ;
        assert((spans_chars(spans, upto - 1) + n) * size == spans_chars(spans, upto - 1) * size
            + n * size) by (nonlinear_arith);
    }
}

/// The estimated width of `chars` characters at font size `size` (see
/// [`text_width`]).
pub fn width_of(chars: usize, size: u32) -> (r: i128)
    ensures
        r == text_width(chars as int, size as int),
        0 <= r <= chars * size,
{
    assert(0 <= chars * size * 48 <= 0xffff_ffff_ffff_ffff * 0xffff_ffff * 48 && chars * size * 48
        / 100 <= chars * size) by (nonlinear_arith)
        requires
            0 <= chars <= 0xffff_ffff_ffff_ffff,
            0 <= size <= 0xffff_ffff,
    ;
    (chars as i128) * (size as i128) * 48 / 100
}

/// Estimates the width of a text at font size `font_size`: 0.48 of the font
/// size for each character.
pub fn estimate_text_width(text: &str, font_size: u32) -> (r: i128)
    ensures
        r == text_width(text@.len() as int, font_size as int),
{
    let chars = chars_of(text);
    width_of(chars.len(), font_size)
}

/// Draws one span at (`x`, `y`) (see [`span_ops`]).
fn span_chars(text: &Vec<char>, style: FontStyle, x: i128, y: i128, size: u32) -> (r: Vec<char>)
    requires
        x > i128::MIN,
        y > i128::MIN,
    ensures
        r@ == span_ops(Span { text: text@, style }, x as int, y as int, size as int),
{
    let mut out: Vec<char> = Vec::new();
    if text.len() == 0 {
        return out;
    }
    append_str(&mut out, "BT\n");
    append_str(&mut out, "/F1 ");
    append_chars(&mut out, &milli_chars(size as i128));
    append_str(&mut out, " Tf\n");
    if style.italic {
        append_str(&mut out, "1 0 0.21 1 ");
    } else {
        append_str(&mut out, "1 0 0 1 ");
    }
    append_chars(&mut out, &milli_chars(x));
    append_str(&mut out, " ");
    append_chars(&mut out, &milli_chars(y));
    append_str(&mut out, " Tm\n");
    if style.bold {
        append_str(&mut out, "2 Tr\n");
        append_chars(&mut out, &milli_chars((size as i128) * 3 / 100));
        append_str(&mut out, " w\n");
    } else {
        append_str(&mut out, "0 Tr\n");
    }
    append_str(&mut out, "(");
    append_chars(&mut out, &escape_chars(text));
    append_str(&mut out, ") Tj\n");
    append_str(&mut out, "ET\n");
    assert(out@ =~= span_ops(Span { text: text@, style }, x as int, y as int, size as int));
    out
}

/// The estimated width of a line without its markup.
pub fn styled_width(line: &Vec<char>, size: u32) -> (r: i128)
    ensures
        r == spans_width(spans_of(line@), size as int, spans_of(line@).len() as int),
        0 <= r <= 2 * line@.len() * size,
{
    let segments = parse_font_spans(line);
    let ghost spans = spans_of(line@);
    proof {
        lemma_spans_chars_bound(line@, 0);
    }
    let mut width: i128 = 0;
    let mut k: usize = 0;
    let length = line.len();
    while k < segments.len()
        invariant
            k <= segments.len(),
            line@.len() == length,
            spans == segments_view(segments@),
            spans_chars(spans, spans.len() as int) <= 2 * line@.len(),
            width == spans_width(spans, size as int, k as int),
        decreases segments.len() - k,
    {
        let text = chars_of(segments[k].text.as_str());
        proof {
            lemma_spans_width_bound(spans, size as int, k as int);
            lemma_spans_width_bound(spans, size as int, k + 1);
            lemma_spans_width_bound(spans, size as int, spans.len() as int);
            lemma_spans_chars_grow(spans, k + 1, spans.len() as int);
            assert(spans_chars(spans, k + 1) * size <= 2 * line@.len() * size
                <= 2 * 0xffff_ffff_ffff_ffff * 0xffff_ffff) by (nonlinear_arith)
                requires
                    0 <= spans_chars(spans, k + 1) <= 2 * line@.len(),
                    line@.len() <= 0xffff_ffff_ffff_ffff,
                    0 <= size <= 0xffff_ffff,
            ;
        }
        width = width + width_of(text.len(), size);
        k += 1;
    }
    proof {
        lemma_spans_width_bound(spans, size as int, spans.len() as int);
        assert(spans_chars(spans, spans.len() as int) * size <= 2 * line@.len() * size)
            by (nonlinear_arith)
            requires
                0 <= spans_chars(spans, spans.len() as int) <= 2 * line@.len(),
                0 <= size,
        ;
    }
    width
}

/// The number of characters in spans grows with the number of spans counted.
proof fn lemma_spans_chars_grow(spans: Seq<Span>, a: int, b: int)
    requires
        0 <= a <= b <= spans.len(),
    ensures
        0 <= spans_chars(spans, a) <= spans_chars(spans, b),
    decreases b,
{
    if a < b {
        lemma_spans_chars_grow(spans, a, b - 1);
    } else if a > 0 {
        lemma_spans_chars_grow(spans, a - 1, a - 1);
    }
}

/// Estimates the width of a line at font size `font_size`, leaving out the
/// markup of inline styles.
pub fn estimate_text_width_with_tags(text: &str, font_size: u32) -> (r: i128)
    ensures
        r == spans_width(spans_of(text@), font_size as int, spans_of(text@).len() as int),
{
    let chars = chars_of(text);
    styled_width(&chars, font_size)
}

/// Draws a line with its inline styles from (`x`, `y`) on (see
/// [`styled_line`]).
pub(crate) fn styled_line_chars(line: &Vec<char>, x: i128, y: i128, size: u32) -> (r: Vec<char>)
    requires
        -REACH <= x <= REACH,
        y > i128::MIN,
    ensures
        r@ == styled_line(line@, x as int, y as int, size as int),
{
    let segments = parse_font_spans(line);
    let ghost spans = spans_of(line@);
    proof {
        lemma_spans_chars_bound(line@, 0);
    }
    let mut out: Vec<char> = Vec::new();
    let mut width: i128 = 0;
    let mut k: usize = 0;
    let length = line.len();
    while k < segments.len()
        invariant
            k <= segments.len(),
            line@.len() == length,
            -REACH <= x <= REACH,
            y > i128::MIN,
            spans == segments_view(segments@),
            spans_chars(spans, spans.len() as int) <= 2 * line@.len(),
            width == spans_width(spans, size as int, k as int),
            out@ == line_ops(spans, x as int, y as int, size as int, k as int),
        decreases segments.len() - k,
    {
        let text = chars_of(segments[k].text.as_str());
        proof {
            lemma_spans_width_bound(spans, size as int, k as int);
            lemma_spans_width_bound(spans, size as int, k + 1);
            lemma_spans_chars_grow(spans, k as int, spans.len() as int);
            lemma_spans_chars_grow(spans, k + 1, spans.len() as int);
            assert(spans_chars(spans, k as int) * size <= 2 * 0xffff_ffff_ffff_ffff * 0xffff_ffff
                && spans_chars(spans, k + 1) * size <= 2 * 0xffff_ffff_ffff_ffff * 0xffff_ffff)
                by (nonlinear_arith)
                requires
                    0 <= spans_chars(spans, k as int) <= 2 * line@.len(),
                    0 <= spans_chars(spans, k + 1) <= 2 * line@.len(),
                    line@.len() <= 0xffff_ffff_ffff_ffff,
                    0 <= size <= 0xffff_ffff,
            ;
        }
        let piece = span_chars(&text, segments[k].style, x + width, y, size);
        assert(spans[k as int] == (Span { text: text@, style: segments@[k as int].style }));
        append_chars(&mut out, &piece);
        width = width + width_of(text.len(), size);
        k += 1;
    }
    out
}

/// Composes the instructions that draw a line of text with its inline
/// styles: one text object for each span that has text, the first at
/// (`x`, `y`) and each after the estimated width of those before it.
pub fn generate_line_with_font_tags(line: &str, x: i128, y: i128, font_size: u32) -> (r: String)
    requires
        -REACH <= x <= REACH,
        y > i128::MIN,
    ensures
        r@ == styled_line(line@, x as int, y as int, font_size as int),
{
    let chars = chars_of(line);
    string_of(&styled_line_chars(&chars, x, y, font_size))
}

/// A font as the command line describes it; what is `None` is left to the
/// defaults.
#[derive(Debug, Clone)]
pub struct FontSpec {
    /// Whether the text is bold.
    pub bold: bool,
    /// Whether the text is italic.
    pub italic: bool,
    /// The font size, in thousandths of a point.
    pub size: Option<u32>,
    /// The name of the font family.
    pub family: Option<String>,
    /// The colour of the text: red, green and blue, each from 0 to 255.
    pub color: Option<(u8, u8, u8)>,
}

impl Default for FontSpec {
    fn default() -> (r: FontSpec)
        ensures
            !r.bold,
            !r.italic,
            r.size is None,
            r.family is None,
            r.color is None,
    {
        FontSpec { bold: false, italic: false, size: None, family: None, color: None }
    }
}

/// Bands at the top and the bottom of a page that are filled with a colour,
/// to hide a header or footer that the page already has. Heights are in
/// thousandths of an inch.
#[derive(Clone, Copy, Debug)]
pub struct MaskOptions {
    /// The height of the band at the top of the first page.
    pub header_height: Option<u32>,
    /// The height of the band at the bottom of the first page.
    pub footer_height: Option<u32>,
    /// The height of the band at the top of every page.
    pub header_all_height: Option<u32>,
    /// The height of the band at the bottom of every page.
    pub footer_all_height: Option<u32>,
    /// The colour of the bands: red, green and blue, each from 0 to 255.
    pub color: (u8, u8, u8),
}

impl MaskOptions {
    /// No bands; the colour is white.
    pub open spec fn none() -> MaskOptions {
        MaskOptions {
            header_height: None,
            footer_height: None,
            header_all_height: None,
            footer_all_height: None,
            color: (255u8, 255u8, 255u8),
        }
    }
}

impl Default for MaskOptions {
    fn default() -> (r: MaskOptions)
        ensures
            r == MaskOptions::none(),
    {
        MaskOptions {
            header_height: None,
            footer_height: None,
            header_all_height: None,
            footer_all_height: None,
            color: (255, 255, 255),
        }
    }
}

/// The height of a band on a page: on the first page the height for the
/// first page, if one is given; else the height for all pages.
pub open spec fn band_height(first_only: Option<u32>, all: Option<u32>, first: bool) -> Option<
    u32,
> {
    if first && first_only is Some {
        first_only
    } else {
        all
    }
}

/// The instructions that fill a band of the width of the page, `inches`
/// thousandths of an inch high, from the height `y` on.
pub open spec fn band_ops(y: int, inches: int, color: (u8, u8, u8)) -> Seq<char> {
    color_text(Some(color)) + " rg\n"@ + "0 "@ + milli_text(y) + " 612 "@ + milli_text(inches * 72)
        + " re\n"@ + "f\n"@
}

/// The instructions that fill the bands of a page: the one at the top, if
/// the page has one, then the one at the bottom.
pub open spec fn mask_ops(mask: MaskOptions, first: bool) -> Seq<char> {
    (match band_height(mask.header_height, mask.header_all_height, first) {
        Some(h) => band_ops(PAGE_HEIGHT - h * 72, h as int, mask.color),
        None => Seq::empty(),
    }) + (match band_height(mask.footer_height, mask.footer_all_height, first) {
        Some(h) => band_ops(0, h as int, mask.color),
        None => Seq::empty(),
    })
}

/// What to stamp onto the pages of a document.
#[derive(Debug, Clone)]
pub struct HeaderFooterOptions {
    /// The title, drawn centred at the top of the first page.
    pub title: Option<String>,
    /// The text of the left footer zone.
    pub footer_left: Option<String>,
    /// The text of the centre footer zone.
    pub footer_center: Option<String>,
    /// The text of the right footer zone.
    pub footer_right: Option<String>,
    /// The date that `[date]` stands for. Where it is set, the right zone
    /// also shows it on a line of its own, on every page, whether or not a
    /// text holds `[date]`.
    pub date: Option<Date>,
    /// Whether the right zone shows the page number.
    pub show_page_numbers: bool,
    /// Whether the page number is followed by the page count.
    pub show_total_page_count: bool,
    /// The font size of the title, in thousandths of a point, unless
    /// `header_font` gives one.
    pub title_font_size: u32,
    /// The font size of the footer, in thousandths of a point, unless
    /// `footer_font` gives one.
    pub footer_font_size: u32,
    /// The font of the title.
    pub header_font: Option<FontSpec>,
    /// The font of the footer.
    pub footer_font: Option<FontSpec>,
    /// The bands to blank out before anything is drawn.
    pub mask: MaskOptions,
}

impl Default for HeaderFooterOptions {
    fn default() -> (r: HeaderFooterOptions)
        ensures
            r.title is None,
            r.footer_left is None,
            r.footer_center is None,
            r.footer_right is None,
            r.date is None,
            r.show_page_numbers,
            !r.show_total_page_count,
            r.title_font_size == 24000,
            r.footer_font_size == 14000,
            r.header_font is None,
            r.footer_font is None,
            r.mask == MaskOptions::none(),
    {
        HeaderFooterOptions {
            title: None,
            footer_left: None,
            footer_center: None,
            footer_right: None,
            date: None,
            show_page_numbers: true,
            show_total_page_count: false,
            title_font_size: 24000,
            footer_font_size: 14000,
            header_font: None,
            footer_font: None,
            mask: MaskOptions::default(),
        }
    }
}

/// The size that a font gives, or `fallback` where it gives none.
pub open spec fn size_or(font: Option<FontSpec>, fallback: u32) -> u32 {
    match font {
        Some(f) => match f.size {
            Some(s) => s,
            None => fallback,
        },
        None => fallback,
    }
}

/// The colour that a font gives, if it gives one.
pub open spec fn color_of(font: Option<FontSpec>) -> Option<(u8, u8, u8)> {
    match font {
        Some(f) => f.color,
        None => None,
    }
}

/// One colour component as PDF wants it: the fraction of 255, rounded to
/// three decimals and written with all three.
pub open spec fn component_text(c: u8) -> Seq<char> {
    let t = ((c as int * 1000 + 127) / 255) as nat;
    decimal(t / 1000) + seq!['.', digit_char(t / 100 % 10), digit_char(t / 10 % 10), digit_char(t % 10)]
}

/// The operands of a PDF colour instruction for a colour; black for none.
pub open spec fn color_text(color: Option<(u8, u8, u8)>) -> Seq<char> {
    match color {
        Some(c) => component_text(c.0) + " "@ + component_text(c.1) + " "@ + component_text(c.2),
        None => "0 0 0"@,
    }
}

/// Writes one colour component (see [`component_text`]).
fn component_chars(c: u8) -> (r: Vec<char>)
    ensures
        r@ == component_text(c),
{
    let t: u32 = (c as u32 * 1000 + 127) / 255;
    let mut out = decimal_chars((t / 1000) as u128);
    out.push('.');
    out.push(digit((t / 100 % 10) as u8));
    out.push(digit((t / 10 % 10) as u8));
    out.push(digit((t % 10) as u8));
    assert(out@ =~= component_text(c));
    out
}

/// Writes the operands of a colour instruction (see [`color_text`]).
fn color_chars(color: Option<(u8, u8, u8)>) -> (r: Vec<char>)
    ensures
        r@ == color_text(color),
{
    match color {
        Some(c) => {
            let mut out = component_chars(c.0);
            append_str(&mut out, " ");
            append_chars(&mut out, &component_chars(c.1));
            append_str(&mut out, " ");
            append_chars(&mut out, &component_chars(c.2));
            out
        },
        None => chars_of("0 0 0"),
    }
}

/// The colour of a font, if it has one.
fn font_color(font: &Option<FontSpec>) -> (r: Option<(u8, u8, u8)>)
    ensures
        r == color_of(*font),
{
    match font {
        Some(f) => f.color,
        None => None,
    }
}

impl HeaderFooterOptions {
    /// The font size of the title: that of `header_font` if it gives one,
    /// else `title_font_size`.
    pub fn effective_header_font_size(&self) -> (r: u32)
        ensures
            r == size_or(self.header_font, self.title_font_size),
    {
        match &self.header_font {
            Some(f) => match f.size {
                Some(s) => s,
                None => self.title_font_size,
            },
            None => self.title_font_size,
        }
    }

    /// The font size of the footer: that of `footer_font` if it gives one,
    /// else `footer_font_size`.
    pub fn effective_footer_font_size(&self) -> (r: u32)
        ensures
            r == size_or(self.footer_font, self.footer_font_size),
    {
        match &self.footer_font {
            Some(f) => match f.size {
                Some(s) => s,
                None => self.footer_font_size,
            },
            None => self.footer_font_size,
        }
    }

    /// The colour of the title as the operands of a PDF colour instruction;
    /// `0 0 0`, black, where `header_font` gives none.
    pub fn header_color_pdf(&self) -> (r: String)
        ensures
            r@ == color_text(color_of(self.header_font)),
    {
        string_of(&color_chars(font_color(&self.header_font)))
    }

    /// The colour of the footer as the operands of a PDF colour instruction;
    /// `0 0 0`, black, where `footer_font` gives none.
    pub fn footer_color_pdf(&self) -> (r: String)
        ensures
            r@ == color_text(color_of(self.footer_font)),
    {
        string_of(&color_chars(font_color(&self.footer_font)))
    }
}

/// One of the three footer zones.
#[derive(Clone, Copy, Debug, PartialEq, Eq, Structural)]
pub enum Zone {
    /// Lines start at the left margin.
    Left,
    /// Each line is centred on the page by its own width.
    Center,
    /// Each line ends at the right margin.
    Right,
}

/// The estimated width of a line without its markup.
pub open spec fn line_width(line: Seq<char>, size: int) -> int {
    spans_width(spans_of(line), size, spans_of(line).len() as int)
}

/// Where a line of a zone starts.
pub open spec fn line_x(zone: Zone, line: Seq<char>, size: int) -> int {
    match zone {
        Zone::Left => MARGIN as int,
        Zone::Center => centered_x(line_width(line, size)),
        Zone::Right => right_x(line_width(line, size)),
    }
}

/// The baseline of line `index` of a zone of `count` lines: the last line
/// 30 points above the bottom edge, each line before it one line height
/// higher.
pub open spec fn line_y(count: int, index: int, size: int) -> int {
    FOOTER_BASE + (count - 1 - index) * line_height(size)
}

/// The instructions that draw the first `upto` lines of a zone.
pub open spec fn zone_ops(lines: Seq<Seq<char>>, zone: Zone, size: int, upto: int) -> Seq<char>
    decreases upto,
{
    if upto <= 0 {
        Seq::empty()
    } else {
        zone_ops(lines, zone, size, upto - 1) + styled_line(
            lines[upto - 1],
            line_x(zone, lines[upto - 1], size),
            line_y(lines.len() as int, upto - 1, size),
            size,
        )
    }
}

/// The instructions that draw a zone.
pub open spec fn zone_text(lines: Seq<Seq<char>>, zone: Zone, size: int) -> Seq<char> {
    zone_ops(lines, zone, size, lines.len() as int)
}

/// The lines of a text field on a page: its placeholders filled in, then cut
/// at the line-break markers. No field, no lines.
pub open spec fn field_lines(field: Option<String>, page: nat, total: nat, date: Seq<char>) -> Seq<
    Seq<char>,
> {
    match field {
        Some(t) => split_lines(expand(t@, page, total, date)),
        None => Seq::empty(),
    }
}

/// The line that shows the page number, with the page count if wanted.
pub open spec fn page_line(page: nat, total: nat, with_total: bool) -> Seq<char> {
    if with_total {
        "Page "@ + decimal(page) + " of "@ + decimal(total)
    } else {
        "Page "@ + decimal(page)
    }
}

/// The text that stands for the date of the options; empty without a date.
pub open spec fn date_of(o: HeaderFooterOptions) -> Seq<char> {
    match o.date {
        Some(d) => date_text(d),
        None => Seq::empty(),
    }
}

/// The lines of the right zone: those of its text field, then the page
/// number if it is shown, then the date if there is one.
///
/// A date is shown by being set: the options have no switch for it. The date
/// line is added whatever the text fields hold, so where a text also asks for
/// the date with `[date]`, the date stands on the page once for the
/// placeholder and once on this line.
pub open spec fn right_lines(o: HeaderFooterOptions, page: nat, total: nat) -> Seq<Seq<char>> {
    field_lines(o.footer_right, page, total, date_of(o)) + (if o.show_page_numbers {
        seq![page_line(page, total, o.show_total_page_count)]
    } else {
        Seq::empty()
    }) + (match o.date {
        Some(d) => seq![date_text(d)],
        None => Seq::empty(),
    })
}

/// The instructions that draw the title: its colour for filling and
/// stroking, then one text object with the title centred by its estimated
/// width, 50 points below the top edge.
pub open spec fn title_ops(title: Seq<char>, size: int, color: Seq<char>) -> Seq<char> {
    color + " rg\n"@ + color + " RG\n"@ + "BT\n"@ + "0 Tr\n"@ + "/F1 "@ + milli_text(size)
        + " Tf\n"@ + "1 0 0 1 "@ + milli_text(centered_x(text_width(title.len() as int, size)))
        + " "@ + milli_text(PAGE_HEIGHT - MARGIN) + " Tm\n"@ + "("@ + escape_pdf(title)
        + ") Tj\n"@ + "ET\n"@
}

/// The instructions that draw the header and footer of page `page` of
/// `total`: the bands that blank out what was there; on the first page the
/// title, if there is one, with its placeholders filled in; then the footer
/// colour and the left, centre and right zones.
pub open spec fn compose(page: nat, total: nat, first: bool, o: HeaderFooterOptions) -> Seq<char> {
    let date = date_of(o);
    let footer_size = size_or(o.footer_font, o.footer_font_size) as int;
    let footer_color = color_text(color_of(o.footer_font));
    header_ops(page, total, first, o) + footer_color + " rg\n"@ + footer_color + " RG\n"@ + zone_text(
        field_lines(o.footer_left, page, total, date),
        Zone::Left,
        footer_size,
    ) + zone_text(field_lines(o.footer_center, page, total, date), Zone::Center, footer_size)
        + zone_text(right_lines(o, page, total), Zone::Right, footer_size)
}

/// Fills one band (see [`band_ops`]).
fn band_chars(y: i128, inches: u32, color: (u8, u8, u8)) -> (r: Vec<char>)
    requires
        y > i128::MIN,
    ensures
        r@ == band_ops(y as int, inches as int, color),
{
    let mut out = color_chars(Some(color));
    append_str(&mut out, " rg\n");
    append_str(&mut out, "0 ");
    append_chars(&mut out, &milli_chars(y));
    append_str(&mut out, " 612 ");
    append_chars(&mut out, &milli_chars((inches as i128) * 72));
    append_str(&mut out, " re\n");
    append_str(&mut out, "f\n");
    assert(out@ =~= band_ops(y as int, inches as int, color));
    out
}

/// The height of a band on a page (see [`band_height`]).
fn height_of_band(first_only: Option<u32>, all: Option<u32>, first: bool) -> (r: Option<u32>)
    ensures
        r == band_height(first_only, all, first),
{
    if first && first_only.is_some() {
        first_only
    } else {
        all
    }
}

/// Fills the bands of a page (see [`mask_ops`]).
fn mask_chars(mask: &MaskOptions, first: bool) -> (r: Vec<char>)
    ensures
        r@ == mask_ops(*mask, first),
{
    let mut out: Vec<char> = Vec::new();
    match height_of_band(mask.header_height, mask.header_all_height, first) {
        Some(h) => {
            append_chars(&mut out, &band_chars(PAGE_HEIGHT - (h as i128) * 72, h, mask.color));
        },
        None => {},
    }
    match height_of_band(mask.footer_height, mask.footer_all_height, first) {
        Some(h) => {
            append_chars(&mut out, &band_chars(0, h, mask.color));
        },
        None => {},
    }
    assert(out@ =~= mask_ops(*mask, first));
    out
}

/// Draws a zone (see [`zone_text`]).
fn zone_chars(lines: &Vec<Vec<char>>, zone: Zone, size: u32) -> (r: Vec<char>)
    ensures
        r@ == zone_text(chars_view(lines@), zone, size as int),
{
    let ghost view = chars_view(lines@);
    let mut out: Vec<char> = Vec::new();
    let count = lines.len();
    let height: i128 = (size as i128) * 12 / 10;
    let mut i: usize = 0;
    while i < count
        invariant
            i <= count,
            count == lines.len(),
            view == chars_view(lines@),
            height == line_height(size as int),
            0 <= height <= 2 * 0xffff_ffff,
            out@ == zone_ops(view, zone, size as int, i as int),
        decreases count - i,
    {
        let line = &lines[i];
        assert(view[i as int] == line@);
        let width = styled_width(line, size);
        let length = line.len();
        assert(0 <= width <= 2 * 0xffff_ffff_ffff_ffff * 0xffff_ffff) by (nonlinear_arith)
            requires
                0 <= width <= 2 * length * size,
                0 <= length <= 0xffff_ffff_ffff_ffff,
                0 <= size <= 0xffff_ffff,
        ;
        let x: i128 = match zone {
            Zone::Left => MARGIN,
            Zone::Center => if width <= PAGE_WIDTH {
                (PAGE_WIDTH - width) / 2
            } else {
                -((width - PAGE_WIDTH) / 2)
            },
            Zone::Right => PAGE_WIDTH - MARGIN - width,
        };
        let above: i128 = (count - 1 - i) as i128;
        assert(0 <= above * height <= 0xffff_ffff_ffff_ffff * (2 * 0xffff_ffff)) by (nonlinear_arith)
            requires
                0 <= above <= 0xffff_ffff_ffff_ffff,
                0 <= height <= 2 * 0xffff_ffff,
        ;
        let y: i128 = FOOTER_BASE + above * height;
        let piece = styled_line_chars(line, x, y, size);
        append_chars(&mut out, &piece);
        i += 1;
    }
    out
}

/// The lines of a text field on a page (see [`field_lines`]).
fn field_line_chars(field: &Option<String>, page: usize, total: usize, date: Option<&str>) -> (r:
    Vec<Vec<char>>)
    ensures
        chars_view(r@) == field_lines(
            *field,
            page as nat,
            total as nat,
            crate::pdf::markup::date_or_empty(date),
        ),
{
    match field {
        Some(text) => {
            let expanded = expand_placeholders(text.as_str(), page, total, date);
            split_line_chars(&chars_of(expanded.as_str()))
        },
        None => {
            let lines: Vec<Vec<char>> = Vec::new();
            assert(chars_view(lines@) =~= Seq::<Seq<char>>::empty());
            lines
        },
    }
}

/// Draws the title (see [`title_ops`]).
fn title_chars(title: &Vec<char>, size: u32, color: &Vec<char>) -> (r: Vec<char>)
    ensures
        r@ == title_ops(title@, size as int, color@),
{
    let width = width_of(title.len(), size);
    let length = title.len();
    assert(0 <= width <= 0xffff_ffff_ffff_ffff * 0xffff_ffff) by (nonlinear_arith)
        requires
            0 <= width <= length * size,
            0 <= length <= 0xffff_ffff_ffff_ffff,
            0 <= size <= 0xffff_ffff,
    ;
    let x: i128 = if width <= PAGE_WIDTH {
        (PAGE_WIDTH - width) / 2
    } else {
        -((width - PAGE_WIDTH) / 2)
    };
    let mut out: Vec<char> = Vec::new();
    append_chars(&mut out, color);
    append_str(&mut out, " rg\n");
    append_chars(&mut out, color);
    append_str(&mut out, " RG\n");
    append_str(&mut out, "BT\n");
    append_str(&mut out, "0 Tr\n");
    append_str(&mut out, "/F1 ");
    append_chars(&mut out, &milli_chars(size as i128));
    append_str(&mut out, " Tf\n");
    append_str(&mut out, "1 0 0 1 ");
    append_chars(&mut out, &milli_chars(x));
    append_str(&mut out, " ");
    append_chars(&mut out, &milli_chars(PAGE_HEIGHT - MARGIN));
    append_str(&mut out, " Tm\n");
    append_str(&mut out, "(");
    append_chars(&mut out, &escape_chars(title));
    append_str(&mut out, ") Tj\n");
    append_str(&mut out, "ET\n");
    assert(out@ =~= title_ops(title@, size as int, color@));
    out
}

/// The lines of the right zone (see [`right_lines`]).
fn right_line_chars(
    options: &HeaderFooterOptions,
    page_num: usize,
    total_pages: usize,
    date: Option<&str>,
) -> (r: Vec<Vec<char>>)
    requires
        crate::pdf::markup::date_or_empty(date) == date_of(*options),
        date is Some == options.date is Some,
    ensures
        chars_view(r@) == right_lines(*options, page_num as nat, total_pages as nat),
{
    let mut right = field_line_chars(&options.footer_right, page_num, total_pages, date);
    if options.show_page_numbers {
        let mut line = chars_of("Page ");
        append_chars(&mut line, &decimal_chars(page_num as u128));
        if options.show_total_page_count {
            append_str(&mut line, " of ");
            append_chars(&mut line, &decimal_chars(total_pages as u128));
        }
        let ghost before = chars_view(right@);
        right.push(line);
        assert(chars_view(right@) =~= before + seq![
            page_line(page_num as nat, total_pages as nat, options.show_total_page_count),
        ]);
    }
    match date {
        Some(text) => {
            let ghost before = chars_view(right@);
            right.push(chars_of(text));
            assert(chars_view(right@) =~= before + seq![text@]);
        },
        None => {},
    }
    assert(chars_view(right@) =~= right_lines(*options, page_num as nat, total_pages as nat));
    right
}

/// The header of a page: the bands and, on the first page, the title.
pub open spec fn header_ops(page: nat, total: nat, first: bool, o: HeaderFooterOptions) -> Seq<
    char,
> {
    mask_ops(o.mask, first) + (if first && o.title is Some {
        title_ops(
            expand(o.title->0@, page, total, date_of(o)),
            size_or(o.header_font, o.title_font_size) as int,
            color_text(color_of(o.header_font)),
        )
    } else {
        Seq::empty()
    })
}

/// Draws the header of a page (see [`header_ops`]).
fn header_chars(
    page_num: usize,
    total_pages: usize,
    is_first_page: bool,
    options: &HeaderFooterOptions,
    date: Option<&str>,
) -> (r: Vec<char>)
    requires
        crate::pdf::markup::date_or_empty(date) == date_of(*options),
    ensures
        r@ == header_ops(page_num as nat, total_pages as nat, is_first_page, *options),
{
    let mut out: Vec<char> = mask_chars(&options.mask, is_first_page);
    if is_first_page {
        match &options.title {
            Some(title) => {
                let expanded = chars_of(
                    expand_placeholders(title.as_str(), page_num, total_pages, date).as_str(),
                );
                let color = color_chars(font_color(&options.header_font));
                let size = options.effective_header_font_size();
                append_chars(&mut out, &title_chars(&expanded, size, &color));
            },
            None => {},
        }
    }
    assert(out@ =~= header_ops(page_num as nat, total_pages as nat, is_first_page, *options));
    out
}

/// Composes the instructions that draw the header and footer of one page.
///
/// First come the bands that `options.mask` asks for. On the first page the
/// title, if there is one, is drawn centred 50 points below the top edge.
/// Each footer zone holds the lines of its text field, with the placeholders
/// filled in; the right zone also shows the page number (if
/// `show_page_numbers` is set) and the date (if there is one), each on a line
/// of its own. There is no switch for the date line: it is drawn whenever
/// `options.date` is set, also where a text shows the date through `[date]`.
/// The lowest line of a zone stands 30 points above the bottom
/// edge. The left zone starts 50 points from the left edge, each centre line
/// is centred by its own width, and each right line ends 50 points from the
/// right edge.
pub fn generate_header_footer_content(
    page_num: usize,
    total_pages: usize,
    is_first_page: bool,
    options: &HeaderFooterOptions,
) -> (r: String)
    ensures
        r@ == compose(page_num as nat, total_pages as nat, is_first_page, *options),
{
    let formatted = match &options.date {
        Some(d) => Some(format_date(d)),
        None => None,
    };
    let date: Option<&str> = match &formatted {
        Some(text) => Some(text.as_str()),
        None => None,
    };
    assert(crate::pdf::markup::date_or_empty(date) == date_of(*options));
    let footer_size = options.effective_footer_font_size();
    let mut out = header_chars(page_num, total_pages, is_first_page, options, date);
    let color = color_chars(font_color(&options.footer_font));
    append_chars(&mut out, &color);
    append_str(&mut out, " rg\n");
    append_chars(&mut out, &color);
    append_str(&mut out, " RG\n");
    let left = field_line_chars(&options.footer_left, page_num, total_pages, date);
    append_chars(&mut out, &zone_chars(&left, Zone::Left, footer_size));
    let center = field_line_chars(&options.footer_center, page_num, total_pages, date);
    append_chars(&mut out, &zone_chars(&center, Zone::Center, footer_size));
    let right = right_line_chars(options, page_num, total_pages, date);
    append_chars(&mut out, &zone_chars(&right, Zone::Right, footer_size));
    assert(out@ =~= compose(page_num as nat, total_pages as nat, is_first_page, *options));
    string_of(&out)
}

} // verus!
