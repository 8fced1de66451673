use pdf_handouts::pdf::{
    escape_pdf_string, expand_placeholders, parse_font_style, parse_font_tags,
    parse_multiline_text, FontStyle,
};

#[test]
fn test_parse_multiline_text() {
    // Single line
    let lines = parse_multiline_text("Simple text");
    assert_eq!(lines, vec!["Simple text"]);

    // Multiple lines with newline
    let lines = parse_multiline_text("Line 1\nLine 2");
    assert_eq!(lines, vec!["Line 1", "Line 2"]);

    // Multiple lines with pipe
    let lines = parse_multiline_text("Line 1|Line 2");
    assert_eq!(lines, vec!["Line 1", "Line 2"]);

    // Multiple lines with [br]
    let lines = parse_multiline_text("Line 1[br]Line 2");
    assert_eq!(lines, vec!["Line 1", "Line 2"]);

    // Multiple lines with [BR]
    let lines = parse_multiline_text("Line 1[BR]Line 2");
    assert_eq!(lines, vec!["Line 1", "Line 2"]);

    // Multiple lines with <br>
    let lines = parse_multiline_text("Line 1<br>Line 2");
    assert_eq!(lines, vec!["Line 1", "Line 2"]);

    // Multiple lines with <BR>
    let lines = parse_multiline_text("Line 1<BR>Line 2");
    assert_eq!(lines, vec!["Line 1", "Line 2"]);

    // Multiple lines with <br/>
    let lines = parse_multiline_text("Line 1<br/>Line 2<br/>Line 3");
    assert_eq!(lines, vec!["Line 1", "Line 2", "Line 3"]);

    // Multiple lines with <br />
    let lines = parse_multiline_text("Line 1<br />Line 2");
    assert_eq!(lines, vec!["Line 1", "Line 2"]);

    // Mixed syntaxes
    let lines = parse_multiline_text("Line 1\nLine 2|Line 3[br]Line 4<br>Line 5");
    assert_eq!(lines, vec!["Line 1", "Line 2", "Line 3", "Line 4", "Line 5"]);
}

#[test]
fn split_treats_all_delimiters_alike() {
    for text in ["A|B", "A[br]B", "A<br>B", "A\nB", "A<Br/>B", "A<bR />B"] {
        assert_eq!(parse_multiline_text(text), vec!["A", "B"], "{}", text);
    }
    assert_eq!(
        parse_multiline_text("A\nB|C[br]D<br>E"),
        vec!["A", "B", "C", "D", "E"]
    );
}

#[test]
fn split_keeps_empty_lines_and_unicode() {
    assert_eq!(parse_multiline_text(""), vec![""]);
    assert_eq!(parse_multiline_text("|"), vec!["", ""]);
    assert_eq!(parse_multiline_text("a||b"), vec!["a", "", "b"]);
    assert_eq!(parse_multiline_text("é<br>ü"), vec!["é", "ü"]);
    assert_eq!(parse_multiline_text("<br"), vec!["<br"]);
    assert_eq!(parse_multiline_text("< br>"), vec!["< br>"]);
}

#[test]
fn expand_fills_page_and_total() {
    let once = expand_placeholders("Page [page] of [pages]", 3, 14, None);
    assert_eq!(once, "Page 3 of 14");
    let twice = expand_placeholders(&once, 3, 14, None);
    assert_eq!(twice, "Page 3 of 14");
}

#[test]
fn expand_ignores_case_and_handles_date() {
    assert_eq!(expand_placeholders("[PAGE]/[Pages]", 1, 2, None), "1/2");
    assert_eq!(
        expand_placeholders("on [date]", 1, 1, Some("January 7, 2026")),
        "on January 7, 2026"
    );
    assert_eq!(expand_placeholders("on [DATE].", 1, 1, None), "on .");
    assert_eq!(expand_placeholders("[page", 7, 9, None), "[page");
    assert_eq!(expand_placeholders("[page][page]", 10, 9, None), "1010");
    assert_eq!(expand_placeholders("[pages]", 0, 120, None), "120");
}

#[test]
fn escape_handles_each_special_character() {
    assert_eq!(escape_pdf_string("plain"), "plain");
    assert_eq!(escape_pdf_string("a(b)c"), "a\\(b\\)c");
    assert_eq!(escape_pdf_string("back\\slash"), "back\\\\slash");
    assert_eq!(escape_pdf_string("l1\nl2\r"), "l1\\nl2\\r");
    assert_eq!(escape_pdf_string(""), "");
}

#[test]
fn font_style_reads_words_in_any_case() {
    assert_eq!(parse_font_style("italic"), FontStyle { italic: true, bold: false });
    assert_eq!(parse_font_style("BOLD"), FontStyle { italic: false, bold: true });
    assert_eq!(parse_font_style("Bold Italic"), FontStyle { italic: true, bold: true });
    assert_eq!(parse_font_style("12pt"), FontStyle { italic: false, bold: false });
    assert_eq!(parse_font_style(""), FontStyle::default());
}

fn spans(text: &str) -> Vec<(String, bool, bool)> {
    parse_font_tags(text)
        .into_iter()
        .map(|s| (s.text, s.style.italic, s.style.bold))
        .collect()
}

#[test]
fn font_tags_split_into_spans() {
    assert_eq!(spans(""), vec![]);
    assert_eq!(spans("plain"), vec![("plain".to_string(), false, false)]);
    assert_eq!(
        spans("a [font italic]b[/font] c"),
        vec![
            ("a ".to_string(), false, false),
            ("b".to_string(), true, false),
            (" c".to_string(), false, false),
        ]
    );
    assert_eq!(
        spans("[font bold italic]x[/font]"),
        vec![("x".to_string(), true, true)]
    );
}

#[test]
fn font_tags_without_close_run_to_the_end() {
    assert_eq!(
        spans("a[font bold]rest"),
        vec![("a".to_string(), false, false), ("rest".to_string(), false, true)]
    );
    assert_eq!(spans("[font bold]"), vec![("".to_string(), false, true)]);
}

#[test]
fn font_tag_without_bracket_is_plain_text() {
    assert_eq!(
        spans("a[font bold"),
        vec![("a".to_string(), false, false), ("[font bold".to_string(), false, false)]
    );
    // Every character is drawn once.
    let texts: String = spans("x [font italic]y[/font] z[font b").into_iter().map(|s| s.0).collect();
    assert_eq!(texts, "x y z[font b");
    assert_eq!(spans("[font bold"), vec![("[font bold".to_string(), false, false)]);
}
