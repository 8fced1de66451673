use pdf_handouts::pdf::{parse_hex_color, parse_size_token, FontSpec};

/// A size in points, from thousandths of a point.
fn points(size: Option<u32>) -> Option<f32> {
    size.map(|s| s as f32 / 1000.0)
}

/// A colour as fractions of one, from bytes.
fn fractions(color: Option<(u8, u8, u8)>) -> Option<(f32, f32, f32)> {
    color.map(|(r, g, b)| (r as f32 / 255.0, g as f32 / 255.0, b as f32 / 255.0))
}

#[test]
fn test_font_spec_parse_size_only() {
    let spec = FontSpec::parse("14pt");
    assert!(!spec.bold);
    assert!(!spec.italic);
    assert_eq!(points(spec.size), Some(14.0));
    assert!(spec.family.is_none());
    assert!(spec.color.is_none());
}

#[test]
fn test_font_spec_parse_size_no_unit() {
    let spec = FontSpec::parse("12");
    assert_eq!(points(spec.size), Some(12.0));
}

#[test]
fn test_font_spec_parse_bold() {
    let spec = FontSpec::parse("bold 16pt");
    assert!(spec.bold);
    assert!(!spec.italic);
    assert_eq!(points(spec.size), Some(16.0));
}

#[test]
fn test_font_spec_parse_italic() {
    let spec = FontSpec::parse("italic 14pt");
    assert!(!spec.bold);
    assert!(spec.italic);
    assert_eq!(points(spec.size), Some(14.0));
}

#[test]
fn test_font_spec_parse_bold_italic() {
    let spec = FontSpec::parse("bold italic 18pt");
    assert!(spec.bold);
    assert!(spec.italic);
    assert_eq!(points(spec.size), Some(18.0));
}

#[test]
fn test_font_spec_parse_family_with_underscores() {
    let spec = FontSpec::parse("14pt Liberation_Serif");
    assert_eq!(points(spec.size), Some(14.0));
    assert_eq!(spec.family, Some("Liberation Serif".to_string()));
}

#[test]
fn test_font_spec_parse_hex_color_full() {
    let spec = FontSpec::parse("14pt #ff0000");
    assert_eq!(points(spec.size), Some(14.0));
    let color = fractions(spec.color).unwrap();
    assert!((color.0 - 1.0).abs() < 0.01); // Red
    assert!(color.1.abs() < 0.01); // Green
    assert!(color.2.abs() < 0.01); // Blue
}

#[test]
fn test_font_spec_parse_hex_color_short() {
    let spec = FontSpec::parse("14pt #f00");
    let color = fractions(spec.color).unwrap();
    assert!((color.0 - 1.0).abs() < 0.01); // Red
    assert!(color.1.abs() < 0.01); // Green
    assert!(color.2.abs() < 0.01); // Blue
}

#[test]
fn test_font_spec_parse_hex_color_gray() {
    let spec = FontSpec::parse("#333333");
    let color = fractions(spec.color).unwrap();
    let expected = 0x33 as f32 / 255.0;
    assert!((color.0 - expected).abs() < 0.01);
    assert!((color.1 - expected).abs() < 0.01);
    assert!((color.2 - expected).abs() < 0.01);
}

#[test]
fn test_font_spec_parse_full_spec() {
    let spec = FontSpec::parse("bold italic 24pt Times_New_Roman #0000ff");
    assert!(spec.bold);
    assert!(spec.italic);
    assert_eq!(points(spec.size), Some(24.0));
    assert_eq!(spec.family, Some("Times New Roman".to_string()));
    let color = fractions(spec.color).unwrap();
    assert!(color.0.abs() < 0.01); // Red
    assert!(color.1.abs() < 0.01); // Green
    assert!((color.2 - 1.0).abs() < 0.01); // Blue
}

#[test]
fn test_font_spec_parse_empty() {
    let spec = FontSpec::parse("");
    assert!(!spec.bold);
    assert!(!spec.italic);
    assert!(spec.size.is_none());
    assert!(spec.family.is_none());
    assert!(spec.color.is_none());
}

#[test]
fn test_font_spec_case_insensitive() {
    let spec = FontSpec::parse("BOLD ITALIC 14PT");
    assert!(spec.bold);
    assert!(spec.italic);
    assert_eq!(points(spec.size), Some(14.0));
}

#[test]
fn test_parse_hex_color() {
    // Full hex
    let color = fractions(parse_hex_color("#ff8800")).unwrap();
    assert!((color.0 - 1.0).abs() < 0.01);
    assert!((color.1 - 0.533).abs() < 0.01);
    assert!(color.2.abs() < 0.01);

    // Short hex
    let color = fractions(parse_hex_color("#f80")).unwrap();
    assert!((color.0 - 1.0).abs() < 0.01);
    assert!((color.1 - 0.533).abs() < 0.01);
    assert!(color.2.abs() < 0.01);

    // Invalid lengths
    assert!(parse_hex_color("#12345").is_none()); // Wrong length
    assert!(parse_hex_color("#1234567").is_none()); // Too long
    assert!(parse_hex_color("#12").is_none()); // Too short
}

#[test]
fn hex_colours_are_exact_bytes() {
    assert_eq!(parse_hex_color("#ff8800"), Some((255, 136, 0)));
    assert_eq!(parse_hex_color("#F80"), Some((255, 136, 0)));
    assert_eq!(parse_hex_color("00aBcD"), Some((0, 171, 205)));
    assert_eq!(parse_hex_color("##123"), Some((17, 34, 51)));
    assert_eq!(parse_hex_color("#12345g"), None);
    assert_eq!(parse_hex_color("#+f+f+f"), None);
    assert_eq!(parse_hex_color(""), None);
    assert_eq!(parse_hex_color("#ééé"), None);
}

#[test]
fn sizes_are_thousandths_of_a_point() {
    assert_eq!(parse_size_token("14"), Some(14000));
    assert_eq!(parse_size_token("14pt"), Some(14000));
    assert_eq!(parse_size_token("14.5pt"), Some(14500));
    assert_eq!(parse_size_token("14ptpt"), Some(14000));
    assert_eq!(parse_size_token("0.0019"), Some(1));
    assert_eq!(parse_size_token(".5"), Some(500));
    assert_eq!(parse_size_token("4294967.295"), Some(u32::MAX));
    assert_eq!(parse_size_token("4294967.296"), None);
    for bad in ["", "pt", "14p", "x14", "-3", "1e3", "14 pt", "１４", "14PT"] {
        assert_eq!(parse_size_token(bad), None, "{:?}", bad);
    }
}

#[test]
fn words_are_read_in_any_order_and_the_last_wins() {
    let spec = FontSpec::parse("  #f00\t12pt Arial\u{a0}ITALIC 9 Gill_Sans #00f ");
    assert!(spec.italic && !spec.bold);
    assert_eq!(spec.size, Some(9000));
    assert_eq!(spec.family.as_deref(), Some("Gill Sans"));
    assert_eq!(spec.color, Some((0, 0, 255)));
    // A word that only looks like a colour names a family.
    let spec = FontSpec::parse("#zzz");
    assert_eq!(spec.color, None);
    assert_eq!(spec.family.as_deref(), Some("#zzz"));
    let spec = FontSpec::parse("#12345");
    assert_eq!(spec.family.as_deref(), Some("#12345"));
    assert_eq!(FontSpec::with_size(11500).size, Some(11500));
    assert!(FontSpec::with_size(1).family.is_none());
}
