use pdf_handouts::pdf::{
    detect_page_transform, detect_transform, key, parse_number, PdfDict, PdfDocument, PdfObject,
    PdfStream, TransformMatrix,
};

fn as_reals(m: &TransformMatrix) -> [f64; 6] {
    [m.a, m.b, m.c, m.d, m.e, m.f].map(|v| v as f64 / 1_000_000.0)
}

#[test]
fn bracketed_transform_reports_identity() {
    for tail in ["", "(text) Tj\nQ\n", "BT /F1 12 Tf ET Q 2 0 0 2 0 0 cm"] {
        let content = format!("q\n0.5 0 0 0.5 0 0 cm\n{}", tail);
        let m = detect_transform(content.as_bytes());
        assert!(m.is_identity(), "{:?}", content);
        assert_eq!(as_reals(&m), [1.0, 0.0, 0.0, 1.0, 0.0, 0.0]);
    }
}

#[test]
fn unbracketed_transform_reports_the_literal_matrix() {
    for tail in ["", "(text) Tj\n", "q 2 0 0 2 0 0 cm Q"] {
        let content = format!("0.5 0 0 0.5 0 0 cm\n{}", tail);
        let m = detect_transform(content.as_bytes());
        assert!(!m.is_identity());
        assert_eq!(as_reals(&m), [0.5, 0.0, 0.0, 0.5, 0.0, 0.0]);
    }
}

#[test]
fn content_without_transform_reports_identity() {
    assert!(detect_transform(b"").is_identity());
    assert!(detect_transform(b"BT (x) Tj ET").is_identity());
    assert!(detect_transform(b"cm").is_identity());
    assert!(detect_transform(b"1 0 0 1 0 cm").is_identity());
    assert!(detect_transform(b"1 0 0 x 0 0 cm").is_identity());
    // `cm` inside a longer token is no operator.
    assert!(detect_transform(b"2 0 0 2 0 0 cmyk").is_identity());
}

#[test]
fn matrix_entries_are_read_as_written() {
    let m = detect_transform(b"/GS0 gs\r\n-1.25 +.5 3. 0.0000019 10 -0 cm\tq");
    assert_eq!(
        m,
        TransformMatrix { a: -1_250_000, b: 500_000, c: 3_000_000, d: 1, e: 10_000_000, f: 0 }
    );
    // Only the first `cm` counts, and a `q` anywhere before its operands brackets it.
    let m = detect_transform(b"2 0 0 2 0 0 cm 3 0 0 3 0 0 cm");
    assert_eq!(m.a, 2_000_000);
    assert!(detect_transform(b"q Q 2 0 0 2 0 0 cm").is_identity());
    assert!(detect_transform(b"2 0 0 q 2 0 0 2 0 0 cm").is_identity());
    // A `q` among the operands leaves no six numbers.
    assert!(detect_transform(b"q 0 0 2 0 0 cm").is_identity());
}

#[test]
fn numbers_parse_in_millionths() {
    assert_eq!(parse_number(b"0"), Some(0));
    assert_eq!(parse_number(b"12"), Some(12_000_000));
    assert_eq!(parse_number(b"-0.5"), Some(-500_000));
    assert_eq!(parse_number(b"+7.1234567"), Some(7_123_456));
    assert_eq!(parse_number(b".25"), Some(250_000));
    assert_eq!(parse_number(b"4."), Some(4_000_000));
    assert_eq!(parse_number(b"9223372036854.775807"), Some(i64::MAX));
    assert_eq!(parse_number(b"9223372036854.775808"), None);
    assert_eq!(parse_number(b"99999999999999999999999"), None);
    for bad in ["", ".", "-", "+", "1.2.3", "1e3", "abc", "1-", "--1", "0x10"] {
        assert_eq!(parse_number(bad.as_bytes()), None, "{:?}", bad);
    }
}

#[test]
fn page_transform_looks_at_the_first_stream_only() {
    let mut doc = PdfDocument::with_version("1.5");
    let plain = doc
        .add_object(PdfObject::Stream(PdfStream::new(PdfDict::new(), b"(a) Tj".to_vec())))
        .unwrap();
    let scaled = doc
        .add_object(PdfObject::Stream(PdfStream::new(
            PdfDict::new(),
            b"0.5 0 0 0.5 10 20 cm".to_vec(),
        )))
        .unwrap();
    let mut first = PdfDict::new();
    first.set(
        key("Contents"),
        PdfObject::Array(vec![PdfObject::Reference(scaled), PdfObject::Reference(plain)]),
    );
    let first = doc.add_object(PdfObject::Dictionary(first)).unwrap();
    let mut second = PdfDict::new();
    second.set(
        key("Contents"),
        PdfObject::Array(vec![PdfObject::Reference(plain), PdfObject::Reference(scaled)]),
    );
    let second = doc.add_object(PdfObject::Dictionary(second)).unwrap();
    let mut third = PdfDict::new();
    third.set(key("Contents"), PdfObject::Reference(scaled));
    let third = doc.add_object(PdfObject::Dictionary(third)).unwrap();

    let expected =
        TransformMatrix { a: 500_000, b: 0, c: 0, d: 500_000, e: 10_000_000, f: 20_000_000 };
    assert_eq!(detect_page_transform(&doc, first), expected);
    assert!(detect_page_transform(&doc, second).is_identity());
    assert_eq!(detect_page_transform(&doc, third), expected);
    assert!(detect_page_transform(&doc, plain).is_identity());
    assert!(detect_page_transform(&doc, (99, 0)).is_identity());
}
