use pdf_handouts::date::Date;
use pdf_handouts::pdf::{
    add_headers_footers, estimate_text_width, estimate_text_width_with_tags,
    generate_header_footer_content, generate_line_with_font_tags, key, stamp_document, FontSpec,
    HeaderFooterOptions, MaskOptions, ObjectId, PdfDict, PdfDocument, PdfObject, PdfStream,
};
use pdf_handouts::Error;

fn bare() -> HeaderFooterOptions {
    HeaderFooterOptions {
        show_page_numbers: false,
        ..Default::default()
    }
}

#[test]
fn default_options_are_as_documented() {
    let o = HeaderFooterOptions::default();
    assert!(o.title.is_none() && o.footer_left.is_none());
    assert!(o.footer_center.is_none() && o.footer_right.is_none());
    assert!(o.date.is_none() && o.header_font.is_none() && o.footer_font.is_none());
    assert!(o.show_page_numbers);
    assert!(!o.show_total_page_count);
    assert_eq!(o.title_font_size as f32 / 1000.0, 24.0);
    assert_eq!(o.footer_font_size as f32 / 1000.0, 14.0);
    assert_eq!(o.effective_header_font_size(), 24000);
    assert_eq!(o.effective_footer_font_size(), 14000);
    assert_eq!(o.header_color_pdf(), "0 0 0");
    assert_eq!(o.footer_color_pdf(), "0 0 0");
}

#[test]
fn font_specs_override_sizes_and_colours() {
    let o = HeaderFooterOptions {
        header_font: Some(FontSpec {
            size: Some(30500),
            color: Some((255, 0, 0)),
            ..Default::default()
        }),
        footer_font: Some(FontSpec {
            color: Some((0x33, 0x88, 0xff)),
            ..Default::default()
        }),
        ..Default::default()
    };
    assert_eq!(o.effective_header_font_size(), 30500);
    assert_eq!(o.effective_footer_font_size(), 14000);
    assert_eq!(o.header_color_pdf(), "1.000 0.000 0.000");
    assert_eq!(o.footer_color_pdf(), "0.200 0.533 1.000");
}

#[test]
fn width_is_048_of_the_size_per_character() {
    assert_eq!(estimate_text_width("", 14000), 0);
    assert_eq!(estimate_text_width("AB", 14000), 13440);
    assert_eq!(estimate_text_width("é", 14000), 6720);
    assert_eq!(estimate_text_width("abc", 1), 1);
    assert_eq!(estimate_text_width_with_tags("a[font bold]bc[/font]", 10000), 14400);
}

#[test]
fn line_draws_one_text_object_per_span() {
    assert_eq!(generate_line_with_font_tags("", 50000, 30000, 14000), "");
    assert_eq!(
        generate_line_with_font_tags("Left", 50000, 30000, 14000),
        "BT\n/F1 14 Tf\n1 0 0 1 50 30 Tm\n0 Tr\n(Left) Tj\nET\n"
    );
    assert_eq!(
        generate_line_with_font_tags("[font bold]B[/font]n", 50000, 30000, 14000),
        "BT\n/F1 14 Tf\n1 0 0 1 50 30 Tm\n2 Tr\n0.42 w\n(B) Tj\nET\n\
         BT\n/F1 14 Tf\n1 0 0 1 56.72 30 Tm\n0 Tr\n(n) Tj\nET\n"
    );
    assert_eq!(
        generate_line_with_font_tags("[font italic](i)[/font]", -1500, 46800, 10500),
        "BT\n/F1 10.5 Tf\n1 0 0.21 1 -1.5 46.8 Tm\n0 Tr\n(\\(i\\)) Tj\nET\n"
    );
    assert_eq!(
        generate_line_with_font_tags("[font Bold Italic]x[/font]", 0, 5, 20000),
        "BT\n/F1 20 Tf\n1 0 0.21 1 0 0.005 Tm\n2 Tr\n0.6 w\n(x) Tj\nET\n"
    );
}

#[test]
fn footer_zones_are_placed_as_documented() {
    let o = HeaderFooterOptions {
        title: Some("Hi".to_string()),
        footer_left: Some("Left".to_string()),
        footer_center: Some("AB|C".to_string()),
        footer_right: Some("[page]/[pages]".to_string()),
        ..bare()
    };
    let expected_footer = "0 0 0 rg\n0 0 0 RG\n\
         BT\n/F1 14 Tf\n1 0 0 1 50 30 Tm\n0 Tr\n(Left) Tj\nET\n\
         BT\n/F1 14 Tf\n1 0 0 1 299.28 46.8 Tm\n0 Tr\n(AB) Tj\nET\n\
         BT\n/F1 14 Tf\n1 0 0 1 302.64 30 Tm\n0 Tr\n(C) Tj\nET\n\
         BT\n/F1 14 Tf\n1 0 0 1 535.12 30 Tm\n0 Tr\n(2/10) Tj\nET\n";
    assert_eq!(generate_header_footer_content(2, 10, false, &o), expected_footer);
}

#[test]
fn title_is_drawn_on_the_first_page_only() {
    let o = HeaderFooterOptions {
        title: Some("Hi".to_string()),
        header_font: Some(FontSpec { color: Some((255, 0, 0)), ..Default::default() }),
        ..bare()
    };
    assert_eq!(
        generate_header_footer_content(1, 3, true, &o),
        "1.000 0.000 0.000 rg\n1.000 0.000 0.000 RG\nBT\n0 Tr\n/F1 24 Tf\n\
         1 0 0 1 294.48 742 Tm\n(Hi) Tj\nET\n0 0 0 rg\n0 0 0 RG\n"
    );
    assert_eq!(generate_header_footer_content(2, 3, false, &o), "0 0 0 rg\n0 0 0 RG\n");
}

#[test]
fn right_zone_shows_page_number_and_date() {
    let o = HeaderFooterOptions {
        footer_right: Some("R".to_string()),
        show_page_numbers: true,
        show_total_page_count: true,
        date: Date::from_ymd(2026, 1, 7),
        footer_font_size: 10000,
        ..Default::default()
    };
    // "R" is 4.8 wide, "Page 3 of 14" 57.6 and "January 7, 2026" 72.
    assert_eq!(
        generate_header_footer_content(3, 14, false, &o),
        "0 0 0 rg\n0 0 0 RG\n\
         BT\n/F1 10 Tf\n1 0 0 1 557.2 54 Tm\n0 Tr\n(R) Tj\nET\n\
         BT\n/F1 10 Tf\n1 0 0 1 504.4 42 Tm\n0 Tr\n(Page 3 of 14) Tj\nET\n\
         BT\n/F1 10 Tf\n1 0 0 1 490 30 Tm\n0 Tr\n(January 7, 2026) Tj\nET\n"
    );
    let page_only = HeaderFooterOptions::default();
    assert_eq!(
        generate_header_footer_content(7, 9, false, &page_only),
        "0 0 0 rg\n0 0 0 RG\nBT\n/F1 14 Tf\n1 0 0 1 521.68 30 Tm\n0 Tr\n(Page 7) Tj\nET\n"
    );
}

#[test]
fn date_placeholder_is_filled_or_dropped() {
    let with_date = HeaderFooterOptions {
        footer_left: Some("on [date]".to_string()),
        date: Date::from_ymd(2024, 11, 20),
        ..bare()
    };
    let text = generate_header_footer_content(1, 1, false, &with_date);
    assert!(text.contains("(on November 20, 2024) Tj"));
    let without = HeaderFooterOptions { footer_left: Some("on [date]".to_string()), ..bare() };
    assert!(generate_header_footer_content(1, 1, false, &without).contains("(on ) Tj"));
}

#[test]
fn date_line_is_drawn_whenever_a_date_is_set() {
    let date = Date::from_ymd(2026, 1, 7);
    // The date alone: one line in the right zone, on every page.
    let alone = HeaderFooterOptions { date, footer_font_size: 10000, ..bare() };
    let line = "BT\n/F1 10 Tf\n1 0 0 1 490 30 Tm\n0 Tr\n(January 7, 2026) Tj\nET\n";
    for (page, first) in [(1, true), (2, false)] {
        assert_eq!(
            generate_header_footer_content(page, 2, first, &alone),
            format!("0 0 0 rg\n0 0 0 RG\n{}", line)
        );
    }
    // A text that asks for the date with the placeholder does not take the
    // place of the line: the date then stands on the page twice.
    let both = HeaderFooterOptions {
        footer_right: Some("[date]".to_string()),
        date,
        footer_font_size: 10000,
        ..bare()
    };
    let text = generate_header_footer_content(1, 1, false, &both);
    assert_eq!(text.matches("(January 7, 2026) Tj").count(), 2);
    assert_eq!(
        text,
        format!(
            "0 0 0 rg\n0 0 0 RG\nBT\n/F1 10 Tf\n1 0 0 1 490 42 Tm\n0 Tr\n(January 7, 2026) Tj\nET\n{}",
            line
        )
    );
    let left = HeaderFooterOptions {
        footer_left: Some("[date]".to_string()),
        date,
        footer_font_size: 10000,
        ..bare()
    };
    let text = generate_header_footer_content(1, 1, false, &left);
    assert_eq!(text.matches("(January 7, 2026) Tj").count(), 2);
    // Without a date there is no such line, whatever the texts hold.
    let none = HeaderFooterOptions { footer_right: Some("[date]".to_string()), ..bare() };
    let text = generate_header_footer_content(1, 1, false, &none);
    assert!(!text.contains("2026"));
    // The placeholder leaves an empty text, which draws nothing.
    assert_eq!(text, "0 0 0 rg\n0 0 0 RG\n");
}

#[test]
fn masks_blank_out_bands_before_anything_is_drawn() {
    let o = HeaderFooterOptions {
        mask: MaskOptions {
            header_height: Some(500),
            footer_all_height: Some(1250),
            color: (255, 255, 255),
            ..Default::default()
        },
        ..bare()
    };
    // Half an inch is 36 points, an inch and a quarter 90.
    assert_eq!(
        generate_header_footer_content(1, 2, true, &o),
        "1.000 1.000 1.000 rg\n0 756 612 36 re\nf\n\
         1.000 1.000 1.000 rg\n0 0 612 90 re\nf\n0 0 0 rg\n0 0 0 RG\n"
    );
    assert_eq!(
        generate_header_footer_content(2, 2, false, &o),
        "1.000 1.000 1.000 rg\n0 0 612 90 re\nf\n0 0 0 rg\n0 0 0 RG\n"
    );
    let both = HeaderFooterOptions {
        mask: MaskOptions {
            header_height: Some(1000),
            header_all_height: Some(250),
            color: (0, 0, 0),
            ..Default::default()
        },
        ..bare()
    };
    assert!(generate_header_footer_content(1, 2, true, &both).starts_with("0.000 0.000 0.000 rg\n0 720 612 72 re\nf\n"));
    assert!(generate_header_footer_content(2, 2, false, &both).starts_with("0.000 0.000 0.000 rg\n0 774 612 18 re\nf\n"));
    let m = MaskOptions::default();
    assert!(m.header_height.is_none() && m.footer_height.is_none());
    assert!(m.header_all_height.is_none() && m.footer_all_height.is_none());
    assert_eq!(m.color, (255, 255, 255));
}

fn name(text: &str) -> PdfObject {
    PdfObject::Name(key(text))
}

/// Two pages that inherit their resources from the page tree root.
fn two_page_document() -> (PdfDocument, ObjectId, Vec<ObjectId>) {
    let mut doc = PdfDocument::with_version("1.5");
    let root = doc.new_object_id().unwrap();
    let mut pages = Vec::new();
    for text in ["q\n0.5 0 0 0.5 0 0 cm\n(one) Tj\nQ", "(two) Tj"] {
        let content = doc
            .add_object(PdfObject::Stream(PdfStream::new(
                PdfDict::new(),
                text.as_bytes().to_vec(),
            )))
            .unwrap();
        let mut page = PdfDict::new();
        page.set(key("Type"), name("Page"));
        page.set(key("Parent"), PdfObject::Reference(root));
        page.set(key("Contents"), PdfObject::Reference(content));
        pages.push(doc.add_object(PdfObject::Dictionary(page)).unwrap());
    }
    let mut fonts = PdfDict::new();
    fonts.set(key("F9"), PdfObject::Reference((99, 0)));
    let mut shared = PdfDict::new();
    shared.set(key("Font"), PdfObject::Dictionary(fonts));
    let mut tree = PdfDict::new();
    tree.set(key("Type"), name("Pages"));
    tree.set(key("Count"), PdfObject::Integer(2));
    tree.set(
        key("Kids"),
        PdfObject::Array(pages.iter().map(|p| PdfObject::Reference(*p)).collect()),
    );
    tree.set(key("Resources"), PdfObject::Dictionary(shared));
    doc.set_object(root, PdfObject::Dictionary(tree));
    let mut catalog = PdfDict::new();
    catalog.set(key("Type"), name("Catalog"));
    catalog.set(key("Pages"), PdfObject::Reference(root));
    let catalog_id = doc.add_object(PdfObject::Dictionary(catalog)).unwrap();
    doc.set_trailer(key("Root"), PdfObject::Reference(catalog_id));
    (doc, root, pages)
}

fn dict_of(doc: &PdfDocument, id: ObjectId) -> PdfDict {
    match doc.get_object(id) {
        Some(PdfObject::Dictionary(d)) => d.clone(),
        other => panic!("{:?} is {:?}", id, other),
    }
}

fn content_of(doc: &PdfDocument, id: ObjectId) -> Vec<u8> {
    match doc.get_object(id) {
        Some(PdfObject::Stream(s)) => s.content.clone(),
        other => panic!("{:?} is {:?}", id, other),
    }
}

fn header_footer_xobject(page: &PdfDict) -> ObjectId {
    let resources = match page.get(b"Resources") {
        Some(PdfObject::Dictionary(r)) => r,
        other => panic!("resources are {:?}", other),
    };
    let xobjects = match resources.get(b"XObject") {
        Some(PdfObject::Dictionary(x)) => x,
        other => panic!("xobjects are {:?}", other),
    };
    match xobjects.get(b"HeaderFooter") {
        Some(PdfObject::Reference(id)) => *id,
        other => panic!("HeaderFooter is {:?}", other),
    }
}

#[test]
fn stamping_gives_each_page_its_own_resources() {
    let (mut doc, root, pages) = two_page_document();
    let root_before = format!("{:?}", dict_of(&doc, root));
    let existing: Vec<ObjectId> = pages
        .iter()
        .map(|p| match dict_of(&doc, *p).get(b"Contents") {
            Some(PdfObject::Reference(id)) => *id,
            other => panic!("contents are {:?}", other),
        })
        .collect();
    let first_before = content_of(&doc, existing[0]);
    let options = HeaderFooterOptions {
        title: Some("T".to_string()),
        footer_center: Some("Page [page] of [pages]".to_string()),
        ..bare()
    };
    stamp_document(&mut doc, &pages, &options, b"font bytes").unwrap();

    let first = dict_of(&doc, pages[0]);
    let second = dict_of(&doc, pages[1]);
    let x1 = header_footer_xobject(&first);
    let x2 = header_footer_xobject(&second);
    assert_ne!(x1, x2);
    // The dictionary that both pages inherited from is as it was.
    assert_eq!(format!("{:?}", dict_of(&doc, root)), root_before);
    // The pages start from resources of their own: nothing inherited is copied.
    match first.get(b"Resources") {
        Some(PdfObject::Dictionary(r)) => assert!(!r.has(b"Font")),
        other => panic!("resources are {:?}", other),
    }
    // The existing content stands between the two new streams, untouched.
    match first.get(b"Contents") {
        Some(PdfObject::Array(items)) => {
            assert_eq!(items.len(), 3);
            assert!(matches!(items[1], PdfObject::Reference(id) if id == existing[0]));
            match (&items[0], &items[2]) {
                (PdfObject::Reference(q), PdfObject::Reference(qx)) => {
                    assert_eq!(content_of(&doc, *q), b"q\n");
                    assert_eq!(
                        content_of(&doc, *qx),
                        b" Q\nq\nq 1 0 0 1 0 0 cm /HeaderFooter Do Q\nQ\n"
                    );
                }
                other => panic!("unexpected {:?}", other),
            }
        }
        other => panic!("contents are {:?}", other),
    }
    assert_eq!(content_of(&doc, existing[0]), first_before);
    // Each XObject draws the text composed for its page.
    let drawn1 = String::from_utf8(content_of(&doc, x1)).unwrap();
    let drawn2 = String::from_utf8(content_of(&doc, x2)).unwrap();
    assert_eq!(drawn1, generate_header_footer_content(1, 2, true, &options));
    assert_eq!(drawn2, generate_header_footer_content(2, 2, false, &options));
    assert!(drawn1.contains("(T) Tj") && drawn1.contains("(Page 1 of 2) Tj"));
    assert!(!drawn2.contains("(T) Tj") && drawn2.contains("(Page 2 of 2) Tj"));
    let ids = doc.object_ids();
    for (i, id) in ids.iter().enumerate() {
        assert!(id.0 <= doc.max_id() && !ids[..i].contains(id));
    }
}

#[test]
fn stamping_fails_without_changing_anything() {
    let (mut doc, _, mut pages) = two_page_document();
    let before = format!("{:?}", doc);
    pages.push((77, 0));
    let result = stamp_document(&mut doc, &pages, &bare(), b"font");
    assert!(matches!(result, Err(Error::Pdf(_))));
    assert_eq!(format!("{:?}", doc), before);
    pages.pop();
    doc.raise_max_id(u32::MAX - 8);
    let before = format!("{:?}", doc);
    let result = stamp_document(&mut doc, &pages, &bare(), b"font");
    assert_eq!(result.unwrap_err().message(), "No object number is left");
    assert_eq!(format!("{:?}", doc), before);
}

#[test]
fn stamped_file_loads_with_the_same_pages() {
    let (doc, _, _) = two_page_document();
    let input = doc.save().unwrap();
    let options = HeaderFooterOptions {
        footer_right: Some("[page]".to_string()),
        ..bare()
    };
    let output = add_headers_footers(&input, &options, b"not really a font").unwrap();
    let mut stamped = PdfDocument::load(&output).unwrap();
    stamped.decompress();
    let pages = stamped.pages();
    assert_eq!(pages.len(), 2);
    for (i, page) in pages.iter().enumerate() {
        let x = header_footer_xobject(&dict_of(&stamped, *page));
        let drawn = String::from_utf8(content_of(&stamped, x)).unwrap();
        assert_eq!(drawn, generate_header_footer_content(i + 1, 2, i == 0, &options));
    }
    assert!(matches!(
        add_headers_footers(b"no pdf", &options, b"font"),
        Err(Error::Pdf(_))
    ));
}
