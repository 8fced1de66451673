use pdf_handouts::pdf::{
    count_pages, get_page_content_and_resources, key, merge_pdfs, merge_resources,
    overlay_documents, overlay_watermark, wrap_page_content_in_graphics_state, MergeOptions,
    ObjectId, PdfDict, PdfDocument, PdfObject, PdfStream,
};
use pdf_handouts::Error;
use std::path::PathBuf;

fn name(text: &str) -> PdfObject {
    PdfObject::Name(key(text))
}

fn dict(entries: Vec<(&str, PdfObject)>) -> PdfDict {
    let mut d = PdfDict::new();
    for (k, v) in entries {
        d.set(key(k), v);
    }
    d
}

fn reference(number: u32) -> PdfObject {
    PdfObject::Reference((number, 0))
}

/// A document whose pages draw `label` and use the font object `font`.
fn document(label: &str, pages: usize) -> PdfDocument {
    let mut doc = PdfDocument::with_version("1.5");
    let root = doc.new_object_id().unwrap();
    let font = doc
        .add_object(PdfObject::Dictionary(dict(vec![("Type", name("Font"))])))
        .unwrap();
    let mut kids = Vec::new();
    for i in 0..pages {
        let text = format!("({} {}) Tj", label, i);
        let content = doc
            .add_object(PdfObject::Stream(PdfStream::new(PdfDict::new(), text.into_bytes())))
            .unwrap();
        let resources = dict(vec![(
            "Font",
            PdfObject::Dictionary(dict(vec![(label, PdfObject::Reference(font))])),
        )]);
        let page = dict(vec![
            ("Type", name("Page")),
            ("Parent", PdfObject::Reference(root)),
            ("Contents", PdfObject::Reference(content)),
            ("Resources", PdfObject::Dictionary(resources)),
        ]);
        kids.push(PdfObject::Reference(doc.add_object(PdfObject::Dictionary(page)).unwrap()));
    }
    let tree = dict(vec![
        ("Type", name("Pages")),
        ("Count", PdfObject::Integer(pages as i64)),
        ("Kids", PdfObject::Array(kids)),
    ]);
    doc.set_object(root, PdfObject::Dictionary(tree));
    let catalog = dict(vec![("Type", name("Catalog")), ("Pages", PdfObject::Reference(root))]);
    let catalog = doc.add_object(PdfObject::Dictionary(catalog)).unwrap();
    doc.set_trailer(key("Root"), PdfObject::Reference(catalog));
    doc
}

fn dict_of(doc: &PdfDocument, id: ObjectId) -> PdfDict {
    match doc.get_object(id) {
        Some(PdfObject::Dictionary(d)) => d.clone(),
        other => panic!("{:?} is {:?}", id, other),
    }
}

fn text_of(doc: &PdfDocument, object: &PdfObject) -> String {
    match object {
        PdfObject::Reference(id) => match doc.get_object(*id) {
            Some(PdfObject::Stream(s)) => String::from_utf8(s.content.clone()).unwrap(),
            other => panic!("{:?} is {:?}", id, other),
        },
        other => panic!("unexpected {:?}", other),
    }
}

fn sub<'a>(d: &'a PdfDict, k: &str) -> &'a PdfDict {
    match d.get(k.as_bytes()) {
        Some(PdfObject::Dictionary(x)) => x,
        other => panic!("{} is {:?}", k, other),
    }
}

#[test]
fn resources_merge_by_category_and_name() {
    let mut page = dict(vec![(
        "Resources",
        PdfObject::Dictionary(dict(vec![
            ("Font", PdfObject::Dictionary(dict(vec![("F1", reference(1)), ("F2", reference(2))]))),
            ("ProcSet", PdfObject::Array(vec![name("PDF")])),
        ])),
    )]);
    let donor = PdfObject::Dictionary(dict(vec![
        ("Font", PdfObject::Dictionary(dict(vec![("F2", reference(20)), ("F3", reference(30))]))),
        ("XObject", PdfObject::Dictionary(dict(vec![("X1", reference(40))]))),
        ("ProcSet", PdfObject::Array(vec![name("Text")])),
    ]));
    merge_resources(&mut page, &donor);
    let resources = sub(&page, "Resources");
    let fonts = sub(resources, "Font");
    assert!(matches!(fonts.get(b"F1"), Some(PdfObject::Reference((1, 0)))));
    // The donor's entry wins where both name the same resource.
    assert!(matches!(fonts.get(b"F2"), Some(PdfObject::Reference((20, 0)))));
    assert!(matches!(fonts.get(b"F3"), Some(PdfObject::Reference((30, 0)))));
    assert!(matches!(sub(resources, "XObject").get(b"X1"), Some(PdfObject::Reference((40, 0)))));
    // A category that is no dictionary is replaced.
    match resources.get(b"ProcSet") {
        Some(PdfObject::Array(items)) => {
            assert!(matches!(&items[..], [PdfObject::Name(n)] if n == b"Text"))
        }
        other => panic!("unexpected {:?}", other),
    }
}

#[test]
fn resources_are_materialized_for_a_page_without_any() {
    let mut page = dict(vec![("Type", name("Page"))]);
    let donor =
        PdfObject::Dictionary(dict(vec![("Font", PdfObject::Dictionary(dict(vec![("F1", reference(5))])))]));
    merge_resources(&mut page, &donor);
    assert!(matches!(sub(sub(&page, "Resources"), "Font").get(b"F1"), Some(PdfObject::Reference((5, 0)))));

    // Without anything to merge, the page still gets a dictionary of its own.
    let mut bare = dict(vec![]);
    merge_resources(&mut bare, &PdfObject::Null);
    assert_eq!(sub(&bare, "Resources").entries.len(), 0);

    // A page that only refers to its resources ends with a dictionary of its
    // own that holds the donor's entries.
    let mut indirect = dict(vec![("Resources", reference(9))]);
    merge_resources(&mut indirect, &donor);
    assert!(matches!(sub(sub(&indirect, "Resources"), "Font").get(b"F1"), Some(PdfObject::Reference((5, 0)))));
}

#[test]
fn page_parts_are_renumbered() {
    let doc = document("W", 1);
    let page = doc.pages()[0];
    let (contents, resources) =
        get_page_content_and_resources(&doc, page, 100).unwrap().unwrap();
    assert_eq!(contents.len(), 1);
    assert!(matches!(contents[0], PdfObject::Reference((103, 0))));
    match resources {
        PdfObject::Dictionary(r) => {
            assert!(matches!(sub(&r, "Font").get(b"W"), Some(PdfObject::Reference((102, 0)))))
        }
        other => panic!("unexpected {:?}", other),
    }
    assert!(matches!(
        get_page_content_and_resources(&doc, (77, 0), 1),
        Err(Error::Pdf(_))
    ));
    // An object that is no dictionary gives nothing.
    assert!(get_page_content_and_resources(&doc, (3, 0), 1).unwrap().is_none());
}

#[test]
fn overlay_appends_contents_and_merges_resources() {
    let mut source = document("S", 2);
    let over = document("W", 2);
    let pages = source.pages();
    let over_pages = over.pages();
    let source_max = source.max_id();
    let over_max = over.max_id();
    overlay_documents(&mut source, &pages, over, &over_pages).unwrap();
    assert_eq!(source.max_id(), source_max + 1 + over_max);
    for (i, page) in pages.iter().enumerate() {
        let d = dict_of(&source, *page);
        match d.get(b"Contents") {
            Some(PdfObject::Array(items)) => {
                assert_eq!(items.len(), 2);
                assert_eq!(text_of(&source, &items[0]), format!("(S {}) Tj", i));
                assert_eq!(text_of(&source, &items[1]), format!("(W {}) Tj", i));
            }
            other => panic!("unexpected {:?}", other),
        }
        let fonts = sub(sub(&d, "Resources"), "Font");
        assert!(matches!(fonts.get(b"S"), Some(PdfObject::Reference((2, 0)))));
        match fonts.get(b"W") {
            Some(PdfObject::Reference(id)) => {
                assert_eq!(*id, (2 + source_max + 1, 0));
                assert!(source.has_object(*id));
            }
            other => panic!("unexpected {:?}", other),
        }
    }
}

#[test]
fn overlay_requires_equal_page_counts() {
    let mut source = document("S", 2);
    let before = format!("{:?}", source);
    let over = document("W", 3);
    let pages = source.pages();
    let over_pages = over.pages();
    let e = overlay_documents(&mut source, &pages, over, &over_pages).unwrap_err();
    assert_eq!(
        e.message(),
        "Page count mismatch: source has 2 pages, watermark has 3 pages"
    );
    assert_eq!(format!("{:?}", source), before);
}

#[test]
fn overlay_fails_without_numbers_or_pages() {
    let mut source = document("S", 1);
    source.raise_max_id(u32::MAX - 3);
    let over = document("W", 1);
    let (pages, over_pages) = (source.pages(), over.pages());
    let e = overlay_documents(&mut source, &pages, over, &over_pages).unwrap_err();
    assert_eq!(e.message(), "No object number is left");

    let mut source = document("S", 1);
    let over = document("W", 1);
    let over_pages = over.pages();
    let e = overlay_documents(&mut source, &vec![(50, 0)], over, &over_pages).unwrap_err();
    assert!(matches!(e, Error::Pdf(_)));
}

#[test]
fn overlay_of_files_keeps_the_page_count() {
    let source = document("S", 3).save().unwrap();
    let over = document("W", 3).save().unwrap();
    let combined = overlay_watermark(&source, &over).unwrap();
    let doc = PdfDocument::load(&combined).unwrap();
    assert_eq!(doc.pages().len(), 3);
    assert!(matches!(overlay_watermark(b"junk", &over), Err(Error::Pdf(_))));
    assert!(matches!(overlay_watermark(&source, b"junk"), Err(Error::Pdf(_))));
    let short = document("W", 1).save().unwrap();
    assert!(matches!(overlay_watermark(&source, &short), Err(Error::General(_))));
}

#[test]
fn wrapping_joins_the_contents_between_save_and_restore() {
    let mut doc = PdfDocument::with_version("1.5");
    let a = doc
        .add_object(PdfObject::Stream(PdfStream::new(PdfDict::new(), b"2 0 0 2 0 0 cm".to_vec())))
        .unwrap();
    let b = doc
        .add_object(PdfObject::Stream(PdfStream::new(PdfDict::new(), vec![0xff, 0x28])))
        .unwrap();
    let page = dict(vec![(
        "Contents",
        PdfObject::Array(vec![
            PdfObject::Reference(a),
            PdfObject::Integer(3),
            PdfObject::Reference(b),
            reference(70),
        ]),
    )]);
    let page = doc.add_object(PdfObject::Dictionary(page)).unwrap();
    wrap_page_content_in_graphics_state(&mut doc, page).unwrap();
    let wrapped = match dict_of(&doc, page).get(b"Contents") {
        Some(PdfObject::Reference(id)) => *id,
        other => panic!("unexpected {:?}", other),
    };
    match doc.get_object(wrapped) {
        Some(PdfObject::Stream(s)) => {
            assert_eq!(s.content, b"q\n2 0 0 2 0 0 cm\n\xff\x28\nQ\n");
            assert!(matches!(s.dict.get(b"Length"), Some(PdfObject::Integer(22))));
        }
        other => panic!("unexpected {:?}", other),
    }
    // The streams that were there are still there, as they were.
    assert!(matches!(doc.get_object(a), Some(PdfObject::Stream(s)) if s.content == b"2 0 0 2 0 0 cm"));
    assert!(matches!(wrap_page_content_in_graphics_state(&mut doc, (99, 0)), Err(Error::Pdf(_))));
    // A page without contents is left alone.
    let empty = doc.add_object(PdfObject::Dictionary(PdfDict::new())).unwrap();
    let before = format!("{:?}", doc);
    wrap_page_content_in_graphics_state(&mut doc, empty).unwrap();
    assert_eq!(format!("{:?}", doc), before);
}

#[test]
fn test_full_workflow_merge_watermark_overlay() {
    // Step 1: merge four documents of 1, 1, 6 and 6 pages.
    let input_files = [("1.pdf", 1usize), ("2.pdf", 1), ("3.pdf", 6), ("4.pdf", 6)];
    let expected_total_pages: usize = input_files.iter().map(|(_, pages)| pages).sum();
    let options = MergeOptions {
        input_paths: input_files.iter().map(|(n, _)| PathBuf::from(n)).collect(),
        output_path: PathBuf::from("merged.pdf"),
    };
    let contents: Vec<Option<Vec<u8>>> = input_files
        .iter()
        .map(|(n, pages)| Some(document(n, *pages).save().unwrap()))
        .collect();
    let merged = merge_pdfs(&options, &contents).expect("Failed to merge PDFs");
    let merged_page_count = count_pages(&options.output_path, Some(&merged))
        .expect("Failed to count pages in merged PDF");
    assert_eq!(expected_total_pages, 14);
    assert_eq!(
        merged_page_count, expected_total_pages,
        "Merged PDF should have {} pages, got {}",
        expected_total_pages, merged_page_count
    );

    // Step 2: a watermark document with as many pages.
    let watermark = document("Bridge Class Handout", merged_page_count).save().unwrap();
    let watermark_page_count = count_pages(&PathBuf::from("watermark.pdf"), Some(&watermark))
        .expect("Failed to count pages in watermark PDF");
    assert_eq!(
        watermark_page_count, merged_page_count,
        "Watermark PDF should have same page count as merged PDF"
    );

    // Step 3: lay the watermark over the merged document.
    let output = overlay_watermark(&merged, &watermark).expect("Failed to overlay watermark");
    let final_page_count = count_pages(&PathBuf::from("final_handouts.pdf"), Some(&output))
        .expect("Failed to count pages in final PDF");
    assert_eq!(
        final_page_count, expected_total_pages,
        "Final PDF should have {} pages, got {}",
        expected_total_pages, final_page_count
    );
}

#[test]
fn overlay_copies_resources_that_a_page_refers_to() {
    // Two pages refer to one shared dictionary of resources.
    let mut source = document("S", 2);
    let pages = source.pages();
    let shared = dict(vec![(
        "Font",
        PdfObject::Dictionary(dict(vec![("Shared", reference(2))])),
    )]);
    let shared_id = source.add_object(PdfObject::Dictionary(shared)).unwrap();
    for page in &pages {
        let mut d = dict_of(&source, *page);
        d.set(key("Resources"), PdfObject::Reference(shared_id));
        source.set_object(*page, PdfObject::Dictionary(d));
    }
    let shared_before = format!("{:?}", dict_of(&source, shared_id));
    let source_max = source.max_id();
    let over = document("W", 2);
    let over_pages = over.pages();
    overlay_documents(&mut source, &pages, over, &over_pages).unwrap();
    for page in &pages {
        let d = dict_of(&source, *page);
        let fonts = sub(sub(&d, "Resources"), "Font");
        // The page holds what it referred to, and the fonts laid over it.
        assert!(matches!(fonts.get(b"Shared"), Some(PdfObject::Reference((2, 0)))));
        assert!(matches!(
            fonts.get(b"W"),
            Some(PdfObject::Reference(id)) if *id == (2 + source_max + 1, 0)
        ));
    }
    // The dictionary that the pages referred to is as it was.
    assert_eq!(format!("{:?}", dict_of(&source, shared_id)), shared_before);
}
