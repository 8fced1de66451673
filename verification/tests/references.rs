use pdf_handouts::pdf::{
    count_pages_from_catalog, detect_page_transform, key, merge_documents, stamp_document,
    wrap_page_content_in_graphics_state, HeaderFooterOptions, MergeSource, ObjectId, PdfDict,
    PdfDocument, PdfObject, PdfStream, TransformMatrix,
};

fn name(text: &str) -> PdfObject {
    PdfObject::Name(key(text))
}

fn stream(text: &str) -> PdfObject {
    PdfObject::Stream(PdfStream::new(PdfDict::new(), text.as_bytes().to_vec()))
}

/// A document in which `links` references, stored under the numbers 1 to
/// `links`, lead one to the next and the last to the integer 7.
fn chain(links: u32) -> PdfDocument {
    let mut doc = PdfDocument::with_version("1.5");
    for number in 1..=links {
        doc.set_object((number, 0), PdfObject::Reference((number + 1, 0)));
    }
    doc.set_object((links + 1, 0), PdfObject::Integer(7));
    doc
}

fn lopdf_chain(links: u32) -> lopdf::Document {
    let mut doc = lopdf::Document::with_version("1.5");
    for number in 1..=links {
        doc.objects.insert((number, 0), lopdf::Object::Reference((number + 1, 0)));
    }
    doc.objects.insert((links + 1, 0), lopdf::Object::Integer(7));
    doc
}

/// A one-page document in which the catalog, the page tree root, the page
/// and the page's content are each reached through a stored reference.
/// Returns the document with the identifiers that stand for the page, the
/// page itself and the content.
fn indirect_document() -> (PdfDocument, ObjectId, ObjectId, ObjectId) {
    let mut doc = PdfDocument::with_version("1.5");
    let content = doc.add_object(stream("0.5 0 0 0.5 10 20 cm\n(one) Tj")).unwrap();
    let content_alias = doc.add_object(PdfObject::Reference(content)).unwrap();
    let root = doc.new_object_id().unwrap();
    let root_alias = doc.add_object(PdfObject::Reference(root)).unwrap();
    let mut page = PdfDict::new();
    page.set(key("Type"), name("Page"));
    page.set(key("Parent"), PdfObject::Reference(root));
    page.set(key("Contents"), PdfObject::Reference(content_alias));
    let page = doc.add_object(PdfObject::Dictionary(page)).unwrap();
    let page_alias = doc.add_object(PdfObject::Reference(page)).unwrap();
    let mut tree = PdfDict::new();
    tree.set(key("Type"), name("Pages"));
    tree.set(key("Count"), PdfObject::Integer(1));
    tree.set(key("Kids"), PdfObject::Array(vec![PdfObject::Reference(page_alias)]));
    doc.set_object(root, PdfObject::Dictionary(tree));
    let mut catalog = PdfDict::new();
    catalog.set(key("Type"), name("Catalog"));
    catalog.set(key("Pages"), PdfObject::Reference(root_alias));
    let catalog = doc.add_object(PdfObject::Dictionary(catalog)).unwrap();
    let catalog_alias = doc.add_object(PdfObject::Reference(catalog)).unwrap();
    doc.set_trailer(key("Root"), PdfObject::Reference(catalog_alias));
    (doc, page_alias, page, content)
}

fn dict_of(doc: &PdfDocument, id: ObjectId) -> PdfDict {
    match doc.get_object(id) {
        Some(PdfObject::Dictionary(d)) => d.clone(),
        other => panic!("{:?} is {:?}", id, other),
    }
}

#[test]
fn lookup_follows_stored_references() {
    let doc = chain(3);
    assert!(matches!(doc.get_object((1, 0)), Some(PdfObject::Integer(7))));
    assert!(matches!(doc.get_object((4, 0)), Some(PdfObject::Integer(7))));
    // The stored object is the reference itself.
    assert!(matches!(doc.stored_object((1, 0)), Some(PdfObject::Reference((2, 0)))));
    assert!(doc.get_object((9, 0)).is_none());
    assert!(doc.stored_object((9, 0)).is_none());
}

#[test]
fn lookup_fails_where_the_chain_does_not_end() {
    let mut doc = PdfDocument::with_version("1.5");
    doc.set_object((1, 0), PdfObject::Reference((1, 0)));
    doc.set_object((2, 0), PdfObject::Reference((3, 0)));
    doc.set_object((3, 0), PdfObject::Reference((2, 0)));
    doc.set_object((4, 0), PdfObject::Reference((40, 0)));
    assert!(doc.get_object((1, 0)).is_none());
    assert!(doc.get_object((2, 0)).is_none());
    assert!(doc.get_object((4, 0)).is_none());
}

#[test]
fn lookup_follows_as_many_references_as_the_pdf_library() {
    for links in [0u32, 1, 127, 128, 129, 130, 200] {
        let ours = chain(links);
        let theirs = lopdf_chain(links);
        let expected = links <= 128;
        assert_eq!(theirs.get_object((1, 0)).is_ok(), expected, "{} links", links);
        assert_eq!(ours.get_object((1, 0)).is_some(), expected, "{} links", links);
        // From the second link on there is one reference less to follow.
        if links >= 2 {
            assert_eq!(ours.get_object((2, 0)).is_some(), links <= 129);
            assert_eq!(theirs.get_object((2, 0)).is_ok(), links <= 129);
        }
    }
}

#[test]
fn catalog_and_page_tree_are_read_through_references() {
    let (doc, page_alias, _, _) = indirect_document();
    assert_eq!(count_pages_from_catalog(&doc).unwrap(), 1);
    assert_eq!(doc.pages(), vec![page_alias]);
}

#[test]
fn transform_is_read_through_references() {
    let (doc, page_alias, page, _) = indirect_document();
    let expected =
        TransformMatrix { a: 500_000, b: 0, c: 0, d: 500_000, e: 10_000_000, f: 20_000_000 };
    assert_eq!(detect_page_transform(&doc, page_alias), expected);
    assert_eq!(detect_page_transform(&doc, page), expected);
}

#[test]
fn stamping_a_page_behind_a_reference_stores_it_under_its_identifier() {
    let (mut doc, page_alias, page, content) = indirect_document();
    let page_before = format!("{:?}", dict_of(&doc, page));
    let options = HeaderFooterOptions {
        title: Some("T".to_string()),
        ..HeaderFooterOptions::default()
    };
    stamp_document(&mut doc, &vec![page_alias], &options, b"font bytes").unwrap();
    // The changed page is stored under the identifier that was given.
    let stamped = match doc.stored_object(page_alias) {
        Some(PdfObject::Dictionary(d)) => d.clone(),
        other => panic!("unexpected {:?}", other),
    };
    match stamped.get(b"Resources") {
        Some(PdfObject::Dictionary(r)) => match r.get(b"XObject") {
            Some(PdfObject::Dictionary(x)) => assert!(x.has(b"HeaderFooter")),
            other => panic!("unexpected {:?}", other),
        },
        other => panic!("unexpected {:?}", other),
    }
    match stamped.get(b"Contents") {
        Some(PdfObject::Array(items)) => assert_eq!(items.len(), 3),
        other => panic!("unexpected {:?}", other),
    }
    // The object that the reference led to, and the content, are as they were.
    assert_eq!(format!("{:?}", dict_of(&doc, page)), page_before);
    assert!(matches!(
        doc.get_object(content),
        Some(PdfObject::Stream(s)) if s.content == b"0.5 0 0 0.5 10 20 cm\n(one) Tj"
    ));
    assert_eq!(count_pages_from_catalog(&doc).unwrap(), 1);
}

#[test]
fn stamping_reports_a_page_whose_references_lead_nowhere() {
    let (mut doc, _, _, _) = indirect_document();
    let dangling = doc.add_object(PdfObject::Reference((900, 0))).unwrap();
    let before = format!("{:?}", doc);
    let result = stamp_document(&mut doc, &vec![dangling], &HeaderFooterOptions::default(), b"f");
    assert_eq!(result.unwrap_err().message(), "PDF error: Page object not found");
    assert_eq!(format!("{:?}", doc), before);
}

#[test]
fn wrapping_reads_page_and_contents_through_references() {
    let (mut doc, page_alias, page, content) = indirect_document();
    let page_before = format!("{:?}", dict_of(&doc, page));
    wrap_page_content_in_graphics_state(&mut doc, page_alias).unwrap();
    let wrapped = match doc.stored_object(page_alias) {
        Some(PdfObject::Dictionary(d)) => match d.get(b"Contents") {
            Some(PdfObject::Reference(id)) => *id,
            other => panic!("unexpected {:?}", other),
        },
        other => panic!("unexpected {:?}", other),
    };
    assert!(wrapped != content);
    assert!(matches!(
        doc.get_object(wrapped),
        Some(PdfObject::Stream(s)) if s.content == b"q\n0.5 0 0 0.5 10 20 cm\n(one) Tj\nQ\n"
    ));
    assert_eq!(format!("{:?}", dict_of(&doc, page)), page_before);
    // The transform is now between a save and a restore.
    assert!(detect_page_transform(&doc, page_alias).is_identity());
}

#[test]
fn merging_gives_a_page_behind_a_reference_its_new_parent() {
    let (doc, page_alias, page, _) = indirect_document();
    // The first input is moved up by one object number.
    let offset = 1u32;
    let merged = merge_documents(vec![MergeSource { pages: doc.pages(), document: doc }]).unwrap();
    let pages = merged.pages();
    assert_eq!(pages, vec![(page_alias.0 + offset, 0)]);
    let root = match dict_of(&merged, pages[0]).get(b"Parent") {
        Some(PdfObject::Reference(id)) => *id,
        other => panic!("unexpected {:?}", other),
    };
    match dict_of(&merged, root).get(b"Kids") {
        Some(PdfObject::Array(kids)) => {
            assert_eq!(kids.len(), 1);
            assert!(matches!(kids[0], PdfObject::Reference(id) if id == pages[0]));
        }
        other => panic!("unexpected {:?}", other),
    }
    // The page is stored under its own identifier; the object that the
    // reference led to keeps the parent it had.
    assert!(matches!(merged.stored_object(pages[0]), Some(PdfObject::Dictionary(_))));
    assert!(!matches!(
        dict_of(&merged, (page.0 + offset, 0)).get(b"Parent"),
        Some(PdfObject::Reference(id)) if *id == root
    ));
    assert_eq!(count_pages_from_catalog(&merged).unwrap(), 1);
}
