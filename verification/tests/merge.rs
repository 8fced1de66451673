use pdf_handouts::pdf::{
    count_pages_from_catalog, key, merge_documents, merge_pdfs, renumber_object_references,
    MergeOptions, MergeSource, ObjectId, PdfDict, PdfDocument, PdfObject, PdfStream,
};
use pdf_handouts::Error;
use std::path::{Path, PathBuf};

fn name(text: &str) -> PdfObject {
    PdfObject::Name(key(text))
}

fn stream(content: &str) -> PdfObject {
    let mut dict = PdfDict::new();
    dict.set(key("Length"), PdfObject::Integer(content.len() as i64));
    PdfObject::Stream(PdfStream {
        dict,
        content: content.as_bytes().to_vec(),
        allows_compression: true,
        start_position: None,
    })
}

/// A document with `pages` pages; page `i` draws the text `label i`.
fn sample(label: &str, pages: usize) -> PdfDocument {
    let mut doc = PdfDocument::with_version("1.5");
    let pages_id = doc.new_object_id().unwrap();
    let mut kids = Vec::new();
    for i in 0..pages {
        let content = format!("BT /F1 12 Tf ({} {}) Tj ET", label, i);
        let content_id = doc.add_object(stream(&content)).unwrap();
        let mut page = PdfDict::new();
        page.set(key("Type"), name("Page"));
        page.set(key("Parent"), PdfObject::Reference(pages_id));
        page.set(key("Contents"), PdfObject::Reference(content_id));
        let page_id = doc.add_object(PdfObject::Dictionary(page)).unwrap();
        kids.push(PdfObject::Reference(page_id));
    }
    let mut tree = PdfDict::new();
    tree.set(key("Type"), name("Pages"));
    tree.set(key("Count"), PdfObject::Integer(pages as i64));
    tree.set(key("Kids"), PdfObject::Array(kids));
    doc.set_object(pages_id, PdfObject::Dictionary(tree));
    let mut catalog = PdfDict::new();
    catalog.set(key("Type"), name("Catalog"));
    catalog.set(key("Pages"), PdfObject::Reference(pages_id));
    let catalog_id = doc.add_object(PdfObject::Dictionary(catalog)).unwrap();
    doc.set_trailer(key("Root"), PdfObject::Reference(catalog_id));
    doc
}

fn sample_bytes(label: &str, pages: usize) -> Vec<u8> {
    sample(label, pages).save().unwrap()
}

fn options(names: &[&str]) -> MergeOptions {
    MergeOptions {
        input_paths: names.iter().map(PathBuf::from).collect(),
        output_path: PathBuf::from("merged.pdf"),
    }
}

fn page_text(doc: &PdfDocument, page: ObjectId) -> String {
    let dict = match doc.get_object(page) {
        Some(PdfObject::Dictionary(d)) => d,
        other => panic!("page is {:?}", other),
    };
    let content = match dict.get(b"Contents") {
        Some(PdfObject::Reference(id)) => *id,
        other => panic!("contents is {:?}", other),
    };
    match doc.get_object(content) {
        Some(PdfObject::Stream(s)) => String::from_utf8(s.content.clone()).unwrap(),
        other => panic!("content is {:?}", other),
    }
}

#[test]
fn test_merge_options_creation() {
    let options = MergeOptions {
        input_paths: vec![PathBuf::from("test1.pdf"), PathBuf::from("test2.pdf")],
        output_path: PathBuf::from("merged.pdf"),
    };

    assert_eq!(options.input_paths.len(), 2);
    assert_eq!(options.output_path, Path::new("merged.pdf"));
}

#[test]
fn test_merge_empty_input_list() {
    let options = MergeOptions {
        input_paths: vec![],
        output_path: PathBuf::from("empty.pdf"),
    };

    let result = merge_pdfs(&options, &vec![]);
    assert!(result.is_err(), "Should fail with empty input list");

    let err_msg = result.unwrap_err().message();
    assert!(
        err_msg.contains("No input files"),
        "Error message should mention no input files"
    );
}

#[test]
fn test_merge_nonexistent_file() {
    let options = MergeOptions {
        input_paths: vec![PathBuf::from("nonexistent.pdf")],
        output_path: PathBuf::from("output.pdf"),
    };

    let result = merge_pdfs(&options, &vec![None]);
    assert!(result.is_err(), "Should fail with nonexistent file");

    let err_msg = result.unwrap_err().message();
    assert!(
        err_msg.contains("not found") || err_msg.contains("nonexistent"),
        "Error should mention file not found: {}",
        err_msg
    );
}

#[test]
fn merge_reports_the_first_missing_path() {
    let options = options(&["a.pdf", "b.pdf", "c.pdf"]);
    let contents = vec![Some(sample_bytes("a", 1)), None, None];
    match merge_pdfs(&options, &contents) {
        Err(Error::FileNotFound(p)) => assert_eq!(p, Path::new("b.pdf")),
        other => panic!("unexpected {:?}", other.map(|b| b.len())),
    }
    // A path without an entry counts as missing.
    match merge_pdfs(&options, &vec![Some(sample_bytes("a", 1))]) {
        Err(Error::FileNotFound(p)) => assert_eq!(p, Path::new("b.pdf")),
        other => panic!("unexpected {:?}", other.map(|b| b.len())),
    }
}

#[test]
fn merge_rejects_bytes_that_are_no_pdf() {
    let options = options(&["a.pdf", "junk.pdf"]);
    let contents = vec![Some(sample_bytes("a", 1)), Some(b"not a pdf".to_vec())];
    assert!(matches!(merge_pdfs(&options, &contents), Err(Error::Pdf(_))));
}

#[test]
fn merge_rejects_a_document_without_pages() {
    let options = options(&["a.pdf", "empty.pdf"]);
    let contents = vec![Some(sample_bytes("a", 2)), Some(sample_bytes("e", 0))];
    match merge_pdfs(&options, &contents) {
        Err(Error::EmptyPdf(p)) => assert_eq!(p, Path::new("empty.pdf")),
        other => panic!("unexpected {:?}", other.map(|b| b.len())),
    }
}

#[test]
fn test_merge_real_pdfs_page_count() {
    // Four inputs of one, one, six and six pages.
    let counts = [1usize, 1, 6, 6];
    let names = ["1.pdf", "2.pdf", "3.pdf", "4.pdf"];
    let contents: Vec<Option<Vec<u8>>> = counts
        .iter()
        .zip(names.iter())
        .map(|(n, label)| Some(sample_bytes(label, *n)))
        .collect();
    let expected_total_pages: usize = counts.iter().sum();

    let merged = merge_pdfs(&options(&names), &contents).expect("Failed to merge PDFs");
    let doc = PdfDocument::load(&merged).expect("merged output does not load");
    let merged_page_count =
        count_pages_from_catalog(&doc).expect("Failed to count pages in merged PDF");

    assert_eq!(expected_total_pages, 14);
    assert_eq!(
        merged_page_count, expected_total_pages,
        "Merged PDF should have {} pages (sum of all inputs), got {}",
        expected_total_pages, merged_page_count
    );
    assert_eq!(doc.pages().len(), 14);
}

#[test]
fn test_merge_preserves_content_order() {
    let names = ["1.pdf", "2.pdf", "3.pdf"];
    let counts = [1usize, 1, 6];
    let contents: Vec<Option<Vec<u8>>> = counts
        .iter()
        .zip(names.iter())
        .map(|(n, label)| Some(sample_bytes(label, *n)))
        .collect();
    let merged = merge_pdfs(&options(&names), &contents).expect("Failed to merge PDFs");
    let mut doc = PdfDocument::load(&merged).expect("merged output does not load");
    doc.decompress();

    assert_eq!(count_pages_from_catalog(&doc).expect("Failed to count pages"), 8);
    let texts: Vec<String> = doc.pages().iter().map(|p| page_text(&doc, *p)).collect();
    let mut expected = Vec::new();
    for (n, label) in counts.iter().zip(names.iter()) {
        for i in 0..*n {
            expected.push(format!("BT /F1 12 Tf ({} {}) Tj ET", label, i));
        }
    }
    assert_eq!(texts, expected);
}

#[test]
fn merged_document_has_fresh_root_and_reparented_pages() {
    let a = sample("a", 2);
    let b = sample("b", 3);
    let a_max = a.max_id();
    let b_max = b.max_id();
    let objects = a.len() + b.len();
    let sources = vec![
        MergeSource { pages: a.pages(), document: a },
        MergeSource { pages: b.pages(), document: b },
    ];
    let merged = merge_documents(sources).unwrap();

    // Every object of both inputs is there, and the new root and catalog.
    assert_eq!(objects, 6 + 8);
    assert_eq!(merged.len(), objects + 2);
    // The first input moves up by 1, the second by what the first leaves free.
    let second_offset = 1 + a_max + 1;
    let pages_id = (second_offset + b_max + 1, 0);
    let catalog_id = (pages_id.0 + 1, 0);
    assert_eq!(merged.max_id(), catalog_id.0);
    assert!(matches!(
        merged.trailer().get(b"Root"),
        Some(PdfObject::Reference(id)) if *id == catalog_id
    ));
    let ids = merged.object_ids();
    for (i, id) in ids.iter().enumerate() {
        assert!(id.0 <= merged.max_id());
        assert!(!ids[..i].contains(id), "identifier {:?} stored twice", id);
    }
    let pages = merged.pages();
    assert_eq!(pages.len(), 5);
    for page in pages {
        match merged.get_object(page) {
            Some(PdfObject::Dictionary(d)) => assert!(matches!(
                d.get(b"Parent"),
                Some(PdfObject::Reference(id)) if *id == pages_id
            )),
            other => panic!("page is {:?}", other),
        }
    }
    assert_eq!(count_pages_from_catalog(&merged).unwrap(), 5);
}

#[test]
fn merge_of_no_documents_is_an_empty_tree() {
    let merged = merge_documents(vec![]).unwrap();
    assert_eq!(merged.max_id(), 2);
    assert_eq!(count_pages_from_catalog(&merged).unwrap(), 0);
}

#[test]
fn merge_fails_when_object_numbers_run_out() {
    let mut big = sample("a", 1);
    big.raise_max_id(u32::MAX - 2);
    let sources = vec![MergeSource { pages: big.pages(), document: big }];
    assert!(merge_documents(sources).is_none());
}

#[test]
fn renumbering_moves_every_reference() {
    let mut inner = PdfDict::new();
    inner.set(key("A"), PdfObject::Reference((3, 0)));
    let object = PdfObject::Array(vec![
        PdfObject::Reference((1, 2)),
        PdfObject::Integer(7),
        PdfObject::Dictionary(inner),
        PdfObject::Reference((u32::MAX, 0)),
    ]);
    match renumber_object_references(&object, 10) {
        PdfObject::Array(items) => {
            assert!(matches!(items[0], PdfObject::Reference((11, 2))));
            assert!(matches!(items[1], PdfObject::Integer(7)));
            match &items[2] {
                PdfObject::Dictionary(d) => {
                    assert!(matches!(d.get(b"A"), Some(PdfObject::Reference((13, 0)))))
                }
                other => panic!("unexpected {:?}", other),
            }
            // A number that cannot move stays.
            assert!(matches!(items[3], PdfObject::Reference((u32::MAX, 0))));
        }
        other => panic!("unexpected {:?}", other),
    }
}

#[test]
fn store_keeps_its_counter_above_every_identifier() {
    let mut doc = PdfDocument::with_version("1.7");
    assert_eq!(doc.max_id(), 0);
    doc.set_object((5, 0), PdfObject::Null);
    assert_eq!(doc.max_id(), 5);
    assert_eq!(doc.add_object(PdfObject::Boolean(true)), Some((6, 0)));
    doc.merge_bulk(vec![((9, 1), PdfObject::Integer(1)), ((2, 0), PdfObject::Integer(2))]);
    assert_eq!(doc.max_id(), 9);
    assert_eq!(doc.new_object_id(), Some((10, 0)));
    assert!(doc.has_object((9, 1)));
    assert!(!doc.has_object((9, 0)));
    assert!(doc.get_object((7, 0)).is_none());
    assert!(doc.renumber(100));
    assert_eq!(doc.max_id(), 110);
    assert!(doc.has_object((105, 0)) && doc.has_object((109, 1)) && doc.has_object((102, 0)));
    assert!(!doc.renumber(u32::MAX));
    assert_eq!(doc.max_id(), 110);
}

#[test]
fn saved_document_loads_back() {
    let doc = sample("x", 3);
    let bytes = doc.save().unwrap();
    assert!(bytes.starts_with(b"%PDF-1.5"));
    let back = PdfDocument::load(&bytes).unwrap();
    assert_eq!(back.pages().len(), 3);
    assert_eq!(count_pages_from_catalog(&back).unwrap(), 3);
    assert!(matches!(PdfDocument::load(b"garbage"), Err(Error::Pdf(_))));
}

#[test]
fn compression_round_trips_through_decompression() {
    let mut doc = PdfDocument::with_version("1.5");
    let text = "0 0 m 10 10 l S\n".repeat(200);
    let id = doc.add_object(stream(&text)).unwrap();
    doc.compress();
    match doc.get_object(id) {
        Some(PdfObject::Stream(s)) => {
            assert!(s.content.len() < text.len());
            assert!(s.dict.has(b"Filter"));
        }
        other => panic!("unexpected {:?}", other),
    }
    doc.decompress();
    match doc.get_object(id) {
        Some(PdfObject::Stream(s)) => {
            assert_eq!(s.content, text.as_bytes());
            assert!(!s.dict.has(b"Filter"));
        }
        other => panic!("unexpected {:?}", other),
    }
}
