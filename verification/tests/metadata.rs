use pdf_handouts::pdf::{
    count_pages, count_pages_from_catalog, extract_metadata, key, PdfDict, PdfDocument, PdfObject,
    StringFormat,
};
use pdf_handouts::Error;
use std::path::{Path, PathBuf};

fn name(text: &str) -> PdfObject {
    PdfObject::Name(key(text))
}

fn document(count: i64, info: Option<PdfDict>) -> PdfDocument {
    let mut doc = PdfDocument::with_version("1.4");
    let mut tree = PdfDict::new();
    tree.set(key("Type"), name("Pages"));
    tree.set(key("Count"), PdfObject::Integer(count));
    tree.set(key("Kids"), PdfObject::Array(vec![]));
    let tree = doc.add_object(PdfObject::Dictionary(tree)).unwrap();
    let mut catalog = PdfDict::new();
    catalog.set(key("Type"), name("Catalog"));
    catalog.set(key("Pages"), PdfObject::Reference(tree));
    let catalog = doc.add_object(PdfObject::Dictionary(catalog)).unwrap();
    doc.set_trailer(key("Root"), PdfObject::Reference(catalog));
    if let Some(info) = info {
        let info = doc.add_object(PdfObject::Dictionary(info)).unwrap();
        doc.set_trailer(key("Info"), PdfObject::Reference(info));
    }
    doc
}

#[test]
fn test_count_pages_nonexistent_file() {
    let result = count_pages(&PathBuf::from("nonexistent.pdf"), None);
    assert!(result.is_err());
    assert!(matches!(result.unwrap_err(), Error::FileNotFound(_)));
}

#[test]
fn test_extract_metadata_nonexistent_file() {
    let result = extract_metadata(&PathBuf::from("nonexistent.pdf"), None);
    assert!(result.is_err());
    assert!(matches!(result.unwrap_err(), Error::FileNotFound(_)));
}

#[test]
fn test_count_pages_real_pdfs() {
    // Documents that declare one, one, six and six pages.
    for expected_pages in [1usize, 1, 6, 6] {
        let bytes = document(expected_pages as i64, None).save().unwrap();
        let page_count =
            count_pages(&PathBuf::from("x.pdf"), Some(&bytes)).expect("Failed to count pages");
        assert_eq!(page_count, expected_pages);
    }
}

#[test]
fn counting_reports_each_defect() {
    let text = |doc: &PdfDocument| count_pages_from_catalog(doc).unwrap_err().message();
    let empty = PdfDocument::with_version("1.4");
    assert_eq!(text(&empty), "No Root in trailer");

    let mut doc = PdfDocument::with_version("1.4");
    doc.set_trailer(key("Root"), PdfObject::Integer(1));
    assert_eq!(text(&doc), "Root is not a reference");
    doc.set_trailer(key("Root"), PdfObject::Reference((1, 0)));
    assert_eq!(text(&doc), "PDF error: Catalog object not found");
    doc.set_object((1, 0), PdfObject::Null);
    assert_eq!(text(&doc), "Catalog is not a dictionary");
    doc.set_object((1, 0), PdfObject::Dictionary(PdfDict::new()));
    assert_eq!(text(&doc), "No Pages in catalog");
    let mut catalog = PdfDict::new();
    catalog.set(key("Pages"), PdfObject::Boolean(true));
    doc.set_object((1, 0), PdfObject::Dictionary(catalog.clone()));
    assert_eq!(text(&doc), "Pages is not a reference");
    catalog.set(key("Pages"), PdfObject::Reference((2, 0)));
    doc.set_object((1, 0), PdfObject::Dictionary(catalog));
    assert_eq!(text(&doc), "PDF error: Pages object not found");
    doc.set_object((2, 0), PdfObject::Array(vec![]));
    assert_eq!(text(&doc), "Pages is not a dictionary");
    doc.set_object((2, 0), PdfObject::Dictionary(PdfDict::new()));
    assert_eq!(text(&doc), "No Count in Pages");
    let mut pages = PdfDict::new();
    pages.set(key("Count"), PdfObject::Real("2.0".to_string()));
    doc.set_object((2, 0), PdfObject::Dictionary(pages.clone()));
    assert_eq!(text(&doc), "Count is not an integer");
    pages.set(key("Count"), PdfObject::Integer(-1));
    doc.set_object((2, 0), PdfObject::Dictionary(pages.clone()));
    assert_eq!(text(&doc), "Count is out of range");
    pages.set(key("Count"), PdfObject::Integer(12));
    doc.set_object((2, 0), PdfObject::Dictionary(pages));
    assert_eq!(count_pages_from_catalog(&doc).unwrap(), 12);
}

#[test]
fn files_without_pages_or_content_are_errors() {
    let path = PathBuf::from("odd.pdf");
    let zero = document(0, None).save().unwrap();
    match count_pages(&path, Some(&zero)) {
        Err(Error::EmptyPdf(p)) => assert_eq!(p, Path::new("odd.pdf")),
        other => panic!("unexpected {:?}", other),
    }
    assert!(matches!(extract_metadata(&path, Some(&zero)), Err(Error::EmptyPdf(_))));
    let junk = b"junk".to_vec();
    assert!(matches!(count_pages(&path, Some(&junk)), Err(Error::Pdf(_))));
    assert!(matches!(extract_metadata(&path, Some(&junk)), Err(Error::Pdf(_))));
}

#[test]
fn metadata_reads_title_and_author() {
    let mut info = PdfDict::new();
    info.set(key("Title"), PdfObject::String("Bridge Notes".as_bytes().to_vec(), StringFormat::Literal));
    info.set(key("Author"), PdfObject::String(vec![0xff, 0xfe], StringFormat::Literal));
    let bytes = document(3, Some(info)).save().unwrap();
    let m = extract_metadata(&PathBuf::from("x.pdf"), Some(&bytes)).unwrap();
    assert_eq!(m.page_count, 3);
    assert_eq!(m.title.as_deref(), Some("Bridge Notes"));
    // Bytes that are no UTF-8 give no text.
    assert_eq!(m.author, None);

    let mut info = PdfDict::new();
    info.set(key("Title"), name("NotAString"));
    info.set(key("Author"), PdfObject::String("Zoë".as_bytes().to_vec(), StringFormat::Hexadecimal));
    let bytes = document(1, Some(info)).save().unwrap();
    let m = extract_metadata(&PathBuf::from("x.pdf"), Some(&bytes)).unwrap();
    assert_eq!(m.title, None);
    assert_eq!(m.author.as_deref(), Some("Zoë"));

    let bytes = document(2, None).save().unwrap();
    let m = extract_metadata(&PathBuf::from("x.pdf"), Some(&bytes)).unwrap();
    assert_eq!((m.page_count, m.title, m.author), (2, None, None));
}
