use lopdf::{Dictionary, Document, EncryptionState, EncryptionVersion, Object, Permissions, Stream};
use pdf_handouts::pdf::{
    add_headers_footers, count_pages, merge_pdfs, overlay_watermark, HeaderFooterOptions,
    MergeOptions, PdfDocument,
};
use pdf_handouts::Error;
use std::path::PathBuf;

/// A one-page document with the entries that encryption needs.
fn one_page() -> Document {
    let mut doc = Document::with_version("1.5");
    let root = doc.new_object_id();
    let content = doc.add_object(Stream::new(Dictionary::new(), b"BT (secret) Tj ET".to_vec()));
    let mut page = Dictionary::new();
    page.set("Type", Object::Name(b"Page".to_vec()));
    page.set("Parent", Object::Reference(root));
    page.set("Contents", Object::Reference(content));
    let page = doc.add_object(page);
    let mut tree = Dictionary::new();
    tree.set("Type", Object::Name(b"Pages".to_vec()));
    tree.set("Count", Object::Integer(1));
    tree.set("Kids", Object::Array(vec![Object::Reference(page)]));
    doc.objects.insert(root, Object::Dictionary(tree));
    let mut catalog = Dictionary::new();
    catalog.set("Type", Object::Name(b"Catalog".to_vec()));
    catalog.set("Pages", Object::Reference(root));
    let catalog = doc.add_object(catalog);
    doc.trailer.set("Root", Object::Reference(catalog));
    doc.trailer.set(
        "ID",
        Object::Array(vec![
            Object::string_literal(vec![1u8; 16]),
            Object::string_literal(vec![2u8; 16]),
        ]),
    );
    doc
}

fn plain_bytes() -> Vec<u8> {
    let mut out = Vec::new();
    one_page().save_to(&mut out).unwrap();
    out
}

/// The bytes of the document, encrypted so that `user_password` opens it.
fn encrypted_bytes(user_password: &str) -> Vec<u8> {
    let mut doc = one_page();
    let state = EncryptionState::try_from(EncryptionVersion::V1 {
        document: &doc,
        owner_password: "owner",
        user_password,
        permissions: Permissions::all(),
    })
    .unwrap();
    doc.encrypt(&state).unwrap();
    let mut out = Vec::new();
    doc.save_to(&mut out).unwrap();
    out
}

#[test]
fn a_document_that_had_to_be_decrypted_is_not_read() {
    let bytes = encrypted_bytes("");
    // The PDF library opens the file with the empty password and decrypts it.
    let theirs = Document::load_mem(&bytes).unwrap();
    assert!(theirs.was_encrypted());
    assert_eq!(theirs.get_pages().len(), 1);
    // This library does not hand such a document on.
    match PdfDocument::load(&bytes) {
        Err(Error::Pdf(message)) => {
            assert_eq!(message, "Encrypted PDF files are not supported")
        }
        other => panic!("unexpected {:?}", other.map(|d| d.len())),
    }
    // The same bytes without encryption are read.
    let plain = PdfDocument::load(&plain_bytes()).unwrap();
    assert_eq!(plain.pages().len(), 1);
}

#[test]
fn every_operation_on_files_rejects_an_encrypted_input() {
    let secret = encrypted_bytes("");
    let plain = plain_bytes();
    let options = MergeOptions {
        input_paths: vec![PathBuf::from("a.pdf"), PathBuf::from("b.pdf")],
        output_path: PathBuf::from("out.pdf"),
    };
    let inputs = vec![Some(plain.clone()), Some(secret.clone())];
    assert!(matches!(merge_pdfs(&options, &inputs), Err(Error::Pdf(_))));
    assert!(matches!(count_pages(&PathBuf::from("b.pdf"), Some(&secret)), Err(Error::Pdf(_))));
    assert!(matches!(
        add_headers_footers(&secret, &HeaderFooterOptions::default(), b"font"),
        Err(Error::Pdf(_))
    ));
    assert!(matches!(overlay_watermark(&secret, &plain), Err(Error::Pdf(_))));
    assert!(matches!(overlay_watermark(&plain, &secret), Err(Error::Pdf(_))));
    // Without the encrypted input each of them succeeds.
    let inputs = vec![Some(plain.clone()), Some(plain.clone())];
    assert!(merge_pdfs(&options, &inputs).is_ok());
    assert_eq!(count_pages(&PathBuf::from("a.pdf"), Some(&plain)).unwrap(), 1);
    assert!(overlay_watermark(&plain, &plain).is_ok());
}

#[test]
fn a_file_that_needs_a_password_has_no_pages_to_offer() {
    let bytes = encrypted_bytes("user");
    // The PDF library cannot open it and hands back a document without its
    // objects; nothing was decrypted.
    let theirs = Document::load_mem(&bytes).unwrap();
    assert!(!theirs.was_encrypted());
    assert!(theirs.get_pages().is_empty());
    let ours = PdfDocument::load(&bytes).unwrap();
    assert!(ours.pages().is_empty());
    assert!(count_pages(&PathBuf::from("locked.pdf"), Some(&bytes)).is_err());
}
