//! What a document says of itself: its page count and its description.

use crate::error::Error;
use crate::pdf::codec::loaded;
use crate::pdf::document::{normalized, resolved, DocumentValue, PdfDocument};
use crate::pdf::stamp::entry;
use crate::pdf::object::{key, name, PdfObject, Value};
use std::path::PathBuf;
use vstd::prelude::*;
use vstd::utf8::{decode_utf8, valid_utf8};

verus! {

/// What a document says of itself.
#[derive(Debug, Clone)]
pub struct PdfMetadata {
    /// The number of pages.
    pub page_count: usize,
    /// The title, if the document has one.
    pub title: Option<String>,
    /// The author, if the document names one.
    pub author: Option<String>,
}

/// Why the page count of a document cannot be read off its catalog.
pub enum CatalogDefect {
    NoRoot,
    RootNotReference,
    CatalogMissing,
    CatalogNotDictionary,
    NoPages,
    PagesNotReference,
    PagesMissing,
    PagesNotDictionary,
    NoCount,
    CountNotInteger,
    CountOutOfRange,
}

/// The page count that a document declares: the `Count` of the page tree
/// root that the catalog names, where the trailer names the catalog as
/// `Root`. The catalog and the page tree root are the objects that their
/// identifiers stand for, which may be stored behind references. Each link of
/// that chain that is missing or of the wrong kind is a defect of its own.
pub open spec fn declared_page_count(doc: DocumentValue) -> Result<int, CatalogDefect> {
    if !doc.trailer.contains_key(name("Root")) {
        Err(CatalogDefect::NoRoot)
    } else if !(doc.trailer[name("Root")] is Reference) {
        Err(CatalogDefect::RootNotReference)
    } else {
        let catalog_id = doc.trailer[name("Root")]->Reference_0;
        if resolved(doc.objects, catalog_id) is None {
            Err(CatalogDefect::CatalogMissing)
        } else if !(resolved(doc.objects, catalog_id)->0 is Dictionary) {
            Err(CatalogDefect::CatalogNotDictionary)
        } else {
            let catalog = resolved(doc.objects, catalog_id)->0->Dictionary_0;
            if !catalog.contains_key(name("Pages")) {
                Err(CatalogDefect::NoPages)
            } else if !(catalog[name("Pages")] is Reference) {
                Err(CatalogDefect::PagesNotReference)
            } else {
                let pages_id = catalog[name("Pages")]->Reference_0;
                if resolved(doc.objects, pages_id) is None {
                    Err(CatalogDefect::PagesMissing)
                } else if !(resolved(doc.objects, pages_id)->0 is Dictionary) {
                    Err(CatalogDefect::PagesNotDictionary)
                } else {
                    let pages = resolved(doc.objects, pages_id)->0->Dictionary_0;
                    if !pages.contains_key(name("Count")) {
                        Err(CatalogDefect::NoCount)
                    } else if !(pages[name("Count")] is Integer) {
                        Err(CatalogDefect::CountNotInteger)
                    } else {
                        let n = pages[name("Count")]->Integer_0;
                        if 0 <= n <= usize::MAX {
                            Ok(n as int)
                        } else {
                            Err(CatalogDefect::CountOutOfRange)
                        }
                    }
                }
            }
        }
    }
}

/// The message for each defect.
pub open spec fn defect_text(d: CatalogDefect) -> Seq<char> {
    match d {
        CatalogDefect::NoRoot => "No Root in trailer"@,
        CatalogDefect::RootNotReference => "Root is not a reference"@,
        CatalogDefect::CatalogMissing => "Catalog object not found"@,
        CatalogDefect::CatalogNotDictionary => "Catalog is not a dictionary"@,
        CatalogDefect::NoPages => "No Pages in catalog"@,
        CatalogDefect::PagesNotReference => "Pages is not a reference"@,
        CatalogDefect::PagesMissing => "Pages object not found"@,
        CatalogDefect::PagesNotDictionary => "Pages is not a dictionary"@,
        CatalogDefect::NoCount => "No Count in Pages"@,
        CatalogDefect::CountNotInteger => "Count is not an integer"@,
        CatalogDefect::CountOutOfRange => "Count is out of range"@,
    }
}

/// Whether `e` is the error for the defect `d`: a missing object is an error
/// of the PDF, every other defect a general one; both carry the defect's
/// message.
pub open spec fn reports(e: Error, d: CatalogDefect) -> bool {
    match d {
        CatalogDefect::CatalogMissing | CatalogDefect::PagesMissing => e matches Error::Pdf(m)
            && m@ == defect_text(d),
        _ => e matches Error::General(m) && m@ == defect_text(d),
    }
}

/// The page count that `doc` declares in the `Count` field of the page tree
/// root that its catalog names, or the error for the first defect on the way
/// there.
pub fn count_pages_from_catalog(doc: &PdfDocument) -> (r: Result<usize, Error>)
    ensures
        match declared_page_count(doc@) {
            Ok(n) => r matches Ok(m) && m == n,
            Err(d) => r matches Err(e) && reports(e, d),
        },
{
    let catalog_id = match doc.trailer().get(key("Root").as_slice()) {
        None => {
            return Err(Error::General("No Root in trailer".to_owned()));
        },
        Some(PdfObject::Reference(id)) => *id,
        Some(_) => {
            return Err(Error::General("Root is not a reference".to_owned()));
        },
    };
    let catalog = match doc.get_object(catalog_id) {
        None => {
            return Err(Error::Pdf("Catalog object not found".to_owned()));
        },
        Some(PdfObject::Dictionary(d)) => d,
        Some(_) => {
            return Err(Error::General("Catalog is not a dictionary".to_owned()));
        },
    };
    let pages_id = match catalog.get(key("Pages").as_slice()) {
        None => {
            return Err(Error::General("No Pages in catalog".to_owned()));
        },
        Some(PdfObject::Reference(id)) => *id,
        Some(_) => {
            return Err(Error::General("Pages is not a reference".to_owned()));
        },
    };
    let pages = match doc.get_object(pages_id) {
        None => {
            return Err(Error::Pdf("Pages object not found".to_owned()));
        },
        Some(PdfObject::Dictionary(d)) => d,
        Some(_) => {
            return Err(Error::General("Pages is not a dictionary".to_owned()));
        },
    };
    match pages.get(key("Count").as_slice()) {
        None => Err(Error::General("No Count in Pages".to_owned())),
        Some(PdfObject::Integer(n)) => {
            if *n < 0 || *n as u64 > usize::MAX as u64 {
                Err(Error::General("Count is out of range".to_owned()))
            } else {
                Ok(*n as usize)
            }
        },
        Some(_) => Err(Error::General("Count is not an integer".to_owned())),
    }
}

/// Reads bytes as UTF-8 text with `String::from_utf8`, which gives the text
/// that the bytes encode, and nothing for bytes that are no valid UTF-8.
#[verifier::external_body]
fn utf8_text(bytes: &[u8]) -> (r: Option<String>)
    ensures
        r is Some == valid_utf8(bytes@),
        r matches Some(s) ==> s@ == decode_utf8(bytes@),
{
    String::from_utf8(bytes.to_vec()).ok()
}

/// The text of the entry `key` of the information dictionary that the
/// trailer refers to as `Info`, where the entry is a string of valid UTF-8.
pub open spec fn info_text(doc: DocumentValue, key: Seq<u8>) -> Option<Seq<char>> {
    match entry(doc.trailer, name("Info")) {
        Some(Value::Reference(id)) => match resolved(doc.objects, id) {
            Some(Value::Dictionary(info)) => match entry(info, key) {
                Some(Value::String(bytes, _)) => if valid_utf8(bytes) {
                    Some(decode_utf8(bytes))
                } else {
                    None
                },
                _ => None,
            },
            _ => None,
        },
        _ => None,
    }
}

/// The model of an optional text.
pub open spec fn text_view(text: Option<String>) -> Option<Seq<char>> {
    match text {
        Some(t) => Some(t@),
        None => None,
    }
}

/// Reads a text entry of the information dictionary (see [`info_text`]).
fn read_info(doc: &PdfDocument, key: &str) -> (r: Option<String>)
    ensures
        text_view(r) == info_text(doc@, name(key)),
{
    match doc.trailer().get(crate::pdf::object::key("Info").as_slice()) {
        Some(PdfObject::Reference(id)) => match doc.get_object(*id) {
            Some(PdfObject::Dictionary(info)) => match info.get(
                crate::pdf::object::key(key).as_slice(),
            ) {
                Some(PdfObject::String(bytes, _)) => utf8_text(bytes.as_slice()),
                _ => None,
            },
            _ => None,
        },
        _ => None,
    }
}

/// How reading the description of a file ends.
pub enum MetadataOutcome {
    /// The file does not exist.
    Missing,
    /// The bytes are no PDF that can be read: no PDF at all, or an encrypted
    /// one.
    Unreadable,
    /// The page count cannot be read off the catalog.
    Defective(CatalogDefect),
    /// The document declares no pages.
    Empty,
    /// The document declares this many pages.
    Pages(int, DocumentValue),
}

/// How reading the description of a file ends, given the bytes of the file,
/// or `None` for a file that does not exist.
pub open spec fn metadata_outcome(contents: Option<Seq<u8>>) -> MetadataOutcome {
    match contents {
        None => MetadataOutcome::Missing,
        Some(bytes) => match loaded(bytes) {
            None => MetadataOutcome::Unreadable,
            Some(v) => match declared_page_count(normalized(v)) {
                Err(d) => MetadataOutcome::Defective(d),
                Ok(n) => if n == 0 {
                    MetadataOutcome::Empty
                } else {
                    MetadataOutcome::Pages(n, normalized(v))
                },
            },
        },
    }
}

/// The model of the bytes of a file that may not exist.
pub open spec fn contents_view(contents: Option<&Vec<u8>>) -> Option<Seq<u8>> {
    match contents {
        Some(bytes) => Some(bytes@),
        None => None,
    }
}

/// Reads the document and its declared page count, or fails as counting and
/// describing do.
fn read_counted(path: &PathBuf, contents: Option<&Vec<u8>>) -> (r: Result<
    (usize, PdfDocument),
    Error,
>)
    ensures
        match metadata_outcome(contents_view(contents)) {
            MetadataOutcome::Missing => r matches Err(Error::FileNotFound(p)) && p == *path,
            MetadataOutcome::Unreadable => r matches Err(Error::Pdf(_)),
            MetadataOutcome::Defective(d) => r matches Err(e) && reports(e, d),
            MetadataOutcome::Empty => r matches Err(Error::EmptyPdf(p)) && p == *path,
            MetadataOutcome::Pages(n, v) => r matches Ok(pair) && pair.0 == n && pair.1@ == v,
        },
{
    let bytes = match contents {
        Some(bytes) => bytes,
        None => {
            return Err(Error::FileNotFound(path.clone()));
        },
    };
    let doc = match PdfDocument::load(bytes.as_slice()) {
        Ok(doc) => doc,
        Err(e) => {
            return Err(e);
        },
    };
    let count = match count_pages_from_catalog(&doc) {
        Ok(n) => n,
        Err(e) => {
            return Err(e);
        },
    };
    if count == 0 {
        return Err(Error::EmptyPdf(path.clone()));
    }
    Ok((count, doc))
}

/// Counts the pages of the PDF file at `path`, whose bytes are `contents`,
/// or `None` where the file does not exist.
///
/// The count is the one that the document declares in the `Count` field of
/// its page tree root. A file that does not exist, bytes that are no PDF or
/// an encrypted one (see [`PdfDocument::load`]), a
/// catalog that does not lead to a count, and a count of zero are errors.
pub fn count_pages(path: &PathBuf, contents: Option<&Vec<u8>>) -> (r: Result<usize, Error>)
    ensures
        match metadata_outcome(contents_view(contents)) {
            MetadataOutcome::Missing => r matches Err(Error::FileNotFound(p)) && p == *path,
            MetadataOutcome::Unreadable => r matches Err(Error::Pdf(_)),
            MetadataOutcome::Defective(d) => r matches Err(e) && reports(e, d),
            MetadataOutcome::Empty => r matches Err(Error::EmptyPdf(p)) && p == *path,
            MetadataOutcome::Pages(n, _) => r matches Ok(m) && m == n,
        },
{
    match read_counted(path, contents) {
        Ok(pair) => Ok(pair.0),
        Err(e) => Err(e),
    }
}

/// Reads what the PDF file at `path` says of itself: its page count, as
/// [`count_pages`] gives it, and its title and author, where the
/// information dictionary of the document holds them as strings of valid
/// UTF-8. `contents` holds the bytes of the file, or `None` where the file
/// does not exist.
pub fn extract_metadata(path: &PathBuf, contents: Option<&Vec<u8>>) -> (r: Result<
    PdfMetadata,
    Error,
>)
    ensures
        match metadata_outcome(contents_view(contents)) {
            MetadataOutcome::Missing => r matches Err(Error::FileNotFound(p)) && p == *path,
            MetadataOutcome::Unreadable => r matches Err(Error::Pdf(_)),
            MetadataOutcome::Defective(d) => r matches Err(e) && reports(e, d),
            MetadataOutcome::Empty => r matches Err(Error::EmptyPdf(p)) && p == *path,
            MetadataOutcome::Pages(n, v) => r matches Ok(m) && m.page_count == n && text_view(
                m.title,
            ) == info_text(v, name("Title")) && text_view(m.author) == info_text(
                v,
                name("Author"),
            ),
        },
{
    match read_counted(path, contents) {
        Ok(pair) => {
            let title = read_info(&pair.1, "Title");
            let author = read_info(&pair.1, "Author");
            Ok(PdfMetadata { page_count: pair.0, title, author })
        },
        Err(e) => Err(e),
    }
}

} // verus!
