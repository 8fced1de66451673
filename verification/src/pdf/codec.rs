//! Reading and writing PDF bytes, the page tree, and stream compression,
//! all done by the `lopdf` crate. Nothing in this file is proved: each
//! function states what is taken on trust of the `lopdf` function it calls.

use crate::pdf::document::{DocumentSyntax, DocumentValue, PdfDocument, RawDocument, Reading};
use crate::pdf::object::{ObjectId, PdfDict, PdfObject, PdfStream, StreamValue, StringFormat};
use vstd::prelude::*;

verus! {

/// `lopdf::Object`, built and taken apart only in this file.
#[verifier::external_type_specification]
#[verifier::external_body]
pub struct ExPdfObject(lopdf::Object);

/// `lopdf::Dictionary`, built and taken apart only in this file.
#[verifier::external_type_specification]
#[verifier::external_body]
pub struct ExPdfDictionary(lopdf::Dictionary);

/// `lopdf::Stream`, built and taken apart only in this file.
#[verifier::external_type_specification]
#[verifier::external_body]
pub struct ExPdfStream(lopdf::Stream);

/// `lopdf::Document`, built and taken apart only in this file.
#[verifier::external_type_specification]
#[verifier::external_body]
pub struct ExPdfDocument(lopdf::Document);

/// What `lopdf::Document::load_mem` makes of `bytes` where it reads them as
/// they stand: the document, or `None` where it reports an error or decrypts
/// what it reads.
pub uninterp spec fn loaded(bytes: Seq<u8>) -> Option<DocumentValue>;

/// What `lopdf::Document::save_to` writes for a document: the bytes of the
/// file, or the message of the error that it reports. The bytes follow the
/// order of the stored objects and of the entries of every dictionary.
pub uninterp spec fn saved(doc: DocumentSyntax) -> Result<Seq<u8>, Seq<char>>;

/// The identifiers that `lopdf::Document::get_pages` lists for a document, in
/// page order.
pub uninterp spec fn page_tree(doc: DocumentValue) -> Seq<ObjectId>;

/// The stream that `lopdf::Stream::compress` makes of a stream.
pub uninterp spec fn compressed(stream: StreamValue) -> StreamValue;

/// The stream that `lopdf::Stream::decompress` makes of a stream.
pub uninterp spec fn decompressed(stream: StreamValue) -> StreamValue;

/// The `lopdf::Object` for an object without parts. A real number goes from
/// its decimal text to the number `lopdf` holds.
#[verifier::external_body]
fn scalar_to_lopdf(o: &PdfObject) -> lopdf::Object {
    match o {
        PdfObject::Boolean(b) => lopdf::Object::Boolean(*b),
        PdfObject::Integer(i) => lopdf::Object::Integer(*i),
        PdfObject::Real(t) => lopdf::Object::Real(t.parse().unwrap_or_default()),
        PdfObject::Name(n) => lopdf::Object::Name(n.clone()),
        PdfObject::String(s, StringFormat::Literal) => lopdf::Object::string_literal(s.clone()),
        PdfObject::String(s, _) => lopdf::Object::String(s.clone(), lopdf::StringFormat::Hexadecimal),
        PdfObject::Reference(id) => lopdf::Object::Reference(*id),
        _ => lopdf::Object::Null,
    }
}

/// The `lopdf::Object` for an object, part by part.
#[verifier::external_body]
fn object_to_lopdf(o: &PdfObject) -> lopdf::Object {
    match o {
        PdfObject::Array(a) => lopdf::Object::Array(a.iter().map(object_to_lopdf).collect()),
        PdfObject::Dictionary(d) => lopdf::Object::Dictionary(dictionary_to_lopdf(d)),
        PdfObject::Stream(s) => lopdf::Object::Stream(stream_to_lopdf(s)),
        _ => scalar_to_lopdf(o),
    }
}

/// The `lopdf::Dictionary` with the entries of a dictionary, set in order
/// with `lopdf::Dictionary::set`, so that a later entry replaces an earlier
/// one of the same name.
#[verifier::external_body]
fn dictionary_to_lopdf(d: &PdfDict) -> lopdf::Dictionary {
    d.entries.iter().map(|e| (e.0.clone(), object_to_lopdf(&e.1))).collect()
}

/// The `lopdf::Stream` with the fields of a stream.
#[verifier::external_body]
fn stream_to_lopdf(s: &PdfStream) -> lopdf::Stream {
    lopdf::Stream {
        dict: dictionary_to_lopdf(&s.dict),
        content: s.content.clone(),
        allows_compression: s.allows_compression,
        start_position: s.start_position,
    }
}

/// The `lopdf::Document` with the version, binary mark, kind of
/// cross-reference data, trailer, objects and `max_id` of a document; its
/// other fields are as `lopdf::Document::with_version` leaves them.
#[verifier::external_body]
fn document_to_lopdf(doc: &PdfDocument) -> lopdf::Document {
    let mut out = lopdf::Document::with_version(doc.version.clone());
    out.binary_mark = doc.binary_mark.clone();
    out.reference_table.cross_reference_type = match doc.cross_reference_stream {
        true => lopdf::xref::XrefType::CrossReferenceStream,
        false => lopdf::xref::XrefType::CrossReferenceTable,
    };
    out.trailer = dictionary_to_lopdf(&doc.trailer);
    out.objects = doc.objects.iter().map(|e| (e.0, object_to_lopdf(&e.1))).collect();
    out.max_id = doc.max_id;
    out
}

/// The object for a `lopdf::Object` without parts. A real number is held as
/// the decimal text that Rust prints for it, which reads back as the same
/// number.
#[verifier::external_body]
fn scalar_from_lopdf(o: &lopdf::Object) -> PdfObject {
    match o {
        lopdf::Object::Boolean(b) => PdfObject::Boolean(*b),
        lopdf::Object::Integer(i) => PdfObject::Integer(*i),
        lopdf::Object::Real(r) => PdfObject::Real(format!("{}", r)),
        lopdf::Object::Name(n) => PdfObject::Name(n.clone()),
        lopdf::Object::String(s, lopdf::StringFormat::Literal) => PdfObject::String(s.clone(), StringFormat::Literal),
        lopdf::Object::String(s, _) => PdfObject::String(s.clone(), StringFormat::Hexadecimal),
        lopdf::Object::Reference(id) => PdfObject::Reference(*id),
        _ => PdfObject::Null,
    }
}

/// The object for a `lopdf::Object`, part by part.
#[verifier::external_body]
fn object_from_lopdf(o: &lopdf::Object) -> PdfObject {
    match o {
        lopdf::Object::Array(a) => PdfObject::Array(a.iter().map(object_from_lopdf).collect()),
        lopdf::Object::Dictionary(d) => PdfObject::Dictionary(dictionary_from_lopdf(d)),
        lopdf::Object::Stream(s) => PdfObject::Stream(stream_from_lopdf(s)),
        _ => scalar_from_lopdf(o),
    }
}

/// The dictionary with the entries that `lopdf::Dictionary::iter` yields, in
/// its order.
#[verifier::external_body]
fn dictionary_from_lopdf(d: &lopdf::Dictionary) -> PdfDict {
    PdfDict { entries: d.iter().map(|e| (e.0.clone(), object_from_lopdf(e.1))).collect() }
}

/// The stream with the fields of a `lopdf::Stream`.
#[verifier::external_body]
fn stream_from_lopdf(s: &lopdf::Stream) -> PdfStream {
    PdfStream {
        dict: dictionary_from_lopdf(&s.dict),
        content: s.content.clone(),
        allows_compression: s.allows_compression,
        start_position: s.start_position,
    }
}

/// The parts of a `lopdf::Document` that a [`PdfDocument`] holds.
#[verifier::external_body]
fn document_from_lopdf(doc: &lopdf::Document) -> RawDocument {
    RawDocument {
        version: doc.version.clone(),
        binary_mark: doc.binary_mark.clone(),
        cross_reference_stream: matches!(
            doc.reference_table.cross_reference_type,
            lopdf::xref::XrefType::CrossReferenceStream
        ),
        trailer: dictionary_from_lopdf(&doc.trailer),
        objects: doc.objects.iter().map(|e| (*e.0, object_from_lopdf(e.1))).collect(),
        max_id: doc.max_id,
    }
}

/// Reads a document from the bytes of a PDF file with
/// `lopdf::Document::load_mem`, and tells apart the three ways in which that
/// ends: an error, which comes back as its message; a document that the
/// reader decrypted, which is not handed on; and a document read as it
/// stands. Only of the last is anything claimed: it depends on the bytes
/// alone. Nothing is claimed of the identifiers of what was read.
///
/// Which of the three it is depends on the bytes alone. A file whose trailer
/// has no `Encrypt` entry is read by the plain path of the reader. One that
/// has the entry and opens with the empty password is decrypted, and the
/// reader marks the document by its `encryption_state`; one that does not
/// open comes back without its objects and without that mark. Only on the
/// decrypting path does the reader walk a hash map, whose order differs from
/// run to run, so what it then collects may differ too: that is why such a
/// document is left out.
///
/// The claim on the plain path holds of `lopdf` built without its `rayon`
/// feature, as this crate builds it: the reader then parses the
/// cross-reference entries and the members of object streams one after the
/// other, in the order of their numbers. With that feature the members of
/// object streams are collected in the order in which threads finish, and
/// two reads of the same bytes may differ.
#[verifier::external_body]
pub(crate) fn load_mem(bytes: &[u8]) -> (r: Reading)
    ensures
        r matches Reading::Plain(raw) ==> loaded(bytes@) == Some(raw@),
        !(r is Plain) ==> loaded(bytes@) is None,
{
    match lopdf::Document::load_mem(bytes) {
        Ok(doc) => match doc.encryption_state {
            Some(_) => Reading::Decrypted,
            None => Reading::Plain(document_from_lopdf(&doc)),
        },
        Err(e) => Reading::Failed(e.to_string()),
    }
}

/// The model of what the writer gave: the bytes, or the message.
pub open spec fn written_view(r: Result<Vec<u8>, String>) -> Result<Seq<u8>, Seq<char>> {
    match r {
        Ok(bytes) => Ok(bytes@),
        Err(message) => Err(message@),
    }
}

/// Writes a document as the bytes of a PDF file with
/// `lopdf::Document::save_to`; an error comes back as its message. What is
/// written depends on the document as it is written alone: its parts, its
/// objects and the entries of its dictionaries in their order.
#[verifier::external_body]
pub(crate) fn save_to(doc: &PdfDocument) -> (r: Result<Vec<u8>, String>)
    ensures
        written_view(r) == saved(doc.syntax()),
{
    let mut out = Vec::new();
    match document_to_lopdf(doc).save_to(&mut out) {
        Ok(()) => Ok(out),
        Err(e) => Err(e.to_string()),
    }
}

/// Lists the pages of a document with `lopdf::Document::get_pages`, which
/// walks the page tree from the catalog: the identifiers of the leaf pages,
/// in page order. The result depends on the objects and the trailer alone.
#[verifier::external_body]
pub(crate) fn get_pages(doc: &PdfDocument) -> (r: Vec<ObjectId>)
    ensures
        r@ == page_tree(doc@),
{
    document_to_lopdf(doc).get_pages().into_values().collect()
}

/// Compresses a stream with `lopdf::Stream::compress`, which deflates the
/// content of a stream that has no filter yet and keeps the result where it
/// is smaller; a stream that it reports an error for comes back as it was.
#[verifier::external_body]
pub(crate) fn compress_stream(stream: &PdfStream) -> (r: PdfStream)
    ensures
        r@ == compressed(stream@),
{
    let mut s = stream_to_lopdf(stream);
    let _ = s.compress();
    stream_from_lopdf(&s)
}

/// Decodes a stream with `lopdf::Stream::decompress`, which applies the
/// filters of the stream and drops them from its dictionary; a stream that
/// it reports an error for comes back as it was. Content that its filters
/// cannot take is not always such an error: of deflated or LZW content that
/// breaks off, what was decoded up to there is kept as the content.
///
/// The call returns for every stream as far as `lopdf` itself goes: its own
/// decoders (ASCII85, hexadecimal, run length and the predictors) index within
/// what they are given and check their arithmetic. Inflating, LZW and Brotli
/// it leaves to the crates `flate2`, `weezl` and `brotli-decompressor`; that
/// these return for every content is taken on trust with the call.
#[verifier::external_body]
pub(crate) fn decompress_stream(stream: &PdfStream) -> (r: PdfStream)
    ensures
        r@ == decompressed(stream@),
{
    let mut s = stream_to_lopdf(stream);
    let _ = s.decompress();
    stream_from_lopdf(&s)
}

} // verus!
