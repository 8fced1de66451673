//! Stamping composed headers and footers onto the pages of a document.
//!
//! The instructions for a page go into a form XObject of their own. The
//! page's existing content is bracketed by a save and a restore of the
//! graphics state, so that whatever transform it sets is undone, and the
//! XObject is drawn after the restore, in plain page coordinates. The
//! existing content streams are not touched.

use crate::error::Error;
use crate::pdf::codec::{loaded, page_tree, saved};
use crate::pdf::document::{
    compress_objects, decompress_objects, lemma_followed_after_insert,
    lemma_followed_no_reference, lemma_resolved_direct, normalized, resolved, DocumentValue,
    PdfDocument,
};
use crate::pdf::headers::{compose, generate_header_footer_content, HeaderFooterOptions};
use crate::pdf::object::{
    array_view, copy_bytes, integer_array, integers, key, length_entry, name, new_stream, ObjectId,
    PdfDict, PdfObject, PdfStream, StringFormat, Value,
};
use vstd::prelude::*;
use vstd::string::StrSliceExecFns;
use vstd::string::StringSliceAdditionalSpecFns;
use vstd::utf8::encode_utf8;

verus! {

/// The resources of the form XObject: the font `font_id` under the name
/// `F1`.
pub open spec fn form_resources(font_id: ObjectId) -> Value {
    Value::Dictionary(
        Map::<Seq<u8>, Value>::empty().insert(
            name("Font"),
            Value::Dictionary(
                Map::<Seq<u8>, Value>::empty().insert(name("F1"), Value::Reference(font_id)),
            ),
        ),
    )
}

/// The form XObject that draws `content`: a form of the size of a page, in
/// page coordinates (identity matrix), with the font `font_id` as `F1`.
pub open spec fn form_xobject(content: Seq<u8>, font_id: ObjectId) -> Value {
    Value::Stream(
        new_stream(
            Map::<Seq<u8>, Value>::empty().insert(name("Type"), Value::Name(name("XObject"))).insert(
                name("Subtype"),
                Value::Name(name("Form")),
            ).insert(name("FormType"), Value::Integer(1)).insert(
                name("BBox"),
                Value::Array(integers(seq![0i64, 0i64, 612i64, 792i64])),
            ).insert(
                name("Matrix"),
                Value::Array(integers(seq![1i64, 0i64, 0i64, 1i64, 0i64, 0i64])),
            ).insert(name("Resources"), form_resources(font_id)),
            content,
        ),
    )
}

/// The error for a document whose object numbers are used up.
pub open spec fn is_exhausted(e: Error) -> bool {
    e matches Error::General(m) && m@ == "No object number is left"@
}

/// The error for a page whose identifier stands for no object of the
/// document.
pub open spec fn is_page_missing(e: Error) -> bool {
    e matches Error::Pdf(m) && m@ == "Page object not found"@
}

/// Stores `object` under a fresh identifier, or reports that the object
/// numbers are used up and changes nothing.
pub fn add_new_object(doc: &mut PdfDocument, object: PdfObject) -> (r: Result<ObjectId, Error>)
    ensures
        old(doc)@.max_id < u32::MAX ==> r == Ok::<ObjectId, Error>(
            ((old(doc)@.max_id + 1) as u32, 0u16),
        ) && final(doc)@ == (DocumentValue {
            objects: old(doc)@.objects.insert(r->Ok_0, object@),
            max_id: (old(doc)@.max_id + 1) as u32,
            ..old(doc)@
        }),
        old(doc)@.max_id == u32::MAX ==> (r matches Err(e) && is_exhausted(e)) && final(doc)@
            == old(doc)@,
        r matches Ok(id) ==> !old(doc)@.objects.contains_key(id),
{
    match doc.add_object(object) {
        Some(id) => Ok(id),
        None => Err(Error::General("No object number is left".to_owned())),
    }
}

/// Adds the form XObject that draws `content` with the font `font_id` to the
/// document and returns its identifier (see [`form_xobject`]).
pub fn create_form_xobject(doc: &mut PdfDocument, content: String, font_id: ObjectId) -> (r: Result<
    ObjectId,
    Error,
>)
    ensures
        old(doc)@.max_id < u32::MAX ==> r == Ok::<ObjectId, Error>(
            ((old(doc)@.max_id + 1) as u32, 0u16),
        ) && final(doc)@ == (DocumentValue {
            objects: old(doc)@.objects.insert(
                r->Ok_0,
                form_xobject(encode_utf8(content@), font_id),
            ),
            max_id: (old(doc)@.max_id + 1) as u32,
            ..old(doc)@
        }),
        old(doc)@.max_id == u32::MAX ==> (r matches Err(e) && is_exhausted(e)) && final(doc)@
            == old(doc)@,
{
    let mut fonts = PdfDict::new();
    fonts.set(key("F1"), PdfObject::Reference(font_id));
    let mut resources = PdfDict::new();
    resources.set(key("Font"), PdfObject::Dictionary(fonts));
    let mut dict = PdfDict::new();
    dict.set(key("Type"), PdfObject::Name(key("XObject")));
    dict.set(key("Subtype"), PdfObject::Name(key("Form")));
    dict.set(key("FormType"), PdfObject::Integer(1));
    let bbox: Vec<i64> = vec![0, 0, 612, 792];
    assert(bbox@ =~= seq![0i64, 0i64, 612i64, 792i64]);
    dict.set(key("BBox"), PdfObject::Array(integer_array(&bbox)));
    let matrix: Vec<i64> = vec![1, 0, 0, 1, 0, 0];
    assert(matrix@ =~= seq![1i64, 0i64, 0i64, 1i64, 0i64, 0i64]);
    dict.set(key("Matrix"), PdfObject::Array(integer_array(&matrix)));
    dict.set(key("Resources"), PdfObject::Dictionary(resources));
    let stream = PdfStream::new(dict, content.as_str().as_bytes_vec());
    add_new_object(doc, PdfObject::Stream(stream))
}

/// A stream object without entries of its own that holds the bytes of
/// `text`.
pub open spec fn text_stream(text: &str) -> Value {
    Value::Stream(new_stream(Map::<Seq<u8>, Value>::empty(), text.spec_bytes()))
}

/// A stream object that holds the bytes of `text`.
fn make_text_stream(text: &str) -> (r: PdfObject)
    ensures
        r@ == text_stream(text),
{
    PdfObject::Stream(PdfStream::new(PdfDict::new(), text.as_bytes_vec()))
}

/// The contents of a page after stamping: the stream `q`, which saves the
/// graphics state, the existing contents in their order, and the stream `qx`,
/// which restores the state and draws the header and footer.
pub open spec fn wrapped_contents(existing: Option<Value>, q: ObjectId, qx: ObjectId) -> Seq<Value> {
    match existing {
        Some(Value::Reference(id)) => seq![
            Value::Reference(q),
            Value::Reference(id),
            Value::Reference(qx),
        ],
        Some(Value::Array(items)) => seq![Value::Reference(q)] + items + seq![Value::Reference(qx)],
        _ => seq![Value::Reference(q), Value::Reference(qx)],
    }
}

/// The entry of a dictionary for a name, if it has one.
pub open spec fn entry(d: Map<Seq<u8>, Value>, key: Seq<u8>) -> Option<Value> {
    if d.contains_key(key) {
        Some(d[key])
    } else {
        None
    }
}

/// A page dictionary with its contents wrapped (see [`wrapped_contents`]);
/// a value that is no dictionary stays as it is.
pub open spec fn wrapped_page(page: Value, q: ObjectId, qx: ObjectId) -> Value {
    match page {
        Value::Dictionary(d) => Value::Dictionary(
            d.insert(
                name("Contents"),
                Value::Array(wrapped_contents(entry(d, name("Contents")), q, qx)),
            ),
        ),
        _ => page,
    }
}

/// The content of the stream that ends the bracket around the existing
/// content and draws the XObject named `HeaderFooter`.
pub open spec fn closing_text() -> &'static str {
    " Q\nq\nq 1 0 0 1 0 0 cm /HeaderFooter Do Q\nQ\n"
}

/// Brackets the contents of a page and lets the page draw its header and
/// footer after them.
///
/// Two streams are added to the document: one that saves the graphics state
/// and one that restores it and then draws the XObject that the page's
/// resources name `HeaderFooter`. The page's `Contents` becomes the array of
/// the first stream, the existing contents and the second stream (see
/// [`wrapped_contents`]). No existing stream is changed. The page is the
/// object that `page_id` stands for, which may be stored behind references;
/// the new page dictionary is stored under `page_id` itself. Without the
/// page, or without two object numbers left, nothing is changed and the error
/// says which.
pub fn wrap_content_and_append_xobject(doc: &mut PdfDocument, page_id: ObjectId) -> (r: Result<
    (),
    Error,
>)
    ensures
        resolved(old(doc)@.objects, page_id) is None ==> (r matches Err(e) && is_page_missing(e))
            && final(doc)@ == old(doc)@,
        resolved(old(doc)@.objects, page_id) is Some && old(doc)@.max_id + 2 > u32::MAX ==> (
        r matches Err(e) && is_exhausted(e)) && final(doc)@ == old(doc)@,
        resolved(old(doc)@.objects, page_id) is Some && old(doc)@.max_id + 2 <= u32::MAX ==> r
            is Ok && final(doc)@ == (DocumentValue {
            objects: old(doc)@.objects.insert(
                ((old(doc)@.max_id + 1) as u32, 0u16),
                text_stream("q\n"),
            ).insert(((old(doc)@.max_id + 2) as u32, 0u16), text_stream(closing_text())).insert(
                page_id,
                wrapped_page(
                    resolved(old(doc)@.objects, page_id)->0,
                    ((old(doc)@.max_id + 1) as u32, 0u16),
                    ((old(doc)@.max_id + 2) as u32, 0u16),
                ),
            ),
            max_id: (old(doc)@.max_id + 2) as u32,
            ..old(doc)@
        }),
{
    doc.identifiers_hold();
    if doc.get_object(page_id).is_none() {
        return Err(Error::Pdf("Page object not found".to_owned()));
    }
    if doc.max_id() > u32::MAX - 2 {
        return Err(Error::General("No object number is left".to_owned()));
    }
    let q_id: ObjectId = (doc.max_id() + 1, 0);
    let qx_id: ObjectId = (doc.max_id() + 2, 0);
    let page = match doc.get_object(page_id) {
        Some(PdfObject::Dictionary(d)) => {
            let mut contents: Vec<PdfObject> = Vec::new();
            contents.push(PdfObject::Reference(q_id));
            match d.get(key("Contents").as_slice()) {
                Some(PdfObject::Reference(id)) => {
                    contents.push(PdfObject::Reference(*id));
                },
                Some(PdfObject::Array(items)) => {
                    let mut i: usize = 0;
                    while i < items.len()
                        invariant
                            i <= items.len(),
                            array_view(contents@) == seq![Value::Reference(q_id)] + array_view(
                                items@,
                            ).take(i as int),
                        decreases items.len() - i,
                    {
                        let ghost before = array_view(contents@);
                        contents.push(items[i].clone());
                        assert(array_view(contents@) =~= before.push(items@[i as int]@));
                        assert(array_view(items@).take(i + 1) =~= array_view(items@).take(
                            i as int,
                        ).push(items@[i as int]@));
                        i += 1;
                    }
                    assert(array_view(items@).take(items.len() as int) =~= array_view(items@));
                },
                _ => {},
            }
            let ghost before = array_view(contents@);
            contents.push(PdfObject::Reference(qx_id));
            assert(array_view(contents@) =~= before.push(Value::Reference(qx_id)));
            assert(array_view(contents@) =~= wrapped_contents(
                entry(d@, name("Contents")),
                q_id,
                qx_id,
            ));
            let mut d = d.clone();
            d.set(key("Contents"), PdfObject::Array(contents));
            PdfObject::Dictionary(d)
        },
        Some(other) => other.clone(),
        None => PdfObject::Null,
    };
    doc.set_object(q_id, make_text_stream("q\n"));
    doc.set_object(qx_id, make_text_stream(" Q\nq\nq 1 0 0 1 0 0 cm /HeaderFooter Do Q\nQ\n"));
    doc.set_object(page_id, page);
    Ok(())
}

/// The resources that a page dictionary names itself: its `Resources`
/// entry if that is a dictionary, the dictionary that the entry refers to if
/// it is a reference to one, and an empty dictionary otherwise, so that a
/// page that inherits its resources starts from none of its own.
pub open spec fn own_resources(objects: Map<ObjectId, Value>, page: Map<Seq<u8>, Value>) -> Map<
    Seq<u8>,
    Value,
> {
    match entry(page, name("Resources")) {
        Some(Value::Dictionary(r)) => r,
        Some(Value::Reference(id)) => match resolved(objects, id) {
            Some(Value::Dictionary(r)) => r,
            _ => Map::empty(),
        },
        _ => Map::empty(),
    }
}

/// A copy of the resources that a page dictionary names itself (see
/// [`own_resources`]).
pub fn page_resources(doc: &PdfDocument, page: &PdfDict) -> (r: PdfDict)
    ensures
        r@ == own_resources(doc@.objects, page@),
{
    match page.get(key("Resources").as_slice()) {
        Some(PdfObject::Dictionary(r)) => r.clone(),
        Some(PdfObject::Reference(id)) => match doc.get_object(*id) {
            Some(PdfObject::Dictionary(r)) => r.clone(),
            _ => PdfDict::new(),
        },
        _ => PdfDict::new(),
    }
}

/// The XObjects that a resource dictionary names: its `XObject` entry if
/// that is a dictionary, and none otherwise.
pub open spec fn own_xobjects(resources: Map<Seq<u8>, Value>) -> Map<Seq<u8>, Value> {
    match entry(resources, name("XObject")) {
        Some(Value::Dictionary(x)) => x,
        _ => Map::empty(),
    }
}

/// A page dictionary with resources of its own that name `xobject_id` as
/// `HeaderFooter`; a value that is no dictionary stays as it is.
pub open spec fn page_with_xobject(
    objects: Map<ObjectId, Value>,
    page: Value,
    xobject_id: ObjectId,
) -> Value {
    match page {
        Value::Dictionary(d) => {
            let resources = own_resources(objects, d);
            Value::Dictionary(
                d.insert(
                    name("Resources"),
                    Value::Dictionary(
                        resources.insert(
                            name("XObject"),
                            Value::Dictionary(
                                own_xobjects(resources).insert(
                                    name("HeaderFooter"),
                                    Value::Reference(xobject_id),
                                ),
                            ),
                        ),
                    ),
                ),
            )
        },
        _ => page,
    }
}

/// Gives a page resources of its own that name the XObject `xobject_id` as
/// `HeaderFooter`.
///
/// The page's resources are copied into the page dictionary, whether they
/// stood there, or in an object that the page referred to; a page without
/// resources of its own starts from an empty dictionary. Only the page
/// dictionary changes: a resource dictionary that other pages refer to or
/// inherit stays as it is. The page is the object that `page_id` stands for,
/// read through references where it is stored behind them, and the new page
/// dictionary is stored under `page_id` itself. Without the page nothing is
/// changed and the error says so.
pub fn add_xobject_to_page_resources(
    doc: &mut PdfDocument,
    page_id: ObjectId,
    xobject_id: ObjectId,
) -> (r: Result<(), Error>)
    ensures
        resolved(old(doc)@.objects, page_id) is None ==> (r matches Err(e) && is_page_missing(e))
            && final(doc)@ == old(doc)@,
        resolved(old(doc)@.objects, page_id) is Some ==> r is Ok && final(doc)@
            == (DocumentValue {
            objects: old(doc)@.objects.insert(
                page_id,
                page_with_xobject(
                    old(doc)@.objects,
                    resolved(old(doc)@.objects, page_id)->0,
                    xobject_id,
                ),
            ),
            ..old(doc)@
        }),
{
    doc.identifiers_hold();
    let page = match doc.get_object(page_id) {
        None => {
            return Err(Error::Pdf("Page object not found".to_owned()));
        },
        Some(PdfObject::Dictionary(d)) => {
            let mut resources = page_resources(doc, d);
            let mut xobjects = match resources.get(key("XObject").as_slice()) {
                Some(PdfObject::Dictionary(x)) => x.clone(),
                _ => PdfDict::new(),
            };
            xobjects.set(key("HeaderFooter"), PdfObject::Reference(xobject_id));
            resources.set(key("XObject"), PdfObject::Dictionary(xobjects));
            let mut d = d.clone();
            d.set(key("Resources"), PdfObject::Dictionary(resources));
            PdfObject::Dictionary(d)
        },
        Some(other) => other.clone(),
    };
    doc.set_object(page_id, page);
    Ok(())
}

/// Stamping never shares resources: after two different pages, each a
/// dictionary stored under its identifier, were each given their XObject
/// (see [`add_xobject_to_page_resources`]), the two pages have different
/// resources, each naming its own XObject, and every other object of the
/// document, the dictionary from which they inherited among them, is as it
/// was.
pub proof fn lemma_resources_not_shared(
    objects: Map<ObjectId, Value>,
    first: ObjectId,
    first_xobject: ObjectId,
    second: ObjectId,
    second_xobject: ObjectId,
)
    requires
        objects.contains_key(first),
        objects.contains_key(second),
        objects[first] is Dictionary,
        objects[second] is Dictionary,
        first != second,
        first_xobject != second_xobject,
    ensures
        ({
            let once = objects.insert(
                first,
                page_with_xobject(objects, resolved(objects, first)->0, first_xobject),
            );
            let twice = once.insert(
                second,
                page_with_xobject(once, resolved(once, second)->0, second_xobject),
            );
            &&& resolved(objects, first) == Some(objects[first])
            &&& resolved(once, second) == Some(objects[second])
            &&& forall|id: ObjectId|
                id != first && id != second ==> twice.contains_key(id) == objects.contains_key(id)
                    && (objects.contains_key(id) ==> twice[id] == objects[id])
            &&& twice[first]->Dictionary_0[name("Resources")] is Dictionary
            &&& twice[second]->Dictionary_0[name("Resources")] is Dictionary
            &&& twice[first]->Dictionary_0[name("Resources")]->Dictionary_0[name(
                "XObject",
            )]->Dictionary_0[name("HeaderFooter")] == Value::Reference(first_xobject)
            &&& twice[second]->Dictionary_0[name("Resources")]->Dictionary_0[name(
                "XObject",
            )]->Dictionary_0[name("HeaderFooter")] == Value::Reference(second_xobject)
            &&& twice[first]->Dictionary_0[name("Resources")] != twice[second]->Dictionary_0[name(
                "Resources",
            )]
        }),
{
    lemma_resolved_direct(objects, first);
    let once = objects.insert(
        first,
        page_with_xobject(objects, objects[first], first_xobject),
    );
    lemma_resolved_direct(once, second);
}

/// The widths of the glyphs of Liberation Serif for the character codes 32
/// to 255 of the WinAnsi encoding, in thousandths of the font size.
pub open spec fn liberation_serif_widths() -> Seq<i64> {
    seq![
        250i64, 333i64, 408i64, 500i64, 500i64, 833i64, 778i64, 180i64,
        333i64, 333i64, 500i64, 564i64, 250i64, 333i64, 250i64, 278i64,
        500i64, 500i64, 500i64, 500i64, 500i64, 500i64, 500i64, 500i64,
        500i64, 500i64, 278i64, 278i64, 564i64, 564i64, 564i64, 444i64,
        921i64, 722i64, 667i64, 667i64, 722i64, 611i64, 556i64, 722i64,
        722i64, 333i64, 389i64, 722i64, 611i64, 889i64, 722i64, 722i64,
        556i64, 722i64, 667i64, 556i64, 611i64, 722i64, 722i64, 944i64,
        722i64, 722i64, 611i64, 333i64, 278i64, 333i64, 469i64, 500i64,
        333i64, 444i64, 500i64, 444i64, 500i64, 444i64, 333i64, 500i64,
        500i64, 278i64, 278i64, 500i64, 278i64, 778i64, 500i64, 500i64,
        500i64, 500i64, 333i64, 389i64, 278i64, 500i64, 500i64, 722i64,
        500i64, 500i64, 444i64, 480i64, 200i64, 480i64, 541i64, 350i64,
        500i64, 350i64, 333i64, 500i64, 444i64, 1000i64, 500i64, 500i64,
        333i64, 1000i64, 556i64, 333i64, 889i64, 350i64, 611i64, 350i64,
        350i64, 333i64, 333i64, 444i64, 444i64, 350i64, 500i64, 1000i64,
        333i64, 980i64, 389i64, 333i64, 722i64, 350i64, 444i64, 722i64,
        250i64, 333i64, 500i64, 500i64, 500i64, 500i64, 200i64, 500i64,
        333i64, 760i64, 276i64, 500i64, 564i64, 333i64, 760i64, 333i64,
        400i64, 564i64, 300i64, 300i64, 333i64, 500i64, 453i64, 250i64,
        333i64, 300i64, 310i64, 500i64, 750i64, 750i64, 750i64, 444i64,
        722i64, 722i64, 722i64, 722i64, 722i64, 722i64, 889i64, 667i64,
        611i64, 611i64, 611i64, 611i64, 333i64, 333i64, 333i64, 333i64,
        722i64, 722i64, 722i64, 722i64, 722i64, 722i64, 722i64, 564i64,
        722i64, 722i64, 722i64, 722i64, 722i64, 722i64, 556i64, 500i64,
        444i64, 444i64, 444i64, 444i64, 444i64, 444i64, 667i64, 444i64,
        444i64, 444i64, 444i64, 444i64, 278i64, 278i64, 278i64, 278i64,
        500i64, 500i64, 500i64, 500i64, 500i64, 500i64, 500i64, 564i64,
        500i64, 500i64, 500i64, 500i64, 500i64, 500i64, 500i64, 500i64,
    ]
}

/// The widths of the glyphs of Liberation Serif for the character codes 32
/// to 255, as the integer objects of a `Widths` array.
pub fn create_liberation_serif_widths() -> (r: Vec<PdfObject>)
    ensures
        array_view(r@) == integers(liberation_serif_widths()),
        r.len() == 224,
{
    let widths: Vec<i64> = vec![
        250, 333, 408, 500, 500, 833, 778, 180,
        333, 333, 500, 564, 250, 333, 250, 278,
        500, 500, 500, 500, 500, 500, 500, 500,
        500, 500, 278, 278, 564, 564, 564, 444,
        921, 722, 667, 667, 722, 611, 556, 722,
        722, 333, 389, 722, 611, 889, 722, 722,
        556, 722, 667, 556, 611, 722, 722, 944,
        722, 722, 611, 333, 278, 333, 469, 500,
        333, 444, 500, 444, 500, 444, 333, 500,
        500, 278, 278, 500, 278, 778, 500, 500,
        500, 500, 333, 389, 278, 500, 500, 722,
        500, 500, 444, 480, 200, 480, 541, 350,
        500, 350, 333, 500, 444, 1000, 500, 500,
        333, 1000, 556, 333, 889, 350, 611, 350,
        350, 333, 333, 444, 444, 350, 500, 1000,
        333, 980, 389, 333, 722, 350, 444, 722,
        250, 333, 500, 500, 500, 500, 200, 500,
        333, 760, 276, 500, 564, 333, 760, 333,
        400, 564, 300, 300, 333, 500, 453, 250,
        333, 300, 310, 500, 750, 750, 750, 444,
        722, 722, 722, 722, 722, 722, 889, 667,
        611, 611, 611, 611, 333, 333, 333, 333,
        722, 722, 722, 722, 722, 722, 722, 564,
        722, 722, 722, 722, 722, 722, 556, 500,
        444, 444, 444, 444, 444, 444, 667, 444,
        444, 444, 444, 444, 278, 278, 278, 278,
        500, 500, 500, 500, 500, 500, 500, 564,
        500, 500, 500, 500, 500, 500, 500, 500,
    ];
    assert(widths@ =~= liberation_serif_widths());
    assert(widths.len() == 224);
    integer_array(&widths)
}

/// The stream that holds the bytes of a TrueType font file.
pub open spec fn font_file(data: Seq<u8>) -> Value {
    Value::Stream(
        new_stream(
            Map::<Seq<u8>, Value>::empty().insert(name("Length1"), length_entry(data.len())),
            data,
        ),
    )
}

/// The descriptor of the Liberation Serif font whose file is the object
/// `file_id`.
pub open spec fn font_descriptor(file_id: ObjectId) -> Value {
    Value::Dictionary(
        Map::<Seq<u8>, Value>::empty().insert(name("Type"), Value::Name(name("FontDescriptor")))
            .insert(name("FontName"), Value::Name(name("LiberationSerif"))).insert(
            name("FontFamily"),
            Value::String(name("Liberation Serif"), StringFormat::Literal),
        ).insert(name("Flags"), Value::Integer(34)).insert(
            name("FontBBox"),
            Value::Array(integers(seq![-543i64, -303i64, 1300i64, 981i64])),
        ).insert(name("ItalicAngle"), Value::Integer(0)).insert(
            name("Ascent"),
            Value::Integer(891),
        ).insert(name("Descent"), Value::Integer(-216i64)).insert(
            name("CapHeight"),
            Value::Integer(662),
        ).insert(name("XHeight"), Value::Integer(450)).insert(
            name("StemV"),
            Value::Integer(84),
        ).insert(name("FontFile2"), Value::Reference(file_id)),
    )
}

/// The TrueType font dictionary of Liberation Serif with WinAnsi encoding
/// whose descriptor is the object `descriptor_id`.
pub open spec fn font_dictionary(descriptor_id: ObjectId) -> Value {
    Value::Dictionary(
        Map::<Seq<u8>, Value>::empty().insert(name("Type"), Value::Name(name("Font"))).insert(
            name("Subtype"),
            Value::Name(name("TrueType")),
        ).insert(name("BaseFont"), Value::Name(name("LiberationSerif"))).insert(
            name("Encoding"),
            Value::Name(name("WinAnsiEncoding")),
        ).insert(name("FontDescriptor"), Value::Reference(descriptor_id)).insert(
            name("FirstChar"),
            Value::Integer(32),
        ).insert(name("LastChar"), Value::Integer(255)).insert(
            name("Widths"),
            Value::Array(integers(liberation_serif_widths())),
        ),
    )
}

/// The objects of a document after the font was embedded: the font file,
/// its descriptor and the font dictionary under the next three object
/// numbers.
pub open spec fn with_font(v: DocumentValue, data: Seq<u8>) -> DocumentValue {
    let file_id = ((v.max_id + 1) as u32, 0u16);
    let descriptor_id = ((v.max_id + 2) as u32, 0u16);
    let font_id = ((v.max_id + 3) as u32, 0u16);
    DocumentValue {
        objects: v.objects.insert(file_id, font_file(data)).insert(
            descriptor_id,
            font_descriptor(file_id),
        ).insert(font_id, font_dictionary(descriptor_id)),
        max_id: (v.max_id + 3) as u32,
        ..v
    }
}

/// Embeds the Liberation Serif font, whose file holds `font_data`, in the
/// document: the font file, its descriptor and a TrueType font dictionary
/// with WinAnsi encoding. Returns the identifier of the font dictionary.
/// Without three object numbers left nothing is changed and the error says
/// so.
pub fn embed_liberation_serif(doc: &mut PdfDocument, font_data: &[u8]) -> (r: Result<
    ObjectId,
    Error,
>)
    ensures
        old(doc)@.max_id + 3 <= u32::MAX ==> r == Ok::<ObjectId, Error>(
            ((old(doc)@.max_id + 3) as u32, 0u16),
        ) && final(doc)@ == with_font(old(doc)@, font_data@),
        old(doc)@.max_id + 3 > u32::MAX ==> (r matches Err(e) && is_exhausted(e)) && final(doc)@
            == old(doc)@,
{
    if doc.max_id() > u32::MAX - 3 {
        return Err(Error::General("No object number is left".to_owned()));
    }
    let file_id = match add_new_object(doc, make_font_file(font_data)) {
        Ok(id) => id,
        Err(e) => {
            return Err(e);
        },
    };
    let descriptor_id = match add_new_object(doc, make_font_descriptor(file_id)) {
        Ok(id) => id,
        Err(e) => {
            return Err(e);
        },
    };
    add_new_object(doc, make_font_dictionary(descriptor_id))
}

/// Builds the stream of a font file (see [`font_file`]).
fn make_font_file(font_data: &[u8]) -> (r: PdfObject)
    ensures
        r@ == font_file(font_data@),
{
    let length: i64 = if font_data.len() as u64 <= i64::MAX as u64 {
        font_data.len() as i64
    } else {
        i64::MAX
    };
    let mut file_dict = PdfDict::new();
    file_dict.set(key("Length1"), PdfObject::Integer(length));
    PdfObject::Stream(PdfStream::new(file_dict, copy_bytes(font_data)))
}

/// Builds the font descriptor (see [`font_descriptor`]).
fn make_font_descriptor(file_id: ObjectId) -> (r: PdfObject)
    ensures
        r@ == font_descriptor(file_id),
{
    let mut descriptor = PdfDict::new();
    descriptor.set(key("Type"), PdfObject::Name(key("FontDescriptor")));
    descriptor.set(key("FontName"), PdfObject::Name(key("LiberationSerif")));
    descriptor.set(
        key("FontFamily"),
        PdfObject::String(key("Liberation Serif"), StringFormat::Literal),
    );
    descriptor.set(key("Flags"), PdfObject::Integer(34));
    let bbox: Vec<i64> = vec![-543, -303, 1300, 981];
    assert(bbox@ =~= seq![-543i64, -303i64, 1300i64, 981i64]);
    descriptor.set(key("FontBBox"), PdfObject::Array(integer_array(&bbox)));
    descriptor.set(key("ItalicAngle"), PdfObject::Integer(0));
    descriptor.set(key("Ascent"), PdfObject::Integer(891));
    descriptor.set(key("Descent"), PdfObject::Integer(-216));
    descriptor.set(key("CapHeight"), PdfObject::Integer(662));
    descriptor.set(key("XHeight"), PdfObject::Integer(450));
    descriptor.set(key("StemV"), PdfObject::Integer(84));
    descriptor.set(key("FontFile2"), PdfObject::Reference(file_id));
    PdfObject::Dictionary(descriptor)
}

/// Builds the font dictionary (see [`font_dictionary`]).
fn make_font_dictionary(descriptor_id: ObjectId) -> (r: PdfObject)
    ensures
        r@ == font_dictionary(descriptor_id),
{
    let mut font = PdfDict::new();
    font.set(key("Type"), PdfObject::Name(key("Font")));
    font.set(key("Subtype"), PdfObject::Name(key("TrueType")));
    font.set(key("BaseFont"), PdfObject::Name(key("LiberationSerif")));
    font.set(key("Encoding"), PdfObject::Name(key("WinAnsiEncoding")));
    font.set(key("FontDescriptor"), PdfObject::Reference(descriptor_id));
    font.set(key("FirstChar"), PdfObject::Integer(32));
    font.set(key("LastChar"), PdfObject::Integer(255));
    font.set(key("Widths"), PdfObject::Array(create_liberation_serif_widths()));
    PdfObject::Dictionary(font)
}

/// The Type 1 font dictionary of Helvetica, one of the standard fonts that
/// need no font file.
pub open spec fn helvetica_font() -> Value {
    Value::Dictionary(
        Map::<Seq<u8>, Value>::empty().insert(name("Type"), Value::Name(name("Font"))).insert(
            name("Subtype"),
            Value::Name(name("Type1")),
        ).insert(name("BaseFont"), Value::Name(name("Helvetica"))),
    )
}

/// Adds the font dictionary of Helvetica to the document and returns its
/// identifier. Without an object number left nothing is changed and the
/// error says so.
pub fn use_helvetica_font(doc: &mut PdfDocument) -> (r: Result<ObjectId, Error>)
    ensures
        old(doc)@.max_id < u32::MAX ==> r == Ok::<ObjectId, Error>(
            ((old(doc)@.max_id + 1) as u32, 0u16),
        ) && final(doc)@ == (DocumentValue {
            objects: old(doc)@.objects.insert(r->Ok_0, helvetica_font()),
            max_id: (old(doc)@.max_id + 1) as u32,
            ..old(doc)@
        }),
        old(doc)@.max_id == u32::MAX ==> (r matches Err(e) && is_exhausted(e)) && final(doc)@
            == old(doc)@,
{
    let mut font = PdfDict::new();
    font.set(key("Type"), PdfObject::Name(key("Font")));
    font.set(key("Subtype"), PdfObject::Name(key("Type1")));
    font.set(key("BaseFont"), PdfObject::Name(key("Helvetica")));
    add_new_object(doc, PdfObject::Dictionary(font))
}

/// The document after one page was stamped with the instructions `content`:
/// the form XObject, the stream that saves the graphics state and the stream
/// that restores it and draws the XObject stand under the next three object
/// numbers, and the page has resources of its own that name the XObject, and
/// its contents wrapped.
pub open spec fn stamp_page(v: DocumentValue, page: ObjectId, content: Seq<u8>, font_id: ObjectId) -> DocumentValue {
    let xobject = ((v.max_id + 1) as u32, 0u16);
    let q = ((v.max_id + 2) as u32, 0u16);
    let qx = ((v.max_id + 3) as u32, 0u16);
    let with_xobject = v.objects.insert(xobject, form_xobject(content, font_id));
    let with_resources = with_xobject.insert(
        page,
        page_with_xobject(with_xobject, resolved(with_xobject, page)->0, xobject),
    );
    DocumentValue {
        objects: with_resources.insert(q, text_stream("q\n")).insert(
            qx,
            text_stream(closing_text()),
        ).insert(page, wrapped_page(resolved(with_resources, page)->0, q, qx)),
        max_id: (v.max_id + 3) as u32,
        ..v
    }
}

/// The bytes of the instructions for the page with index `index` (from 0)
/// of `count` pages.
pub open spec fn page_content(index: int, count: int, options: HeaderFooterOptions) -> Seq<u8> {
    encode_utf8(compose((index + 1) as nat, count as nat, index == 0, options))
}

/// The document after its first `upto` pages were stamped, in order.
pub open spec fn stamped(
    v: DocumentValue,
    pages: Seq<ObjectId>,
    options: HeaderFooterOptions,
    font_id: ObjectId,
    upto: int,
) -> DocumentValue
    decreases upto,
{
    if upto <= 0 {
        v
    } else {
        stamp_page(
            stamped(v, pages, options, font_id, upto - 1),
            pages[upto - 1],
            page_content(upto - 1, pages.len() as int, options),
            font_id,
        )
    }
}

/// The document after the font was embedded and every page stamped.
pub open spec fn stamp_all(
    v: DocumentValue,
    pages: Seq<ObjectId>,
    options: HeaderFooterOptions,
    font_data: Seq<u8>,
) -> DocumentValue {
    stamped(
        with_font(v, font_data),
        pages,
        options,
        ((v.max_id + 3) as u32, 0u16),
        pages.len() as int,
    )
}

/// The least index from `from` on of a page that stands for no object in
/// the document, or the number of pages.
pub open spec fn first_absent(objects: Map<ObjectId, Value>, pages: Seq<ObjectId>, from: int) -> int
    decreases pages.len() - from,
{
    if from >= pages.len() {
        pages.len() as int
    } else if resolved(objects, pages[from]) is None {
        from
    } else {
        first_absent(objects, pages, from + 1)
    }
}

/// Whether every page of `pages` stands for an object of the document.
pub open spec fn all_present(objects: Map<ObjectId, Value>, pages: Seq<ObjectId>) -> bool {
    first_absent(objects, pages, 0) >= pages.len()
}

/// Whether the object numbers suffice to stamp `count` pages: three for the
/// font, and three for each page.
pub open spec fn numbers_suffice(v: DocumentValue, count: int) -> bool {
    v.max_id + 3 + 3 * count <= u32::MAX
}

/// Where no page is absent, every page is present.
proof fn lemma_first_absent(objects: Map<ObjectId, Value>, pages: Seq<ObjectId>, from: int)
    requires
        0 <= from <= pages.len(),
        first_absent(objects, pages, from) >= pages.len(),
    ensures
        forall|j: int| from <= j < pages.len() ==> resolved(objects, #[trigger] pages[j]) is Some,
    decreases pages.len() - from,
{
    if from < pages.len() {
        lemma_first_absent(objects, pages, from + 1);
    }
}

/// Stamps one page (see [`stamp_page`]).
fn stamp_one(
    doc: &mut PdfDocument,
    page: ObjectId,
    content: String,
    font_id: ObjectId,
) -> (r: Result<(), Error>)
    requires
        resolved(old(doc)@.objects, page) is Some,
        old(doc)@.max_id + 3 <= u32::MAX,
    ensures
        r is Ok,
        final(doc)@ == stamp_page(old(doc)@, page, encode_utf8(content@), font_id),
        forall|id: ObjectId|
            resolved(old(doc)@.objects, id) is Some ==> #[trigger] resolved(final(doc)@.objects, id)
                is Some,
{
    let ghost bytes = encode_utf8(content@);
    let ghost first = old(doc)@.objects;
    let xobject = match create_form_xobject(doc, content, font_id) {
        Ok(id) => id,
        Err(e) => {
            return Err(e);
        },
    };
    let ghost second = doc@.objects;
    proof {
        lemma_followed_after_insert(first, xobject, form_xobject(bytes, font_id), page, 128);
        lemma_followed_no_reference(second, page, 128);
    }
    match add_xobject_to_page_resources(doc, page, xobject) {
        Ok(()) => {},
        Err(e) => {
            return Err(e);
        },
    }
    let ghost third = doc@.objects;
    proof {
        lemma_followed_no_reference(third, page, 128);
    }
    let r = wrap_content_and_append_xobject(doc, page);
    proof {
        let q = ((old(doc)@.max_id + 2) as u32, 0u16);
        let qx = ((old(doc)@.max_id + 3) as u32, 0u16);
        let fourth = third.insert(q, text_stream("q\n"));
        let fifth = fourth.insert(qx, text_stream(closing_text()));
        assert forall|id: ObjectId| resolved(first, id) is Some implies #[trigger] resolved(
            doc@.objects,
            id,
        ) is Some by {
            lemma_followed_after_insert(first, xobject, form_xobject(bytes, font_id), id, 128);
            lemma_followed_after_insert(
                second,
                page,
                page_with_xobject(second, resolved(second, page)->0, xobject),
                id,
                128,
            );
            lemma_followed_after_insert(third, q, text_stream("q\n"), id, 128);
            lemma_followed_after_insert(fourth, qx, text_stream(closing_text()), id, 128);
            lemma_followed_after_insert(
                fifth,
                page,
                wrapped_page(resolved(third, page)->0, q, qx),
                id,
                128,
            );
        }
    }
    r
}

/// Embeds the font and stamps the header and footer onto every page of
/// `pages`, in order; page `i` (from 1) of `n` gets the instructions composed
/// for page `i` of `n`, and the first page the title.
///
/// Nothing is changed, and the error says why, where a page of `pages`
/// stands for no object of the document, or where the document has not three object numbers left
/// for the font and three for each page.
pub fn stamp_document(
    doc: &mut PdfDocument,
    pages: &Vec<ObjectId>,
    options: &HeaderFooterOptions,
    font_data: &[u8],
) -> (r: Result<(), Error>)
    ensures
        !all_present(old(doc)@.objects, pages@) ==> (r matches Err(e) && is_page_missing(e))
            && final(doc)@ == old(doc)@,
        all_present(old(doc)@.objects, pages@) && !numbers_suffice(
            old(doc)@,
            pages@.len() as int,
        ) ==> (r matches Err(e) && is_exhausted(e)) && final(doc)@ == old(doc)@,
        all_present(old(doc)@.objects, pages@) && numbers_suffice(old(doc)@, pages@.len() as int)
            ==> r is Ok && final(doc)@ == stamp_all(old(doc)@, pages@, *options, font_data@),
{
    let count = pages.len();
    let mut i: usize = 0;
    while i < count
        invariant
            i <= count,
            count == pages.len(),
            doc@ == old(doc)@,
            first_absent(doc@.objects, pages@, 0) == first_absent(doc@.objects, pages@, i as int),
        decreases count - i,
    {
        if doc.get_object(pages[i]).is_none() {
            return Err(Error::Pdf("Page object not found".to_owned()));
        }
        i += 1;
    }
    if (doc.max_id() as u128) + 3 + 3 * (count as u128) > u32::MAX as u128 {
        return Err(Error::General("No object number is left".to_owned()));
    }
    proof {
        lemma_first_absent(doc@.objects, pages@, 0);
    }
    let font_id = match embed_liberation_serif(doc, font_data) {
        Ok(id) => id,
        Err(e) => {
            return Err(e);
        },
    };
    let ghost start = doc@;
    proof {
        let v = old(doc)@;
        let file_id = ((v.max_id + 1) as u32, 0u16);
        let descriptor_id = ((v.max_id + 2) as u32, 0u16);
        let with_file = v.objects.insert(file_id, font_file(font_data@));
        let with_descriptor = with_file.insert(descriptor_id, font_descriptor(file_id));
        assert forall|j: int| 0 <= j < count implies resolved(
            start.objects,
            #[trigger] pages@[j],
        ) is Some by {
            lemma_followed_after_insert(v.objects, file_id, font_file(font_data@), pages@[j], 128);
            lemma_followed_after_insert(
                with_file,
                descriptor_id,
                font_descriptor(file_id),
                pages@[j],
                128,
            );
            lemma_followed_after_insert(
                with_descriptor,
                font_id,
                font_dictionary(descriptor_id),
                pages@[j],
                128,
            );
        }
    }
    let mut i: usize = 0;
    while i < count
        invariant
            i <= count,
            count == pages.len(),
            start.max_id + 3 * count <= u32::MAX,
            doc@ == stamped(start, pages@, *options, font_id, i as int),
            doc@.max_id == start.max_id + 3 * i,
            forall|j: int| 0 <= j < count ==> resolved(doc@.objects, #[trigger] pages@[j]) is Some,
        decreases count - i,
    {
        let content = generate_header_footer_content(i + 1, count, i == 0, options);
        match stamp_one(doc, pages[i], content, font_id) {
            Ok(()) => {},
            Err(e) => {
                return Err(e);
            },
        }
        i += 1;
    }
    Ok(())
}

/// How the stamping of a file ends.
pub enum StampOutcome {
    /// The bytes are no PDF that can be read: no PDF at all, or an encrypted
    /// one.
    Unreadable,
    /// The page tree lists a page whose identifier stands for no object of
    /// the document.
    PageMissing,
    /// The object numbers do not suffice.
    Exhausted,
    /// The pages were stamped; this is the document.
    Stamped(DocumentValue),
}

/// How the stamping of the file with the bytes `input` ends: the document is
/// read, its streams are decoded, the font is embedded and the pages that its
/// page tree lists are stamped, and the streams are compressed.
pub open spec fn stamp_outcome(
    input: Seq<u8>,
    options: HeaderFooterOptions,
    font_data: Seq<u8>,
) -> StampOutcome {
    match loaded(input) {
        None => StampOutcome::Unreadable,
        Some(v) => {
            let read = normalized(v);
            let opened = DocumentValue { objects: decompress_objects(read.objects), ..read };
            let pages = page_tree(opened);
            if !all_present(opened.objects, pages) {
                StampOutcome::PageMissing
            } else if !numbers_suffice(opened, pages.len() as int) {
                StampOutcome::Exhausted
            } else {
                let done = stamp_all(opened, pages, options, font_data);
                StampOutcome::Stamped(
                    DocumentValue { objects: compress_objects(done.objects), ..done },
                )
            }
        },
    }
}

/// Reads a document from the bytes `input` and stamps the header and footer
/// that `options` describe onto each of its pages, with the Liberation Serif
/// font whose file holds `font_data` (see [`stamp_outcome`]).
pub fn stamp_headers_footers(input: &[u8], options: &HeaderFooterOptions, font_data: &[u8]) -> (r:
    Result<PdfDocument, Error>)
    ensures
        match stamp_outcome(input@, *options, font_data@) {
            StampOutcome::Unreadable => r matches Err(Error::Pdf(_)),
            StampOutcome::PageMissing => r matches Err(e) && is_page_missing(e),
            StampOutcome::Exhausted => r matches Err(e) && is_exhausted(e),
            StampOutcome::Stamped(d) => r matches Ok(doc) && doc@ == d,
        },
{
    let mut doc = match PdfDocument::load(input) {
        Ok(doc) => doc,
        Err(e) => {
            return Err(e);
        },
    };
    doc.decompress();
    let pages = doc.pages();
    match stamp_document(&mut doc, &pages, options, font_data) {
        Ok(()) => {},
        Err(e) => {
            return Err(e);
        },
    }
    doc.compress();
    Ok(doc)
}

/// Adds the header and footer that `options` describe to every page of the
/// PDF file with the bytes `input`, and returns the bytes of the stamped
/// file. `font_data` holds the file of the Liberation Serif font, which is
/// embedded.
///
/// The stamping fails as [`stamp_headers_footers`] does; where that gives a
/// document, the result is what [`PdfDocument::save`] makes of it.
pub fn add_headers_footers(input: &[u8], options: &HeaderFooterOptions, font_data: &[u8]) -> (r:
    Result<Vec<u8>, Error>)
    ensures
        match stamp_outcome(input@, *options, font_data@) {
            StampOutcome::Unreadable => r matches Err(Error::Pdf(_)),
            StampOutcome::PageMissing => r matches Err(e) && is_page_missing(e),
            StampOutcome::Exhausted => r matches Err(e) && is_exhausted(e),
            StampOutcome::Stamped(d) => exists|doc: PdfDocument|
                #![trigger doc.syntax()]
                doc@ == d && (match saved(doc.syntax()) {
                    Ok(bytes) => r matches Ok(v) && v@ == bytes,
                    Err(message) => r matches Err(Error::Io(m)) && m@ == message,
                }),
        },
{
    match stamp_headers_footers(input, options, font_data) {
        Ok(doc) => doc.save(),
        Err(e) => Err(e),
    }
}

} // verus!
