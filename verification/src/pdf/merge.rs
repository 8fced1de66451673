//! Merging documents: renumbering, and the page tree of the merged document.

use crate::error::Error;
use crate::pdf::codec::{loaded, page_tree, saved};
use crate::pdf::document::{
    binary_mark, compress_objects, lemma_greatest_number_within, normalized, resolved,
    shift_objects, written, DocumentValue, PdfDocument,
};
use crate::pdf::object::{
    array_view, copy_bytes, entries_view, key, lemma_last_index_of, lemma_last_index_same,
    lemma_shift_value, name, shift_array, shift_dict, shift_id, shift_value, ObjectId, PdfDict,
    PdfObject, PdfStream, Value,
};
use std::path::PathBuf;
use vstd::prelude::*;

verus! {

/// Moves an identifier up by `offset` object numbers (see [`shift_id`]).
pub fn shifted_id(id: ObjectId, offset: u32) -> (r: ObjectId)
    ensures
        r == shift_id(id, offset),
{
    if id.0 <= u32::MAX - offset {
        (id.0 + offset, id.1)
    } else {
        id
    }
}

/// A copy of a list of objects with every reference moved up by `offset`.
fn renumber_array(a: &Vec<PdfObject>, offset: u32) -> (r: Vec<PdfObject>)
    ensures
        array_view(r@) == shift_array(array_view(a@), offset),
    decreases a,
{
    let mut out: Vec<PdfObject> = Vec::new();
    let mut i: usize = 0;
    while i < a.len()
        invariant
            i <= a.len(),
            out.len() == i,
            forall|j: int| 0 <= j < i ==> out@[j]@ == shift_value(a@[j]@, offset),
        decreases a.len() - i,
    {
        out.push(renumber_object_references(&a[i], offset));
        i += 1;
    }
    assert(array_view(out@) =~= shift_array(array_view(a@), offset));
    out
}

/// A copy of a list of dictionary entries with every reference moved up by
/// `offset`.
fn renumber_entries(e: &Vec<(Vec<u8>, PdfObject)>, offset: u32) -> (r: Vec<(Vec<u8>, PdfObject)>)
    ensures
        entries_view(r@) == shift_dict(entries_view(e@), offset),
    decreases e,
{
    let mut out: Vec<(Vec<u8>, PdfObject)> = Vec::new();
    let mut i: usize = 0;
    while i < e.len()
        invariant
            i <= e.len(),
            out.len() == i,
            forall|j: int|
                0 <= j < i ==> out@[j].0@ == e@[j].0@ && out@[j].1@ == shift_value(
                    e@[j].1@,
                    offset,
                ),
        decreases e.len() - i,
    {
        out.push((copy_bytes(e[i].0.as_slice()), renumber_object_references(&e[i].1, offset)));
        i += 1;
    }
    proof {
        assert forall|k: Seq<u8>| #[trigger]
            entries_view(out@).contains_key(k) == entries_view(e@).contains_key(k) by {
            lemma_last_index_same(out@, e@, k, e@.len() as int);
        }
        assert forall|k: Seq<u8>| #[trigger]
            entries_view(out@).contains_key(k) implies entries_view(out@)[k] == shift_value(
            entries_view(e@)[k],
            offset,
        ) by {
            lemma_last_index_same(out@, e@, k, e@.len() as int);
            lemma_last_index_of(e@, k, e@.len() as int);
        }
        assert(entries_view(out@) =~= shift_dict(entries_view(e@), offset));
    }
    out
}

/// A copy of `object` in which every reference, at any depth (in arrays,
/// dictionaries and stream dictionaries), points `offset` object numbers
/// higher. Everything else is copied as it is.
pub fn renumber_object_references(object: &PdfObject, offset: u32) -> (r: PdfObject)
    ensures
        r@ == shift_value(object@, offset),
    decreases object,
{
    proof {
        lemma_shift_value(object@, offset);
    }
    match object {
        PdfObject::Reference(id) => PdfObject::Reference(shifted_id(*id, offset)),
        PdfObject::Array(a) => PdfObject::Array(renumber_array(a, offset)),
        PdfObject::Dictionary(d) => PdfObject::Dictionary(
            PdfDict { entries: renumber_entries(&d.entries, offset) },
        ),
        PdfObject::Stream(s) => PdfObject::Stream(
            PdfStream {
                dict: PdfDict { entries: renumber_entries(&s.dict.entries, offset) },
                content: copy_bytes(s.content.as_slice()),
                allows_compression: s.allows_compression,
                start_position: s.start_position,
            },
        ),
        _ => object.copy(),
    }
}

/// What to merge and where the result goes.
#[derive(Debug, Clone)]
pub struct MergeOptions {
    /// The input files, in the order in which their pages follow each other.
    pub input_paths: Vec<PathBuf>,
    /// The file that the merged document is written to.
    pub output_path: PathBuf,
}

/// One input of a merge: a document and the identifiers of its leaf pages,
/// in page order.
#[derive(Debug)]
pub struct MergeSource {
    pub document: PdfDocument,
    pub pages: Vec<ObjectId>,
}

/// The mathematical model of a [`MergeSource`].
pub struct SourceValue {
    pub doc: DocumentValue,
    pub pages: Seq<ObjectId>,
}

impl MergeSource {
    /// The model of this input.
    pub open spec fn view(self) -> SourceValue {
        SourceValue { doc: self.document@, pages: self.pages@ }
    }
}

/// The models of a list of inputs.
pub open spec fn sources_view(s: Seq<MergeSource>) -> Seq<SourceValue> {
    s.map_values(|m: MergeSource| m@)
}

/// The object number from which the first `k` inputs leave the numbers
/// free: 1 for no input, and for each input its `max_id` and one more on top
/// of the number before it. The `k`-th input (counting from 0) is moved up by
/// `next_id(sources, k)`.
pub open spec fn next_id(sources: Seq<SourceValue>, k: int) -> int
    decreases k,
{
    if k <= 0 {
        1
    } else {
        next_id(sources, k - 1) + sources[k - 1].doc.max_id + 1
    }
}

/// The objects of the first `k` inputs, each input moved up by its offset.
pub open spec fn absorbed(sources: Seq<SourceValue>, k: int) -> Map<ObjectId, Value>
    decreases k,
{
    if k <= 0 {
        Map::empty()
    } else {
        absorbed(sources, k - 1).union_prefer_right(
            shift_objects(sources[k - 1].doc.objects, next_id(sources, k - 1) as u32),
        )
    }
}

/// The identifiers of the pages of one input, moved up by `offset`.
pub open spec fn shifted_pages(pages: Seq<ObjectId>, offset: u32) -> Seq<ObjectId> {
    pages.map_values(|id: ObjectId| shift_id(id, offset))
}

/// The pages of the first `k` inputs after renumbering: those of the first
/// input in their order, then those of the second, and so on.
pub open spec fn page_list(sources: Seq<SourceValue>, k: int) -> Seq<ObjectId>
    decreases k,
{
    if k <= 0 {
        Seq::empty()
    } else {
        page_list(sources, k - 1) + shifted_pages(
            sources[k - 1].pages,
            next_id(sources, k - 1) as u32,
        )
    }
}

/// An array of references to `ids`, in order.
pub open spec fn references(ids: Seq<ObjectId>) -> Seq<Value> {
    ids.map_values(|id: ObjectId| Value::Reference(id))
}

/// The root of the page tree of a merged document: a `Pages` node whose kids
/// are `kids` and whose count is their number.
pub open spec fn pages_root(kids: Seq<ObjectId>) -> Value {
    Value::Dictionary(
        Map::<Seq<u8>, Value>::empty().insert(name("Type"), Value::Name(name("Pages"))).insert(
            name("Count"),
            Value::Integer(kids.len() as i64),
        ).insert(name("Kids"), Value::Array(references(kids))),
    )
}

/// The catalog of a merged document, which points at the page tree root.
pub open spec fn catalog(pages_id: ObjectId) -> Value {
    Value::Dictionary(
        Map::<Seq<u8>, Value>::empty().insert(name("Type"), Value::Name(name("Catalog"))).insert(
            name("Pages"),
            Value::Reference(pages_id),
        ),
    )
}

/// `v` with its `Parent` entry set to a reference to `parent`, if `v` is a
/// dictionary; any other value as it is.
pub open spec fn with_parent(v: Value, parent: ObjectId) -> Value {
    match v {
        Value::Dictionary(d) => Value::Dictionary(
            d.insert(name("Parent"), Value::Reference(parent)),
        ),
        _ => v,
    }
}

/// The objects `m` with `parent` as the parent of `page`: where the object
/// that `page` stands for is a dictionary, it is stored under `page` with its
/// `Parent` entry set; otherwise nothing changes.
pub open spec fn adopted(m: Map<ObjectId, Value>, page: ObjectId, parent: ObjectId) -> Map<
    ObjectId,
    Value,
> {
    match resolved(m, page) {
        Some(Value::Dictionary(d)) => m.insert(page, with_parent(Value::Dictionary(d), parent)),
        _ => m,
    }
}

/// The objects `m` after each of the first `upto` of `pages` was given
/// `parent` as its parent, one after the other (see [`adopted`]).
pub open spec fn reparented(
    m: Map<ObjectId, Value>,
    pages: Seq<ObjectId>,
    upto: int,
    parent: ObjectId,
) -> Map<ObjectId, Value>
    decreases upto,
{
    if upto <= 0 {
        m
    } else {
        adopted(reparented(m, pages, upto - 1, parent), pages[upto - 1], parent)
    }
}

/// The identifier of the page tree root of the merged document.
pub open spec fn merged_pages_id(sources: Seq<SourceValue>) -> ObjectId {
    (next_id(sources, sources.len() as int) as u32, 0u16)
}

/// The identifier of the catalog of the merged document.
pub open spec fn merged_catalog_id(sources: Seq<SourceValue>) -> ObjectId {
    ((next_id(sources, sources.len() as int) + 1) as u32, 0u16)
}

/// The merged document: the objects of every input, each input moved up by
/// its offset; a new page tree root whose kids are all pages in input order;
/// a new catalog; every page with the new root as its parent; and a trailer
/// that names the catalog as root.
pub open spec fn merged(sources: Seq<SourceValue>) -> DocumentValue {
    let n = sources.len() as int;
    let pages_id = merged_pages_id(sources);
    let catalog_id = merged_catalog_id(sources);
    let kids = page_list(sources, n);
    DocumentValue {
        version: "1.5"@,
        binary_mark: binary_mark(),
        cross_reference_stream: false,
        trailer: Map::<Seq<u8>, Value>::empty().insert(name("Root"), Value::Reference(catalog_id)),
        objects: reparented(
            absorbed(sources, n).insert(catalog_id, catalog(pages_id)).insert(
                pages_id,
                pages_root(kids),
            ),
            kids,
            kids.len() as int,
            pages_id,
        ),
        max_id: catalog_id.0,
    }
}

/// Whether the inputs can be merged: two object numbers must be left above
/// those of all inputs, and the number of pages must fit an integer object
/// and a count in memory.
pub open spec fn mergeable(sources: Seq<SourceValue>) -> bool {
    &&& next_id(sources, sources.len() as int) + 1 <= u32::MAX
    &&& page_list(sources, sources.len() as int).len() <= i64::MAX
    &&& page_list(sources, sources.len() as int).len() <= usize::MAX
}

/// The numbers left free grow with the number of inputs counted.
pub proof fn lemma_next_id_grows(sources: Seq<SourceValue>, a: int, b: int)
    requires
        0 <= a <= b,
    ensures
        1 <= next_id(sources, a) <= next_id(sources, b),
    decreases b,
{
    if a < b {
        lemma_next_id_grows(sources, a, b - 1);
    } else if a > 0 {
        lemma_next_id_grows(sources, a - 1, a - 1);
    }
}

/// The page list grows with the number of inputs counted.
pub proof fn lemma_page_list_grows(sources: Seq<SourceValue>, a: int, b: int)
    requires
        0 <= a <= b,
    ensures
        page_list(sources, a).len() <= page_list(sources, b).len(),
    decreases b,
{
    if a < b {
        lemma_page_list_grows(sources, a, b - 1);
    }
}

/// Gives the object that `page` stands for a `Parent` entry that refers to
/// `parent`, if that object is a dictionary, and stores it under `page`.
fn set_parent(doc: &mut PdfDocument, page: ObjectId, parent: ObjectId)
    ensures
        final(doc)@ == (DocumentValue {
            objects: adopted(old(doc)@.objects, page, parent),
            ..old(doc)@
        }),
{
    doc.identifiers_hold();
    let updated = match doc.get_object(page) {
        Some(PdfObject::Dictionary(d)) => {
            let mut d = d.clone();
            d.set(key("Parent"), PdfObject::Reference(parent));
            Some(PdfObject::Dictionary(d))
        },
        _ => None,
    };
    match updated {
        Some(object) => {
            doc.set_object(page, object);
        },
        None => {},
    }
}

/// An array object of references to `ids`, in order.
fn reference_array(ids: &Vec<ObjectId>) -> (r: Vec<PdfObject>)
    ensures
        array_view(r@) == references(ids@),
{
    let mut out: Vec<PdfObject> = Vec::new();
    let mut i: usize = 0;
    while i < ids.len()
        invariant
            i <= ids.len(),
            out.len() == i,
            forall|j: int| 0 <= j < i ==> out@[j]@ == Value::Reference(ids@[j]),
        decreases ids.len() - i,
    {
        out.push(PdfObject::Reference(ids[i]));
        i += 1;
    }
    assert(array_view(out@) =~= references(ids@));
    out
}

/// Merges documents into one.
///
/// Each input is moved up to object numbers above those of the inputs before
/// it, the first by 1, and its objects are taken over. The merged document
/// gets a new page tree root, whose kids are the pages of all inputs in input
/// order and whose count is their number, and a new catalog, under the next
/// two object numbers; every page gets the new root as parent, and the
/// trailer names the catalog as root. In the merged document no two objects
/// share an identifier, and its counter lies above every identifier present.
/// The result is `None` where the object numbers or the page count do not
/// fit.
pub fn merge_documents(sources: Vec<MergeSource>) -> (r: Option<PdfDocument>)
    ensures
        mergeable(sources_view(sources@)) ==> r is Some && r->0@ == merged(
            sources_view(sources@),
        ),
        !mergeable(sources_view(sources@)) ==> r is None,
        r matches Some(d) ==> d.ids().no_duplicates() && d@.ids_bounded(),
{
    let ghost views = sources_view(sources@);
    let ghost n = sources@.len() as int;
    let mut combined = PdfDocument::with_version("1.5");
    let ghost empty = combined@;
    let mut page_ids: Vec<ObjectId> = Vec::new();
    let mut next: u32 = 1;
    for source in it: sources
        invariant
            it.seq() == sources@,
            views == sources_view(sources@),
            n == sources@.len(),
            next == next_id(views, it.index() as int),
            next >= 1,
            combined@ == (DocumentValue {
                objects: absorbed(views, it.index() as int),
                max_id: (next - 1) as u32,
                ..empty
            }),
            page_ids@ == page_list(views, it.index() as int),
    {
        let ghost k = it.index() as int;
        let ghost view = views[k];
        assert(view == source@);
        let MergeSource { document, pages } = source;
        let mut document = document;
        let offset = next;
        proof {
            lemma_next_id_grows(views, k + 1, n);
            lemma_page_list_grows(views, k + 1, n);
        }
        if !document.renumber(offset) {
            return None;
        }
        if document.max_id() == u32::MAX {
            return None;
        }
        next = document.max_id() + 1;
        let mut j: usize = 0;
        while j < pages.len()
            invariant
                j <= pages.len(),
                page_ids@ == page_list(views, k) + shifted_pages(pages@, offset).take(j as int),
            decreases pages.len() - j,
        {
            page_ids.push(shifted_id(pages[j], offset));
            assert(shifted_pages(pages@, offset).take(j + 1) =~= shifted_pages(
                pages@,
                offset,
            ).take(j as int).push(shift_id(pages@[j as int], offset)));
            j += 1;
        }
        assert(shifted_pages(pages@, offset).take(pages.len() as int) =~= shifted_pages(
            pages@,
            offset,
        ));
        let ghost shifted_max = document@.max_id;
        let batch = document.into_objects();
        proof {
            lemma_greatest_number_within(batch@, combined@.max_id, shifted_max);
        }
        combined.merge_bulk(batch);
        combined.raise_max_id(next - 1);
        proof {
            assert(next_id(views, k + 1) == next_id(views, k) + view.doc.max_id + 1);
            assert(absorbed(views, k + 1) == absorbed(views, k).union_prefer_right(
                shift_objects(view.doc.objects, offset),
            ));
            assert(page_list(views, k + 1) == page_list(views, k) + shifted_pages(
                view.pages,
                offset,
            ));
        }
    }
    assert(next == next_id(views, n));
    assert(page_ids@ == page_list(views, n));
    if page_ids.len() as u64 > i64::MAX as u64 {
        return None;
    }
    let count: i64 = page_ids.len() as i64;
    let pages_id = match combined.new_object_id() {
        Some(id) => id,
        None => {
            return None;
        },
    };
    let catalog_id = match combined.new_object_id() {
        Some(id) => id,
        None => {
            return None;
        },
    };
    let mut pages_object = PdfDict::new();
    pages_object.set(key("Type"), PdfObject::Name(key("Pages")));
    pages_object.set(key("Count"), PdfObject::Integer(count));
    pages_object.set(key("Kids"), PdfObject::Array(reference_array(&page_ids)));
    let mut catalog_object = PdfDict::new();
    catalog_object.set(key("Type"), PdfObject::Name(key("Catalog")));
    catalog_object.set(key("Pages"), PdfObject::Reference(pages_id));
    combined.set_object(catalog_id, PdfObject::Dictionary(catalog_object));
    combined.set_object(pages_id, PdfObject::Dictionary(pages_object));
    combined.set_trailer(key("Root"), PdfObject::Reference(catalog_id));
    let ghost base = combined@;
    assert(base.objects == absorbed(views, n).insert(catalog_id, catalog(pages_id)).insert(
        pages_id,
        pages_root(page_ids@),
    ));
    let mut j: usize = 0;
    while j < page_ids.len()
        invariant
            j <= page_ids.len(),
            combined@ == (DocumentValue {
                objects: reparented(base.objects, page_ids@, j as int, pages_id),
                ..base
            }),
        decreases page_ids.len() - j,
    {
        set_parent(&mut combined, page_ids[j], pages_id);
        j += 1;
    }
    combined.identifiers_hold();
    Some(combined)
}

/// The input that the bytes of a readable file hold: the document read from
/// them, its counter raised above every object read, and its pages.
pub open spec fn source_of(bytes: Seq<u8>) -> SourceValue {
    let doc = normalized(loaded(bytes)->0);
    SourceValue { doc, pages: page_tree(doc) }
}

/// Reads one input of a merge from the bytes of a file.
pub fn load_source(bytes: &[u8]) -> (r: Result<MergeSource, Error>)
    ensures
        r matches Ok(source) ==> loaded(bytes@) is Some && source@ == source_of(bytes@),
        r is Err ==> loaded(bytes@) is None && r matches Err(Error::Pdf(_)),
{
    match PdfDocument::load(bytes) {
        Ok(document) => {
            let pages = document.pages();
            Ok(MergeSource { document, pages })
        },
        Err(e) => Err(e),
    }
}

/// Whether the file of input `i` was not there to be read.
pub open spec fn is_missing(contents: Seq<Option<Vec<u8>>>, i: int) -> bool {
    i >= contents.len() || contents[i] is None
}

/// The least index from `from` up to `n` of a file that was not there, or
/// `n`.
pub open spec fn first_missing(contents: Seq<Option<Vec<u8>>>, n: int, from: int) -> int
    decreases n - from,
{
    if from >= n {
        n
    } else if is_missing(contents, from) {
        from
    } else {
        first_missing(contents, n, from + 1)
    }
}

/// Whether the bytes of a file are no PDF that can be read (see
/// [`PdfDocument::load`]), or a PDF without pages.
pub open spec fn is_defective(bytes: Seq<u8>) -> bool {
    loaded(bytes) is None || source_of(bytes).pages.len() == 0
}

/// The least index from `from` up to `n` of a file that is defective, or `n`.
pub open spec fn first_defective(contents: Seq<Option<Vec<u8>>>, n: int, from: int) -> int
    decreases n - from,
{
    if from >= n {
        n
    } else if is_defective(contents[from]->0@) {
        from
    } else {
        first_defective(contents, n, from + 1)
    }
}

/// The inputs that the files hold, in order.
pub open spec fn sources_of(contents: Seq<Option<Vec<u8>>>, n: int) -> Seq<SourceValue> {
    Seq::new(n as nat, |i: int| source_of(contents[i]->0@))
}

/// How a merge ends.
pub enum MergeOutcome {
    /// No input was named.
    NoInput,
    /// The file of the input with this index does not exist.
    Missing(int),
    /// The file of the input with this index is no PDF that can be read: no
    /// PDF at all, or an encrypted one.
    Unreadable(int),
    /// The document of the input with this index has no pages.
    Empty(int),
    /// The object numbers or the page count do not fit.
    TooLarge,
    /// The inputs were merged into this document.
    Merged(DocumentValue),
}

/// How the merge of `n` named inputs ends, given what was read of their
/// files: without any input it fails; else every file must exist, the first
/// that does not is reported; else every file must hold a PDF with pages, the
/// first that does not is reported; else the documents are merged, and the
/// streams of the result compressed.
pub open spec fn merge_outcome(n: int, contents: Seq<Option<Vec<u8>>>) -> MergeOutcome {
    if n <= 0 {
        MergeOutcome::NoInput
    } else if first_missing(contents, n, 0) < n {
        MergeOutcome::Missing(first_missing(contents, n, 0))
    } else if first_defective(contents, n, 0) < n {
        let i = first_defective(contents, n, 0);
        if loaded(contents[i]->0@) is None {
            MergeOutcome::Unreadable(i)
        } else {
            MergeOutcome::Empty(i)
        }
    } else if !mergeable(sources_of(contents, n)) {
        MergeOutcome::TooLarge
    } else {
        let d = merged(sources_of(contents, n));
        MergeOutcome::Merged(DocumentValue { objects: compress_objects(d.objects), ..d })
    }
}

/// Whether `r` is what the merge of the inputs at `paths` returns for the
/// outcome `outcome`.
pub open spec fn reports_outcome(
    r: Result<PdfDocument, Error>,
    outcome: MergeOutcome,
    paths: Seq<PathBuf>,
) -> bool {
    match outcome {
        MergeOutcome::NoInput => r matches Err(Error::General(m)) && m@
            == "No input files provided"@,
        MergeOutcome::Missing(i) => r matches Err(Error::FileNotFound(p)) && p == paths[i],
        MergeOutcome::Unreadable(_) => r matches Err(Error::Pdf(_)),
        MergeOutcome::Empty(i) => r matches Err(Error::EmptyPdf(p)) && p == paths[i],
        MergeOutcome::TooLarge => r matches Err(Error::General(m)) && m@
            == "Too many objects or pages to merge"@,
        MergeOutcome::Merged(d) => r matches Ok(doc) && doc@ == d,
    }
}

/// Merges the documents read from the input files into one document.
///
/// `contents` holds, for each path of `options.input_paths` in order, the
/// bytes of the file, or `None` where the file does not exist; a path
/// without an entry counts as a file that does not exist. See
/// [`merge_outcome`] for the result.
pub fn merge_inputs(options: &MergeOptions, contents: &Vec<Option<Vec<u8>>>) -> (r: Result<
    PdfDocument,
    Error,
>)
    ensures
        reports_outcome(
            r,
            merge_outcome(options.input_paths@.len() as int, contents@),
            options.input_paths@,
        ),
{
    let n = options.input_paths.len();
    if n == 0 {
        return Err(Error::General("No input files provided".to_owned()));
    }
    let mut i: usize = 0;
    while i < n
        invariant
            i <= n,
            n == options.input_paths@.len(),
            first_missing(contents@, n as int, 0) == first_missing(contents@, n as int, i as int),
            forall|j: int| 0 <= j < i ==> !is_missing(contents@, j),
        decreases n - i,
    {
        if i >= contents.len() || contents[i].is_none() {
            return Err(Error::FileNotFound(options.input_paths[i].clone()));
        }
        i += 1;
    }
    let mut sources: Vec<MergeSource> = Vec::new();
    let mut i: usize = 0;
    while i < n
        invariant
            i <= n,
            n == options.input_paths@.len(),
            first_missing(contents@, n as int, 0) == n,
            forall|j: int| 0 <= j < n ==> !is_missing(contents@, j),
            first_defective(contents@, n as int, 0) == first_defective(
                contents@,
                n as int,
                i as int,
            ),
            sources_view(sources@) == sources_of(contents@, i as int),
        decreases n - i,
    {
        assert(!is_missing(contents@, i as int));
        let bytes = match &contents[i] {
            Some(b) => b,
            None => {
                return Err(Error::FileNotFound(options.input_paths[i].clone()));
            },
        };
        match load_source(bytes.as_slice()) {
            Err(e) => {
                return Err(e);
            },
            Ok(source) => {
                if source.pages.len() == 0 {
                    return Err(Error::EmptyPdf(options.input_paths[i].clone()));
                }
                let ghost before = sources_view(sources@);
                let ghost view = source@;
                assert(view == source_of(contents@[i as int]->0@));
                sources.push(source);
                assert(sources_view(sources@) =~= before.push(view));
                assert(before.push(view) =~= sources_of(contents@, i + 1));
            },
        }
        i += 1;
    }
    match merge_documents(sources) {
        None => Err(Error::General("Too many objects or pages to merge".to_owned())),
        Some(mut document) => {
            document.compress();
            Ok(document)
        },
    }
}

/// Merges the PDF files named by `options.input_paths` into one and returns
/// the bytes to write to `options.output_path`.
///
/// `contents` holds, for each input path in order, the bytes of the file, or
/// `None` where the file does not exist. The merge fails as [`merge_inputs`]
/// does; where that gives a document, the result is what
/// [`PdfDocument::save`] makes of it: the bytes that the PDF writer writes
/// for a document with the merged model, or the writer's error.
pub fn merge_pdfs(options: &MergeOptions, contents: &Vec<Option<Vec<u8>>>) -> (r: Result<
    Vec<u8>,
    Error,
>)
    ensures
        match merge_outcome(options.input_paths@.len() as int, contents@) {
            MergeOutcome::NoInput => r matches Err(Error::General(m)) && m@
                == "No input files provided"@,
            MergeOutcome::Missing(i) => r matches Err(Error::FileNotFound(p)) && p
                == options.input_paths@[i],
            MergeOutcome::Unreadable(_) => r matches Err(Error::Pdf(_)),
            MergeOutcome::Empty(i) => r matches Err(Error::EmptyPdf(p)) && p
                == options.input_paths@[i],
            MergeOutcome::TooLarge => r matches Err(Error::General(m)) && m@
                == "Too many objects or pages to merge"@,
            MergeOutcome::Merged(d) => exists|doc: PdfDocument|
                #![trigger doc.syntax()]
                doc@ == d && (match saved(doc.syntax()) {
                    Ok(bytes) => r matches Ok(v) && v@ == bytes,
                    Err(message) => r matches Err(Error::Io(m)) && m@ == message,
                }),
        },
{
    match merge_inputs(options, contents) {
        Ok(document) => document.save(),
        Err(e) => Err(e),
    }
}

} // verus!
