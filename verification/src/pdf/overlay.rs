//! Laying the pages of one document over the pages of another, and the
//! merging of resource dictionaries that goes with it.

use crate::error::Error;
use crate::pdf::codec::{loaded, page_tree, saved};
use crate::pdf::document::{
    lemma_followed_after_insert, lemma_followed_in_union, lemma_followed_no_reference,
    lemma_greatest_number_within, normalized, resolved, shift_objects, DocumentValue,
    PdfDocument,
};
use crate::pdf::merge::renumber_object_references;
use crate::pdf::object::{
    array_view, copy_array, entries_view, key, lemma_entries_view_push, name, new_stream,
    shift_value, ObjectId, PdfDict, PdfObject, PdfStream, Value,
};
use crate::pdf::stamp::{
    all_present, entry, first_absent, is_exhausted, is_page_missing, own_resources,
    page_resources,
};
use crate::text::{append_chars, append_str, chars_of, decimal, decimal_chars, string_of};
use vstd::prelude::*;

verus! {

/// What a name of a resource dictionary holds after a donor gave it the
/// value `donor`: where both the existing and the donor's value are
/// dictionaries, the existing entries with the donor's entries on top of
/// them; else the donor's value.
pub open spec fn combined(existing: Option<Value>, donor: Value) -> Value {
    match (existing, donor) {
        (Some(Value::Dictionary(a)), Value::Dictionary(b)) => Value::Dictionary(
            a.union_prefer_right(b),
        ),
        _ => donor,
    }
}

/// A resource dictionary after a donor's resources were merged into it:
/// every category of the donor is taken over where the target lacks it, and
/// merged name by name where both have it, the donor's entry winning.
pub open spec fn merged_dict(target: Map<Seq<u8>, Value>, donor: Map<Seq<u8>, Value>) -> Map<
    Seq<u8>,
    Value,
> {
    Map::new(
        |k: Seq<u8>| target.contains_key(k) || donor.contains_key(k),
        |k: Seq<u8>|
            if donor.contains_key(k) {
                combined(entry(target, k), donor[k])
            } else {
                target[k]
            },
    )
}

/// The resources of a page after a donor's resources were merged into them:
/// always a dictionary of the page's own. A page whose `Resources` entry is a
/// dictionary starts from it; any other page starts from an empty dictionary.
/// Resources of a donor that are no dictionary add nothing.
pub open spec fn merged_resources(existing: Option<Value>, donor: Value) -> Value {
    let base = match existing {
        Some(Value::Dictionary(t)) => t,
        _ => Map::empty(),
    };
    match donor {
        Value::Dictionary(d) => Value::Dictionary(merged_dict(base, d)),
        _ => Value::Dictionary(base),
    }
}

/// Sets every entry of `donor` in `target`.
fn set_all(target: &mut PdfDict, donor: &PdfDict)
    ensures
        final(target)@ == old(target)@.union_prefer_right(donor@),
{
    let mut i: usize = 0;
    assert(donor.entries@.take(0) =~= Seq::<(Vec<u8>, PdfObject)>::empty());
    assert(old(target)@.union_prefer_right(entries_view(donor.entries@.take(0))) =~= old(
        target,
    )@);
    while i < donor.entries.len()
        invariant
            i <= donor.entries.len(),
            target@ == old(target)@.union_prefer_right(entries_view(donor.entries@.take(i as int))),
        decreases donor.entries.len() - i,
    {
        let e = &donor.entries[i];
        proof {
            lemma_entries_view_push(donor.entries@.take(i as int), *e);
            assert(donor.entries@.take(i + 1) =~= donor.entries@.take(i as int).push(*e));
            assert(old(target)@.union_prefer_right(
                entries_view(donor.entries@.take(i as int)).insert(e.0@, e.1@),
            ) =~= old(target)@.union_prefer_right(
                entries_view(donor.entries@.take(i as int)),
            ).insert(e.0@, e.1@));
        }
        target.set(e.0.clone(), e.1.clone());
        i += 1;
    }
    assert(donor.entries@.take(donor.entries.len() as int) =~= donor.entries@);
}

/// Merges the resources of a donor into the resources of a page.
///
/// The page dictionary gets a `Resources` entry that is a dictionary of its
/// own: its existing dictionary of resources, or an empty one where its entry
/// was none, with every category of the donor taken over where the page lacks
/// it and merged name by name where both have it. Where both name the same
/// resource, the donor's entry replaces the page's. Nothing but the page
/// dictionary changes. Resources that the page only refers to are not read
/// here: see [`overlaid_page`], which copies them into the page first.
pub fn merge_resources(page_dict: &mut PdfDict, watermark_resources: &PdfObject)
    ensures
        final(page_dict)@ == old(page_dict)@.insert(
            name("Resources"),
            merged_resources(entry(old(page_dict)@, name("Resources")), watermark_resources@),
        ),
{
    let target = match page_dict.get(key("Resources").as_slice()) {
        Some(PdfObject::Dictionary(t)) => t.clone(),
        _ => PdfDict::new(),
    };
    let merged = match watermark_resources {
        PdfObject::Dictionary(donor) => {
            let mut acc = target.clone();
            let mut i: usize = 0;
            assert(donor.entries@.take(0) =~= Seq::<(Vec<u8>, PdfObject)>::empty());
            assert(merged_dict(target@, entries_view(donor.entries@.take(0))) =~= target@);
            while i < donor.entries.len()
                invariant
                    i <= donor.entries.len(),
                    acc@ == merged_dict(target@, entries_view(donor.entries@.take(i as int))),
                decreases donor.entries.len() - i,
            {
                let e = &donor.entries[i];
                let value = match (target.get(e.0.as_slice()), &e.1) {
                    (Some(PdfObject::Dictionary(a)), PdfObject::Dictionary(b)) => {
                        let mut sub = a.clone();
                        set_all(&mut sub, b);
                        PdfObject::Dictionary(sub)
                    },
                    _ => e.1.clone(),
                };
                assert(value@ == combined(entry(target@, e.0@), e.1@));
                proof {
                    lemma_entries_view_push(donor.entries@.take(i as int), *e);
                    assert(donor.entries@.take(i + 1) =~= donor.entries@.take(i as int).push(*e));
                    assert(merged_dict(
                        target@,
                        entries_view(donor.entries@.take(i as int)).insert(e.0@, e.1@),
                    ) =~= merged_dict(
                        target@,
                        entries_view(donor.entries@.take(i as int)),
                    ).insert(e.0@, value@));
                }
                acc.set(e.0.clone(), value);
                i += 1;
            }
            assert(donor.entries@.take(donor.entries.len() as int) =~= donor.entries@);
            PdfObject::Dictionary(acc)
        },
        _ => PdfObject::Dictionary(target),
    };
    page_dict.set(key("Resources"), merged);
}

/// The contents of a page as a list, with every reference moved up by
/// `offset`: a single reference is a list of one, an array is its items, any
/// other value is a list of that value, and no contents an empty list.
pub open spec fn content_list(contents: Option<Value>, offset: u32) -> Seq<Value> {
    match contents {
        None => Seq::empty(),
        Some(v) => match shift_value(v, offset) {
            Value::Reference(id) => seq![Value::Reference(id)],
            Value::Array(items) => items,
            other => seq![other],
        },
    }
}

/// What a page gives to the page it is laid over: its contents as a list and
/// its resources, an empty dictionary where it has none, both with every
/// reference moved up by `offset`. A value that is no dictionary gives
/// nothing.
pub open spec fn overlay_parts(page: Value, offset: u32) -> Option<(Seq<Value>, Value)> {
    match page {
        Value::Dictionary(d) => Some(
            (
                content_list(entry(d, name("Contents")), offset),
                match entry(d, name("Resources")) {
                    Some(r) => shift_value(r, offset),
                    None => Value::Dictionary(Map::empty()),
                },
            ),
        ),
        _ => None,
    }
}

/// The model of what [`get_page_content_and_resources`] returns.
pub open spec fn parts_view(parts: Option<(Vec<PdfObject>, PdfObject)>) -> Option<
    (Seq<Value>, Value),
> {
    match parts {
        Some(p) => Some((array_view(p.0@), p.1@)),
        None => None,
    }
}

/// Reads from the page `page_id` of a document what it gives to a page that
/// it is laid over: its contents as a list of objects and its resources,
/// with every reference moved up by `offset` (see [`overlay_parts`]). A page
/// that is no dictionary gives `None`; a page that stands for no object of
/// the document is an error. The page is the object that `page_id` stands
/// for, which may be stored behind references.
pub fn get_page_content_and_resources(doc: &PdfDocument, page_id: ObjectId, offset: u32) -> (r:
    Result<Option<(Vec<PdfObject>, PdfObject)>, Error>)
    ensures
        resolved(doc@.objects, page_id) is None ==> (r matches Err(e) && is_page_missing(e)),
        resolved(doc@.objects, page_id) is Some ==> (r matches Ok(parts) && parts_view(parts)
            == overlay_parts(resolved(doc@.objects, page_id)->0, offset)),
{
    match doc.get_object(page_id) {
        None => Err(Error::Pdf("Page object not found".to_owned())),
        Some(PdfObject::Dictionary(d)) => {
            let contents: Vec<PdfObject> = match d.get(key("Contents").as_slice()) {
                Some(c) => match renumber_object_references(c, offset) {
                    PdfObject::Reference(id) => {
                        let mut list: Vec<PdfObject> = Vec::new();
                        list.push(PdfObject::Reference(id));
                        assert(array_view(list@) =~= seq![Value::Reference(id)]);
                        list
                    },
                    PdfObject::Array(items) => items,
                    other => {
                        let ghost view = other@;
                        let mut list: Vec<PdfObject> = Vec::new();
                        list.push(other);
                        assert(array_view(list@) =~= seq![view]);
                        list
                    },
                },
                None => {
                    let list: Vec<PdfObject> = Vec::new();
                    assert(array_view(list@) =~= Seq::<Value>::empty());
                    list
                },
            };
            let resources = match d.get(key("Resources").as_slice()) {
                Some(r) => renumber_object_references(r, offset),
                None => PdfObject::Dictionary(PdfDict::new()),
            };
            Ok(Some((contents, resources)))
        },
        Some(_) => Ok(None),
    }
}

/// The contents of a page after `extra` was appended to them.
pub open spec fn overlaid_contents(existing: Option<Value>, extra: Seq<Value>) -> Seq<Value> {
    match existing {
        Some(Value::Reference(id)) => seq![Value::Reference(id)] + extra,
        Some(Value::Array(items)) => items + extra,
        _ => extra,
    }
}

/// A page after another page was laid over it: the other page's contents
/// follow its own, and the other page's resources are merged into a copy of
/// its own, whether those stood in the page or in a dictionary that the page
/// referred to (see [`own_resources`]). The page ends with a dictionary of
/// resources of its own; a dictionary that it referred to is not changed. A
/// value that is no dictionary, or a page that nothing is laid over, stays as
/// it is.
pub open spec fn overlaid_page(
    objects: Map<ObjectId, Value>,
    page: Value,
    parts: Option<(Seq<Value>, Value)>,
) -> Value {
    match (page, parts) {
        (Value::Dictionary(d), Some(p)) => Value::Dictionary(
            d.insert(
                name("Contents"),
                Value::Array(overlaid_contents(entry(d, name("Contents")), p.0)),
            ).insert(
                name("Resources"),
                merged_resources(Some(Value::Dictionary(own_resources(objects, d))), p.1),
            ),
        ),
        _ => page,
    }
}

/// Lays what another page gives over a page (see [`overlaid_page`]).
fn overlay_page(
    doc: &PdfDocument,
    page: &PdfObject,
    parts: &Option<(Vec<PdfObject>, PdfObject)>,
) -> (r: PdfObject)
    ensures
        r@ == overlaid_page(doc@.objects, page@, parts_view(*parts)),
{
    match (page, parts) {
        (PdfObject::Dictionary(d), Some(p)) => {
            let mut contents: Vec<PdfObject> = match d.get(key("Contents").as_slice()) {
                Some(PdfObject::Reference(id)) => {
                    let mut list: Vec<PdfObject> = Vec::new();
                    list.push(PdfObject::Reference(*id));
                    assert(array_view(list@) =~= seq![Value::Reference(*id)]);
                    list
                },
                Some(PdfObject::Array(items)) => copy_array(items),
                _ => {
                    let list: Vec<PdfObject> = Vec::new();
                    assert(array_view(list@) =~= Seq::<Value>::empty());
                    list
                },
            };
            let ghost own = array_view(contents@);
            let mut i: usize = 0;
            while i < p.0.len()
                invariant
                    i <= p.0.len(),
                    array_view(contents@) == own + array_view(p.0@).take(i as int),
                decreases p.0.len() - i,
            {
                let ghost before = array_view(contents@);
                contents.push(p.0[i].clone());
                assert(array_view(contents@) =~= before.push(p.0@[i as int]@));
                assert(array_view(p.0@).take(i + 1) =~= array_view(p.0@).take(i as int).push(
                    p.0@[i as int]@,
                ));
                i += 1;
            }
            assert(array_view(p.0@).take(p.0.len() as int) =~= array_view(p.0@));
            let resources = page_resources(doc, d);
            let mut d = d.clone();
            d.set(key("Contents"), PdfObject::Array(contents));
            d.set(key("Resources"), PdfObject::Dictionary(resources));
            let ghost resolved = d@;
            merge_resources(&mut d, &p.1);
            assert(d@ =~= resolved.insert(
                name("Resources"),
                merged_resources(Some(Value::Dictionary(resources@)), p.1@),
            ));
            assert(d@ =~= overlaid_page(doc@.objects, page@, parts_view(*parts))->Dictionary_0);
            PdfObject::Dictionary(d)
        },
        _ => page.clone(),
    }
}

/// The objects after the first `upto` pages of `pages` each had the page of
/// `over` at its place laid over it.
pub open spec fn overlaid(
    objects: Map<ObjectId, Value>,
    pages: Seq<ObjectId>,
    over_objects: Map<ObjectId, Value>,
    over_pages: Seq<ObjectId>,
    offset: u32,
    upto: int,
) -> Map<ObjectId, Value>
    decreases upto,
{
    if upto <= 0 {
        objects
    } else {
        let before = overlaid(objects, pages, over_objects, over_pages, offset, upto - 1);
        before.insert(
            pages[upto - 1],
            overlaid_page(
                before,
                resolved(before, pages[upto - 1])->0,
                overlay_parts(resolved(over_objects, over_pages[upto - 1])->0, offset),
            ),
        )
    }
}

/// The document after `over` was laid over it: the objects of `over` are
/// taken over, moved up above the objects of the document, and page by page
/// the pages of `over` are laid over the pages of the document.
pub open spec fn overlay_result(
    v: DocumentValue,
    pages: Seq<ObjectId>,
    over: DocumentValue,
    over_pages: Seq<ObjectId>,
) -> DocumentValue {
    let offset = (v.max_id + 1) as u32;
    DocumentValue {
        objects: overlaid(
            v.objects.union_prefer_right(shift_objects(over.objects, offset)),
            pages,
            over.objects,
            over_pages,
            offset,
            pages.len() as int,
        ),
        max_id: (over.max_id + offset) as u32,
        ..v
    }
}

/// The message for two documents with different numbers of pages.
pub open spec fn mismatch_text(pages: nat, over_pages: nat) -> Seq<char> {
    "Page count mismatch: source has "@ + decimal(pages) + " pages, watermark has "@ + decimal(
        over_pages,
    ) + " pages"@
}

/// How laying one document over another ends.
pub enum OverlayOutcome {
    /// The two documents have different numbers of pages.
    Mismatch,
    /// The object numbers do not suffice for the objects of both.
    Exhausted,
    /// The identifier of a page that is to be overlaid, or to be laid over
    /// one, stands for no object of its document.
    PageMissing,
    /// This is the document with the other laid over it.
    Overlaid(DocumentValue),
}

/// How laying `over` over a document ends.
pub open spec fn overlay_outcome(
    v: DocumentValue,
    pages: Seq<ObjectId>,
    over: DocumentValue,
    over_pages: Seq<ObjectId>,
) -> OverlayOutcome {
    if pages.len() != over_pages.len() {
        OverlayOutcome::Mismatch
    } else if v.max_id + 1 + over.max_id > u32::MAX {
        OverlayOutcome::Exhausted
    } else if !all_present(v.objects, pages) || !all_present(over.objects, over_pages) {
        OverlayOutcome::PageMissing
    } else {
        OverlayOutcome::Overlaid(overlay_result(v, pages, over, over_pages))
    }
}

/// Whether `r` with the document `after` is what laying over returns for
/// the outcome `outcome`, where the document was `before`.
pub open spec fn reports_overlay(
    r: Result<(), Error>,
    after: DocumentValue,
    before: DocumentValue,
    outcome: OverlayOutcome,
    pages: nat,
    over_pages: nat,
) -> bool {
    match outcome {
        OverlayOutcome::Mismatch => (r matches Err(Error::General(m)) && m@ == mismatch_text(
            pages,
            over_pages,
        )) && after == before,
        OverlayOutcome::Exhausted => (r matches Err(e) && is_exhausted(e)) && after == before,
        OverlayOutcome::PageMissing => (r matches Err(e) && is_page_missing(e)) && after
            == before,
        OverlayOutcome::Overlaid(d) => r is Ok && after == d,
    }
}

/// Whether every page of `pages` stands for an object of the document.
fn has_all(doc: &PdfDocument, pages: &Vec<ObjectId>) -> (r: bool)
    ensures
        r == all_present(doc@.objects, pages@),
        r ==> forall|j: int|
            0 <= j < pages.len() ==> resolved(doc@.objects, #[trigger] pages@[j]) is Some,
{
    let mut i: usize = 0;
    while i < pages.len()
        invariant
            i <= pages.len(),
            first_absent(doc@.objects, pages@, 0) == first_absent(doc@.objects, pages@, i as int),
            forall|j: int| 0 <= j < i ==> resolved(doc@.objects, #[trigger] pages@[j]) is Some,
        decreases pages.len() - i,
    {
        if doc.get_object(pages[i]).is_none() {
            return false;
        }
        i += 1;
    }
    true
}

/// Lays the pages of the document `over` over the pages of `doc`, the first
/// over the first and so on.
///
/// The objects of `over` are taken over into `doc` under object numbers
/// above those of `doc`, with their references moved accordingly. Each page
/// of `doc` then draws, after its own contents, the contents of the page laid
/// over it, and has that page's resources merged into its own. Nothing is
/// changed, and the error says why, where the two page lists differ in
/// length, the object numbers do not suffice, or a page stands for no object
/// of its document. A page is the object that its identifier stands for,
/// which may be stored behind references; what is changed is stored under
/// the page's identifier.
pub fn overlay_documents(
    doc: &mut PdfDocument,
    pages: &Vec<ObjectId>,
    over: PdfDocument,
    over_pages: &Vec<ObjectId>,
) -> (r: Result<(), Error>)
    ensures
        reports_overlay(
            r,
            final(doc)@,
            old(doc)@,
            overlay_outcome(old(doc)@, pages@, over@, over_pages@),
            pages@.len(),
            over_pages@.len(),
        ),
{
    if pages.len() != over_pages.len() {
        let mut text = chars_of("Page count mismatch: source has ");
        append_chars(&mut text, &decimal_chars(pages.len() as u128));
        append_str(&mut text, " pages, watermark has ");
        append_chars(&mut text, &decimal_chars(over_pages.len() as u128));
        append_str(&mut text, " pages");
        return Err(Error::General(string_of(&text)));
    }
    if doc.max_id() as u64 + 1 + over.max_id() as u64 > u32::MAX as u64 {
        return Err(Error::General("No object number is left".to_owned()));
    }
    if !has_all(doc, pages) || !has_all(&over, over_pages) {
        return Err(Error::Pdf("Page object not found".to_owned()));
    }
    doc.identifiers_hold();
    let offset: u32 = doc.max_id() + 1;
    let count = pages.len();
    let ghost over_view = over@;
    let mut parts: Vec<Option<(Vec<PdfObject>, PdfObject)>> = Vec::new();
    let mut i: usize = 0;
    while i < count
        invariant
            i <= count,
            count == over_pages.len(),
            over@ == over_view,
            parts.len() == i,
            forall|j: int|
                0 <= j < count ==> resolved(over@.objects, #[trigger] over_pages@[j]) is Some,
            forall|j: int|
                0 <= j < i ==> parts_view(#[trigger] parts@[j]) == overlay_parts(
                    resolved(over_view.objects, over_pages@[j])->0,
                    offset,
                ),
        decreases count - i,
    {
        assert(resolved(over@.objects, over_pages@[i as int]) is Some);
        match get_page_content_and_resources(&over, over_pages[i], offset) {
            Ok(p) => {
                parts.push(p);
            },
            Err(e) => {
                return Err(e);
            },
        }
        i += 1;
    }
    let mut over = over;
    let moved = over.renumber(offset);
    assert(moved);
    let top = over.max_id();
    let batch = over.into_objects();
    proof {
        lemma_greatest_number_within(batch@, doc@.max_id, top);
    }
    doc.merge_bulk(batch);
    doc.raise_max_id(top);
    let ghost base = doc@.objects;
    assert(base == old(doc)@.objects.union_prefer_right(shift_objects(over_view.objects, offset)));
    proof {
        // The objects taken over stand above those of the document, so what
        // a page of the document stands for is as it was.
        assert forall|j: int| 0 <= j < count implies resolved(base, #[trigger] pages@[j])
            is Some by {
            lemma_followed_in_union(
                old(doc)@.objects,
                shift_objects(over_view.objects, offset),
                pages@[j],
                128,
            );
        }
    }
    let mut i: usize = 0;
    while i < count
        invariant
            i <= count,
            count == pages.len(),
            parts.len() == count,
            count == over_pages.len(),
            forall|j: int|
                0 <= j < count ==> parts_view(#[trigger] parts@[j]) == overlay_parts(
                    resolved(over_view.objects, over_pages@[j])->0,
                    offset,
                ),
            forall|j: int| 0 <= j < count ==> resolved(doc@.objects, #[trigger] pages@[j]) is Some,
            doc@ == (DocumentValue {
                objects: overlaid(
                    base,
                    pages@,
                    over_view.objects,
                    over_pages@,
                    offset,
                    i as int,
                ),
                max_id: top,
                ..old(doc)@
            }),
        decreases count - i,
    {
        doc.identifiers_hold();
        assert(resolved(doc@.objects, pages@[i as int]) is Some);
        let ghost before = doc@.objects;
        let updated = match doc.get_object(pages[i]) {
            Some(page) => overlay_page(doc, page, &parts[i]),
            None => PdfObject::Null,
        };
        proof {
            lemma_followed_no_reference(before, pages@[i as int], 128);
            assert forall|j: int| 0 <= j < count implies resolved(
                before.insert(pages@[i as int], updated@),
                #[trigger] pages@[j],
            ) is Some by {
                lemma_followed_after_insert(before, pages@[i as int], updated@, pages@[j], 128);
            }
        }
        doc.set_object(pages[i], updated);
        i += 1;
    }
    Ok(())
}

/// Lays the pages of the PDF file with the bytes `watermark` over the pages
/// of the PDF file with the bytes `source`, page by page, and returns the
/// bytes of the combined file.
///
/// Bytes that are no PDF, or an encrypted one, give an error of the PDF (see
/// [`PdfDocument::load`]). The documents are laid
/// over each other as [`overlay_documents`] does it, with the pages that
/// their page trees list, and fail as it does; where that succeeds, the
/// result is what [`PdfDocument::save`] makes of the document.
pub fn overlay_watermark(source: &[u8], watermark: &[u8]) -> (r: Result<Vec<u8>, Error>)
    ensures
        loaded(source@) is None || loaded(watermark@) is None ==> r matches Err(Error::Pdf(_)),
        loaded(source@) is Some && loaded(watermark@) is Some ==> ({
            let v = normalized(loaded(source@)->0);
            let over = normalized(loaded(watermark@)->0);
            match overlay_outcome(v, page_tree(v), over, page_tree(over)) {
                OverlayOutcome::Mismatch => r matches Err(Error::General(m)) && m@
                    == mismatch_text(page_tree(v).len(), page_tree(over).len()),
                OverlayOutcome::Exhausted => r matches Err(e) && is_exhausted(e),
                OverlayOutcome::PageMissing => r matches Err(e) && is_page_missing(e),
                OverlayOutcome::Overlaid(d) => exists|doc: PdfDocument|
                    #![trigger doc.syntax()]
                    doc@ == d && (match saved(doc.syntax()) {
                        Ok(bytes) => r matches Ok(v) && v@ == bytes,
                        Err(message) => r matches Err(Error::Io(m)) && m@ == message,
                    }),
            }
        }),
{
    let mut doc = match PdfDocument::load(source) {
        Ok(doc) => doc,
        Err(e) => {
            return Err(e);
        },
    };
    let over = match PdfDocument::load(watermark) {
        Ok(doc) => doc,
        Err(e) => {
            return Err(e);
        },
    };
    let pages = doc.pages();
    let over_pages = over.pages();
    match overlay_documents(&mut doc, &pages, over, &over_pages) {
        Ok(()) => doc.save(),
        Err(e) => Err(e),
    }
}

/// The identifiers that the first `upto` items of a contents array refer
/// to; items that are no references are passed over.
pub open spec fn referenced(items: Seq<Value>, upto: int) -> Seq<ObjectId>
    decreases upto,
{
    if upto <= 0 {
        Seq::empty()
    } else {
        referenced(items, upto - 1) + (match items[upto - 1] {
            Value::Reference(id) => seq![id],
            _ => Seq::empty(),
        })
    }
}

/// The streams that the contents of a page name: one for a reference, those
/// that an array refers to, and `None` for no contents or any other value.
pub open spec fn content_ids(contents: Option<Value>) -> Option<Seq<ObjectId>> {
    match contents {
        Some(Value::Reference(id)) => Some(seq![id]),
        Some(Value::Array(items)) => Some(referenced(items, items.len() as int)),
        _ => None,
    }
}

/// A save of the graphics state, then the content of each of the first
/// `upto` streams with a newline after it; an identifier that names no stream
/// adds nothing.
pub open spec fn bracket_start(objects: Map<ObjectId, Value>, ids: Seq<ObjectId>, upto: int) -> Seq<
    u8,
>
    decreases upto,
{
    if upto <= 0 {
        seq![113u8, 10u8]
    } else {
        bracket_start(objects, ids, upto - 1) + (match resolved(objects, ids[upto - 1]) {
            Some(Value::Stream(s)) => s.content + seq![10u8],
            _ => Seq::empty(),
        })
    }
}

/// The content of the streams `ids` between a save and a restore of the
/// graphics state: `q`, the contents in order, `Q`, each on lines of their
/// own.
pub open spec fn bracketed(objects: Map<ObjectId, Value>, ids: Seq<ObjectId>) -> Seq<u8> {
    bracket_start(objects, ids, ids.len() as int) + seq![81u8, 10u8]
}

/// The streams that the contents of a page name (see [`content_ids`]).
pub fn list_content_ids(contents: Option<&PdfObject>) -> (r: Option<Vec<ObjectId>>)
    ensures
        match contents {
            Some(c) => match r {
                Some(ids) => content_ids(Some(c@)) == Some(ids@),
                None => content_ids(Some(c@)) is None,
            },
            None => r is None,
        },
{
    match contents {
        Some(PdfObject::Reference(id)) => {
            let mut ids: Vec<ObjectId> = Vec::new();
            ids.push(*id);
            assert(ids@ =~= seq![*id]);
            Some(ids)
        },
        Some(PdfObject::Array(items)) => {
            let mut ids: Vec<ObjectId> = Vec::new();
            let mut i: usize = 0;
            while i < items.len()
                invariant
                    i <= items.len(),
                    ids@ == referenced(array_view(items@), i as int),
                decreases items.len() - i,
            {
                match &items[i] {
                    PdfObject::Reference(id) => {
                        ids.push(*id);
                    },
                    _ => {},
                }
                assert(ids@ =~= referenced(array_view(items@), i + 1));
                i += 1;
            }
            Some(ids)
        },
        _ => None,
    }
}

/// Puts the contents of a page between a save and a restore of the graphics
/// state, so that no transform of the page's content is in effect after it.
///
/// The contents of the streams that the page names are joined into one new
/// stream (see [`bracketed`]), which becomes the page's only content. The
/// existing streams stay in the document as they are. A page that is no
/// dictionary, or has no contents to speak of, is left alone. Without the
/// page, or without an object number left, nothing is changed and the error
/// says which.
pub fn wrap_page_content_in_graphics_state(doc: &mut PdfDocument, page_id: ObjectId) -> (r: Result<
    (),
    Error,
>)
    ensures
        resolved(old(doc)@.objects, page_id) is None ==> (r matches Err(e) && is_page_missing(e))
            && final(doc)@ == old(doc)@,
        resolved(old(doc)@.objects, page_id) is Some ==> (match resolved(
            old(doc)@.objects,
            page_id,
        )->0 {
            Value::Dictionary(d) => match content_ids(entry(d, name("Contents"))) {
                Some(ids) => if old(doc)@.max_id < u32::MAX {
                    r is Ok && final(doc)@ == (DocumentValue {
                        objects: old(doc)@.objects.insert(
                            ((old(doc)@.max_id + 1) as u32, 0u16),
                            Value::Stream(
                                new_stream(Map::empty(), bracketed(old(doc)@.objects, ids)),
                            ),
                        ).insert(
                            page_id,
                            Value::Dictionary(
                                d.insert(
                                    name("Contents"),
                                    Value::Reference(((old(doc)@.max_id + 1) as u32, 0u16)),
                                ),
                            ),
                        ),
                        max_id: (old(doc)@.max_id + 1) as u32,
                        ..old(doc)@
                    })
                } else {
                    (r matches Err(e) && is_exhausted(e)) && final(doc)@ == old(doc)@
                },
                None => r is Ok && final(doc)@ == old(doc)@,
            },
            _ => r is Ok && final(doc)@ == old(doc)@,
        }),
{
    doc.identifiers_hold();
    let (ids, page) = match doc.get_object(page_id) {
        None => {
            return Err(Error::Pdf("Page object not found".to_owned()));
        },
        Some(PdfObject::Dictionary(d)) => match list_content_ids(
            d.get(key("Contents").as_slice()),
        ) {
            Some(ids) => (ids, d.clone()),
            None => {
                return Ok(());
            },
        },
        Some(_) => {
            return Ok(());
        },
    };
    if doc.max_id() == u32::MAX {
        return Err(Error::General("No object number is left".to_owned()));
    }
    let mut content: Vec<u8> = Vec::new();
    content.push(113u8);
    content.push(10u8);
    let mut i: usize = 0;
    while i < ids.len()
        invariant
            i <= ids.len(),
            doc@ == old(doc)@,
            content@ == bracket_start(doc@.objects, ids@, i as int),
        decreases ids.len() - i,
    {
        match doc.get_object(ids[i]) {
            Some(PdfObject::Stream(s)) => {
                let mut k: usize = 0;
                let ghost before = content@;
                while k < s.content.len()
                    invariant
                        k <= s.content.len(),
                        content@ == before + s.content@.take(k as int),
                    decreases s.content.len() - k,
                {
                    content.push(s.content[k]);
                    k += 1;
                }
                assert(s.content@.take(s.content.len() as int) =~= s.content@);
                content.push(10u8);
                assert(content@ =~= before + (s.content@ + seq![10u8]));
            },
            _ => {},
        }
        i += 1;
    }
    content.push(81u8);
    content.push(10u8);
    assert(content@ =~= bracketed(doc@.objects, ids@));
    let stream = PdfObject::Stream(PdfStream::new(PdfDict::new(), content));
    let id = match doc.add_object(stream) {
        Some(id) => id,
        None => {
            return Err(Error::General("No object number is left".to_owned()));
        },
    };
    let mut page = page;
    page.set(key("Contents"), PdfObject::Reference(id));
    doc.set_object(page_id, PdfObject::Dictionary(page));
    Ok(())
}

} // verus!
