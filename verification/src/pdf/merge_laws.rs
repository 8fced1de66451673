//! What holds of every merged document.

use crate::pdf::document::{
    compress_objects, compress_value, followed, lemma_resolved_direct, resolved, shift_objects,
    DocumentValue,
};
use crate::pdf::merge::{
    absorbed, catalog, first_defective, first_missing, is_defective, is_missing,
    lemma_next_id_grows, lemma_page_list_grows, merge_outcome, mergeable, merged,
    merged_catalog_id, merged_pages_id, next_id, page_list, pages_root, reparented,
    shifted_pages, sources_of, with_parent, MergeOutcome, SourceValue,
};
use crate::pdf::metadata::declared_page_count;
use crate::pdf::object::{lemma_shift_value, name, shift_id, shift_value, ObjectId, Value};
use vstd::prelude::*;
use vstd::string::is_ascii_spec_bytes;

verus! {

/// The names that the merge writes are distinct from `Parent`.
pub proof fn lemma_parent_is_no_other_name()
    ensures
        name("Parent") != name("Pages"),
        name("Parent") != name("Count"),
        name("Parent") != name("Kids"),
        name("Parent") != name("Type"),
        name("Count") != name("Kids"),
        name("Count") != name("Type"),
        name("Kids") != name("Type"),
        name("Pages") != name("Type"),
{
    reveal_strlit("Parent");
    reveal_strlit("Pages");
    reveal_strlit("Count");
    reveal_strlit("Kids");
    reveal_strlit("Type");
    is_ascii_spec_bytes("Parent");
    is_ascii_spec_bytes("Pages");
    is_ascii_spec_bytes("Count");
    is_ascii_spec_bytes("Kids");
    is_ascii_spec_bytes("Type");
    assert(name("Parent").len() == 6);
    assert(name("Pages").len() == 5);
    assert(name("Count").len() == 5);
    assert(name("Kids").len() == 4);
    assert(name("Type").len() == 4);
    assert(name("Kids")[0] == 75u8);
    assert(name("Type")[0] == 84u8);
}

/// Giving pages a parent adds and removes no identifier, changes no object
/// but those stored under the pages' identifiers, and changes of an object
/// that is no reference no more than its `Parent` entry.
pub proof fn lemma_reparented_object(
    m: Map<ObjectId, Value>,
    pages: Seq<ObjectId>,
    upto: int,
    parent: ObjectId,
    id: ObjectId,
)
    requires
        0 <= upto <= pages.len(),
    ensures
        reparented(m, pages, upto, parent).contains_key(id) == m.contains_key(id),
        m.contains_key(id) && !pages.take(upto).contains(id) ==> reparented(
            m,
            pages,
            upto,
            parent,
        )[id] == m[id],
        m.contains_key(id) && !(m[id] is Reference) && pages.take(upto).contains(id)
            ==> reparented(m, pages, upto, parent)[id] == with_parent(m[id], parent),
    decreases upto,
{
    if upto > 0 {
        lemma_reparented_object(m, pages, upto - 1, parent, id);
        let before = reparented(m, pages, upto - 1, parent);
        let page = pages[upto - 1];
        assert(pages.take(upto) =~= pages.take(upto - 1).push(page));
        assert(pages.take(upto).contains(id) == (page == id || pages.take(upto - 1).contains(
            id,
        ))) by {
            let earlier = pages.take(upto - 1);
            if earlier.contains(id) {
                let w = choose|w: int| 0 <= w < earlier.len() && earlier[w] == id;
                assert(pages.take(upto)[w] == id);
            }
            if page == id {
                assert(pages.take(upto)[upto - 1] == id);
            }
        }
        if page == id && m.contains_key(id) && !(m[id] is Reference) {
            assert(!(before[id] is Reference));
            lemma_resolved_direct(before, id);
            match m[id] {
                Value::Dictionary(d) => {
                    assert(d.insert(name("Parent"), Value::Reference(parent)).insert(
                        name("Parent"),
                        Value::Reference(parent),
                    ) =~= d.insert(name("Parent"), Value::Reference(parent)));
                },
                _ => {},
            }
        }
    }
}

/// The number of pages of the first `k` inputs together.
pub open spec fn total_pages(sources: Seq<SourceValue>, k: int) -> int
    decreases k,
{
    if k <= 0 {
        0
    } else {
        total_pages(sources, k - 1) + sources[k - 1].pages.len()
    }
}

/// The merged document has as many pages as the inputs have together.
pub proof fn lemma_page_count_additive(sources: Seq<SourceValue>, k: int)
    requires
        0 <= k <= sources.len(),
    ensures
        page_list(sources, k).len() == total_pages(sources, k),
    decreases k,
{
    if k > 0 {
        lemma_page_count_additive(sources, k - 1);
    }
}

/// The page count that a merged document declares in the `Count` field that
/// its catalog leads to is the number of pages that were merged, the sum of
/// the page counts of the inputs.
pub proof fn lemma_merged_count(sources: Seq<SourceValue>)
    requires
        mergeable(sources),
    ensures
        declared_page_count(merged(sources)) == Ok::<int, crate::pdf::metadata::CatalogDefect>(
            total_pages(sources, sources.len() as int),
        ),
{
    let n = sources.len() as int;
    lemma_parent_is_no_other_name();
    lemma_page_count_additive(sources, n);
    lemma_next_id_grows(sources, 0, n);
    let m = merged(sources);
    let pages_id = merged_pages_id(sources);
    let catalog_id = merged_catalog_id(sources);
    let kids = page_list(sources, n);
    let base = absorbed(sources, n).insert(catalog_id, catalog(pages_id)).insert(
        pages_id,
        pages_root(kids),
    );
    assert(pages_id != catalog_id);
    assert(m.trailer[name("Root")] == Value::Reference(catalog_id));
    assert(base[catalog_id] == catalog(pages_id));
    assert(base[pages_id] == pages_root(kids));
    lemma_reparented_object(base, kids, kids.len() as int, pages_id, catalog_id);
    lemma_reparented_object(base, kids, kids.len() as int, pages_id, pages_id);
    lemma_resolved_direct(m.objects, catalog_id);
    lemma_resolved_direct(m.objects, pages_id);
    assert(m.objects.contains_key(catalog_id));
    assert(m.objects.contains_key(pages_id));
    assert(m.objects[catalog_id] is Dictionary);
    assert(m.objects[catalog_id]->Dictionary_0[name("Pages")] == Value::Reference(pages_id));
    assert(m.objects[pages_id] is Dictionary);
    assert(m.objects[pages_id]->Dictionary_0[name("Count")] == Value::Integer(kids.len() as i64));
}

/// The pages counted for the first `a` inputs stay where they are when
/// more inputs are counted.
pub proof fn lemma_page_list_prefix(sources: Seq<SourceValue>, a: int, b: int)
    requires
        0 <= a <= b,
    ensures
        page_list(sources, b).take(page_list(sources, a).len() as int) == page_list(sources, a),
    decreases b,
{
    lemma_page_list_grows(sources, a, b);
    if a < b {
        lemma_page_list_prefix(sources, a, b - 1);
        lemma_page_list_grows(sources, a, b - 1);
        assert(page_list(sources, b).take(page_list(sources, a).len() as int) =~= page_list(
            sources,
            b - 1,
        ).take(page_list(sources, a).len() as int));
    } else {
        assert(page_list(sources, b).take(page_list(sources, a).len() as int) =~= page_list(
            sources,
            a,
        ));
    }
}

/// Pages keep their order: page `j` of input `i` is the kid of the merged
/// page tree root that follows the pages of all inputs before `i` and the
/// pages before `j` of input `i`, under its identifier moved up by the offset
/// of input `i`.
pub proof fn lemma_merged_page_order(sources: Seq<SourceValue>, i: int, j: int)
    requires
        mergeable(sources),
        0 <= i < sources.len(),
        0 <= j < sources[i].pages.len(),
    ensures
        0 <= total_pages(sources, i) + j < page_list(sources, sources.len() as int).len(),
        page_list(sources, sources.len() as int)[total_pages(sources, i) + j] == shift_id(
            sources[i].pages[j],
            next_id(sources, i) as u32,
        ),
        merged(sources).objects.contains_key(merged_pages_id(sources)),
        merged(sources).objects[merged_pages_id(sources)] matches Value::Dictionary(root)
            && root[name("Kids")] == Value::Array(
            Seq::new(
                page_list(sources, sources.len() as int).len(),
                |k: int| Value::Reference(page_list(sources, sources.len() as int)[k]),
            ),
        ),
{
    let n = sources.len() as int;
    lemma_page_count_additive(sources, i);
    lemma_page_list_prefix(sources, i + 1, n);
    lemma_page_list_grows(sources, i + 1, n);
    let upto = page_list(sources, i + 1);
    assert(upto == page_list(sources, i) + shifted_pages(
        sources[i].pages,
        next_id(sources, i) as u32,
    ));
    assert(upto[total_pages(sources, i) + j] == shift_id(
        sources[i].pages[j],
        next_id(sources, i) as u32,
    ));
    assert(page_list(sources, n).take(upto.len() as int)[total_pages(sources, i) + j]
        == page_list(sources, n)[total_pages(sources, i) + j]);
    lemma_parent_is_no_other_name();
    let kids = page_list(sources, n);
    let pages_id = merged_pages_id(sources);
    let catalog_id = merged_catalog_id(sources);
    let base = absorbed(sources, n).insert(catalog_id, catalog(pages_id)).insert(
        pages_id,
        pages_root(kids),
    );
    assert(base[pages_id] == pages_root(kids));
    lemma_reparented_object(base, kids, kids.len() as int, pages_id, pages_id);
    assert(merged(sources).objects.contains_key(pages_id));
    assert(crate::pdf::merge::references(kids) =~= Seq::new(
        kids.len(),
        |k: int| Value::Reference(kids[k]),
    ));
}

/// An object of input `i` is out of reach of the inputs absorbed after it:
/// it stays under its moved identifier with its references moved.
proof fn lemma_absorbed_keeps(sources: Seq<SourceValue>, i: int, id: ObjectId, k: int)
    requires
        0 <= i < k <= sources.len(),
        next_id(sources, sources.len() as int) <= u32::MAX,
        sources[i].doc.ids_bounded(),
        sources[i].doc.objects.contains_key(id),
    ensures
        id.0 + next_id(sources, i) < next_id(sources, k),
        absorbed(sources, k).contains_key(shift_id(id, next_id(sources, i) as u32)),
        absorbed(sources, k)[shift_id(id, next_id(sources, i) as u32)] == shift_value(
            sources[i].doc.objects[id],
            next_id(sources, i) as u32,
        ),
    decreases k,
{
    let n = sources.len() as int;
    lemma_next_id_grows(sources, i, i + 1);
    lemma_next_id_grows(sources, i + 1, k);
    lemma_next_id_grows(sources, k, n);
    lemma_next_id_grows(sources, 0, i);
    let offset = next_id(sources, i) as u32;
    let moved = shift_id(id, offset);
    assert(moved == ((id.0 + offset) as u32, id.1));
    if k == i + 1 {
        assert(((moved.0 - offset) as u32, moved.1) == id);
        assert(shift_objects(sources[i].doc.objects, offset).contains_key(moved));
    } else {
        lemma_absorbed_keeps(sources, i, id, k - 1);
        lemma_next_id_grows(sources, i + 1, k - 1);
        assert(!shift_objects(
            sources[k - 1].doc.objects,
            next_id(sources, k - 1) as u32,
        ).contains_key(moved));
    }
}

/// Objects are taken over intact: every object of every input is in the
/// merged document under its identifier moved up by the offset of its input,
/// with its references moved up by the same offset and, if it is one of the
/// pages, with the new page tree root as its parent. The one exception is a
/// page whose identifier holds a reference to the page: the page that it
/// stands for is then stored under it, so of such an object this says nothing
/// more than that it is there.
pub proof fn lemma_merged_object(sources: Seq<SourceValue>, i: int, id: ObjectId)
    requires
        mergeable(sources),
        0 <= i < sources.len(),
        sources[i].doc.ids_bounded(),
        sources[i].doc.objects.contains_key(id),
    ensures
        merged(sources).objects.contains_key(shift_id(id, next_id(sources, i) as u32)),
        !page_list(sources, sources.len() as int).contains(
            shift_id(id, next_id(sources, i) as u32),
        ) ==> merged(sources).objects[shift_id(id, next_id(sources, i) as u32)] == shift_value(
            sources[i].doc.objects[id],
            next_id(sources, i) as u32,
        ),
        page_list(sources, sources.len() as int).contains(
            shift_id(id, next_id(sources, i) as u32),
        ) && !(sources[i].doc.objects[id] is Reference) ==> merged(sources).objects[shift_id(
            id,
            next_id(sources, i) as u32,
        )] == with_parent(
            shift_value(sources[i].doc.objects[id], next_id(sources, i) as u32),
            merged_pages_id(sources),
        ),
{
    let n = sources.len() as int;
    lemma_absorbed_keeps(sources, i, id, n);
    lemma_next_id_grows(sources, i, n);
    lemma_next_id_grows(sources, 0, i);
    let moved = shift_id(id, next_id(sources, i) as u32);
    assert(moved.0 == id.0 + next_id(sources, i));
    let pages_id = merged_pages_id(sources);
    let catalog_id = merged_catalog_id(sources);
    assert(moved != pages_id);
    assert(moved != catalog_id);
    let kids = page_list(sources, n);
    let base = absorbed(sources, n).insert(catalog_id, catalog(pages_id)).insert(
        pages_id,
        pages_root(kids),
    );
    lemma_reparented_object(base, kids, kids.len() as int, pages_id, moved);
    assert(kids.take(kids.len() as int) =~= kids);
    lemma_shift_value(sources[i].doc.objects[id], next_id(sources, i) as u32);
}

/// Streams are taken over with their content: a stream of an input is a
/// stream of the merged document, under its identifier moved up, with the
/// same bytes. So a page of the merged document draws what it drew in its
/// input.
pub proof fn lemma_merged_stream(sources: Seq<SourceValue>, i: int, id: ObjectId)
    requires
        mergeable(sources),
        0 <= i < sources.len(),
        sources[i].doc.ids_bounded(),
        sources[i].doc.objects.contains_key(id),
        sources[i].doc.objects[id] is Stream,
    ensures
        merged(sources).objects.contains_key(shift_id(id, next_id(sources, i) as u32)),
        merged(sources).objects[shift_id(id, next_id(sources, i) as u32)] matches Value::Stream(s)
            && s.content == sources[i].doc.objects[id]->Stream_0.content,
{
    lemma_merged_object(sources, i, id);
    lemma_shift_value(sources[i].doc.objects[id], next_id(sources, i) as u32);
}

/// The number of objects of the first `k` inputs together.
pub open spec fn total_objects(sources: Seq<SourceValue>, k: int) -> int
    decreases k,
{
    if k <= 0 {
        0
    } else {
        total_objects(sources, k - 1) + sources[k - 1].doc.objects.dom().len()
    }
}

/// Whether every input holds finitely many objects, none of them numbered
/// above the counter of its document; this holds of every document in
/// memory.
pub open spec fn inputs_bounded(sources: Seq<SourceValue>) -> bool {
    forall|i: int|
        0 <= i < sources.len() ==> (#[trigger] sources[i]).doc.ids_bounded()
            && sources[i].doc.objects.dom().finite()
}

/// The first `k` inputs, moved up, share no identifier: together they hold
/// as many objects as they hold one by one, all numbered below the number
/// that they leave free.
pub proof fn lemma_absorbed_count(sources: Seq<SourceValue>, k: int)
    requires
        0 <= k <= sources.len(),
        next_id(sources, sources.len() as int) <= u32::MAX,
        inputs_bounded(sources),
    ensures
        absorbed(sources, k).dom().finite(),
        absorbed(sources, k).dom().len() == total_objects(sources, k),
        forall|id: ObjectId| absorbed(sources, k).contains_key(id) ==> id.0 < next_id(sources, k),
    decreases k,
{
    if k > 0 {
        lemma_absorbed_count(sources, k - 1);
        lemma_next_id_grows(sources, k, sources.len() as int);
        lemma_next_id_grows(sources, 0, k - 1);
        let doc = sources[k - 1].doc;
        let offset = next_id(sources, k - 1) as u32;
        let before = absorbed(sources, k - 1).dom();
        let moved = shift_objects(doc.objects, offset).dom();
        let up = |id: ObjectId| shift_id(id, offset);
        assert(doc.ids_bounded());
        assert forall|id: ObjectId| moved.contains(id) == doc.objects.dom().map(up).contains(
            id,
        ) by {
            if moved.contains(id) {
                let from = ((id.0 - offset) as u32, id.1);
                assert(doc.objects.dom().contains(from) && up(from) == id);
            }
            if doc.objects.dom().map(up).contains(id) {
                let from = choose|from: ObjectId| doc.objects.dom().contains(from) && up(from) == id;
                assert(from.0 <= doc.max_id);
            }
        }
        assert(moved =~= doc.objects.dom().map(up));
        assert(vstd::relations::injective_on(up, doc.objects.dom())) by {
            assert forall|a: ObjectId, b: ObjectId|
                doc.objects.dom().contains(a) && doc.objects.dom().contains(b) && #[trigger] up(a)
                    == #[trigger] up(b) implies a == b by {
                assert(a.0 <= doc.max_id && b.0 <= doc.max_id);
            }
        }
        vstd::set_lib::lemma_map_size(doc.objects.dom(), moved, up);
        assert(before.disjoint(moved));
        vstd::set_lib::lemma_set_disjoint_lens(before, moved);
        assert(absorbed(sources, k).dom() =~= before + moved);
        assert forall|id: ObjectId| absorbed(sources, k).contains_key(id) implies id.0 < next_id(
            sources,
            k,
        ) by {
            if moved.contains(id) {
                let from = ((id.0 - offset) as u32, id.1);
                assert(from.0 <= doc.max_id);
            }
        }
    }
}

/// The merged document holds every object of every input and two more, the
/// new page tree root and the new catalog: no object takes the place of
/// another.
pub proof fn lemma_merged_object_count(sources: Seq<SourceValue>)
    requires
        mergeable(sources),
        inputs_bounded(sources),
    ensures
        merged(sources).objects.dom().finite(),
        merged(sources).objects.dom().len() == total_objects(sources, sources.len() as int) + 2,
{
    let n = sources.len() as int;
    lemma_absorbed_count(sources, n);
    lemma_next_id_grows(sources, 0, n);
    let pages_id = merged_pages_id(sources);
    let catalog_id = merged_catalog_id(sources);
    let kids = page_list(sources, n);
    let taken = absorbed(sources, n);
    let base = taken.insert(catalog_id, catalog(pages_id)).insert(pages_id, pages_root(kids));
    assert(!taken.contains_key(catalog_id));
    assert(!taken.contains_key(pages_id));
    assert(base.dom() =~= taken.dom().insert(catalog_id).insert(pages_id));
    vstd::set::axiom_set_insert_len(taken.dom(), catalog_id);
    assert(taken.dom().insert(catalog_id).finite());
    assert(pages_id != catalog_id);
    assert(!taken.dom().insert(catalog_id).contains(pages_id));
    vstd::set::axiom_set_insert_len(taken.dom().insert(catalog_id), pages_id);
    assert(base.dom().len() == taken.dom().len() + 2);
    assert(base.dom().finite());
    assert forall|id: ObjectId|
        merged(sources).objects.dom().contains(id) == base.dom().contains(id) by {
        lemma_reparented_object(base, kids, kids.len() as int, pages_id, id);
    }
    assert(merged(sources).objects.dom() =~= base.dom());
}

/// Compressing the streams of a document changes nothing that an identifier
/// stands for but the streams: what was found is found compressed.
pub proof fn lemma_followed_compressed(objects: Map<ObjectId, Value>, id: ObjectId, steps: nat)
    ensures
        followed(compress_objects(objects), id, steps) == (match followed(objects, id, steps) {
            Some(v) => Some(compress_value(v)),
            None => None,
        }),
    decreases steps,
{
    if objects.contains_key(id) {
        match objects[id] {
            Value::Reference(next) => {
                if steps > 0 {
                    lemma_followed_compressed(objects, next, (steps - 1) as nat);
                }
            },
            _ => {},
        }
    }
}

/// Where no file is missing up to `n`, none is found missing.
proof fn lemma_none_missing(contents: Seq<Option<Vec<u8>>>, n: int, from: int)
    requires
        0 <= from <= n,
        forall|i: int| 0 <= i < n ==> !is_missing(contents, i),
    ensures
        first_missing(contents, n, from) == n,
    decreases n - from,
{
    if from < n {
        lemma_none_missing(contents, n, from + 1);
    }
}

/// Where no file is defective up to `n`, none is found defective.
proof fn lemma_none_defective(contents: Seq<Option<Vec<u8>>>, n: int, from: int)
    requires
        0 <= from <= n,
        forall|i: int| 0 <= i < n ==> !is_defective(#[trigger] contents[i]->0@),
    ensures
        first_defective(contents, n, from) == n,
    decreases n - from,
{
    if from < n {
        lemma_none_defective(contents, n, from + 1);
    }
}

/// Page counts add up from the files to the document that is written: where
/// every input file is there and holds a PDF with pages, and the object
/// numbers and the page count fit, the merge ends with a document, and that
/// document declares as many pages as the inputs have together, in the
/// `Count` field that its catalog leads to. A file that is named twice counts
/// twice.
pub proof fn lemma_merge_outcome_count(n: int, contents: Seq<Option<Vec<u8>>>)
    requires
        n > 0,
        forall|i: int| 0 <= i < n ==> !is_missing(contents, i),
        forall|i: int| 0 <= i < n ==> !is_defective(#[trigger] contents[i]->0@),
        mergeable(sources_of(contents, n)),
    ensures
        merge_outcome(n, contents) matches MergeOutcome::Merged(d) && declared_page_count(d) == Ok::<
            int,
            crate::pdf::metadata::CatalogDefect,
        >(total_pages(sources_of(contents, n), n)),
{
    lemma_none_missing(contents, n, 0);
    lemma_none_defective(contents, n, 0);
    let sources = sources_of(contents, n);
    lemma_merged_count(sources);
    let before = merged(sources);
    let after = DocumentValue { objects: compress_objects(before.objects), ..before };
    assert(merge_outcome(n, contents) == MergeOutcome::Merged(after));
    let catalog_id = before.trailer[name("Root")]->Reference_0;
    lemma_followed_compressed(before.objects, catalog_id, 128);
    let catalog = resolved(before.objects, catalog_id)->0->Dictionary_0;
    let pages_id = catalog[name("Pages")]->Reference_0;
    lemma_followed_compressed(before.objects, pages_id, 128);
}

} // verus!
