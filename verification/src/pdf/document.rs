//! The object graph of one document: its indirect objects by identifier, its
//! trailer, and the counter from which fresh identifiers are taken.

use crate::error::Error;
use crate::pdf::codec::{
    compress_stream, compressed, decompress_stream, decompressed, get_pages, load_mem, loaded,
    page_tree, save_to, saved,
};
use crate::pdf::merge::renumber_object_references;
use crate::pdf::object::{
    entries_syntax, shift_dict, shift_value, ObjectId, PdfDict, PdfObject, Syntax, Value,
};
use vstd::prelude::*;

verus! {

/// The mathematical model of a [`PdfDocument`].
pub struct DocumentValue {
    /// The version of the PDF specification the document is written to.
    pub version: Seq<char>,
    /// The bytes of the comment line that marks the file as binary.
    pub binary_mark: Seq<u8>,
    /// Whether the cross-reference data is written as a stream, not a table.
    pub cross_reference_stream: bool,
    /// The trailer dictionary.
    pub trailer: Map<Seq<u8>, Value>,
    /// The indirect objects.
    pub objects: Map<ObjectId, Value>,
    /// The greatest object number handed out so far.
    pub max_id: u32,
}

impl DocumentValue {
    /// No object has a number above `max_id`.
    pub open spec fn ids_bounded(self) -> bool {
        forall|id: ObjectId| self.objects.contains_key(id) ==> id.0 <= self.max_id
    }
}

/// Whether `m` is the counter that the objects of `v` call for: `v.max_id`
/// or, where an object has a greater number, the greatest object number.
pub open spec fn is_counter_for(m: u32, v: DocumentValue) -> bool {
    &&& m >= v.max_id
    &&& forall|id: ObjectId| v.objects.contains_key(id) ==> id.0 <= m
    &&& m == v.max_id || exists|id: ObjectId| v.objects.contains_key(id) && id.0 == m
}

/// The counter that the objects of `v` call for (see [`is_counter_for`]).
pub open spec fn counter_of(v: DocumentValue) -> u32 {
    choose|m: u32| is_counter_for(m, v)
}

/// `v` with its counter raised to what its objects call for.
pub open spec fn normalized(v: DocumentValue) -> DocumentValue {
    DocumentValue { max_id: counter_of(v), ..v }
}

/// There is one counter that the objects of a document call for.
pub proof fn lemma_counter_unique(a: u32, b: u32, v: DocumentValue)
    requires
        is_counter_for(a, v),
        is_counter_for(b, v),
    ensures
        a == b,
        counter_of(v) == a,
{
}

/// The objects of a document with every stream that allows it compressed.
pub open spec fn compress_objects(m: Map<ObjectId, Value>) -> Map<ObjectId, Value> {
    Map::new(|id: ObjectId| m.contains_key(id), |id: ObjectId| compress_value(m[id]))
}

/// A stream that allows it, compressed; any other value as it is.
pub open spec fn compress_value(v: Value) -> Value {
    match v {
        Value::Stream(s) => if s.allows_compression {
            Value::Stream(compressed(s))
        } else {
            v
        },
        _ => v,
    }
}

/// The objects of a document with every stream decoded.
pub open spec fn decompress_objects(m: Map<ObjectId, Value>) -> Map<ObjectId, Value> {
    Map::new(|id: ObjectId| m.contains_key(id), |id: ObjectId| decompress_value(m[id]))
}

/// A stream, decoded; any other value as it is.
pub open spec fn decompress_value(v: Value) -> Value {
    match v {
        Value::Stream(s) => Value::Stream(decompressed(s)),
        _ => v,
    }
}

/// A document as it is written: its parts, with the stored objects and the
/// entries of every dictionary in their order.
pub struct DocumentSyntax {
    pub version: Seq<char>,
    pub binary_mark: Seq<u8>,
    pub cross_reference_stream: bool,
    pub trailer: Seq<(Seq<u8>, Syntax)>,
    pub objects: Seq<(ObjectId, Syntax)>,
    pub max_id: u32,
}

/// The value that `id` stands for among `objects`, through at most `steps`
/// references: the value stored under `id`, or, where that is a reference,
/// the value that the reference stands for. `None` when an identifier on the
/// way names no object, or when there are more references than `steps`.
pub open spec fn followed(objects: Map<ObjectId, Value>, id: ObjectId, steps: nat) -> Option<Value>
    decreases steps,
{
    if !objects.contains_key(id) {
        None
    } else {
        match objects[id] {
            Value::Reference(next) => if steps == 0 {
                None
            } else {
                followed(objects, next, (steps - 1) as nat)
            },
            v => Some(v),
        }
    }
}

/// The value that `id` stands for among `objects`, through at most 128
/// references (see [`followed`]).
pub open spec fn resolved(objects: Map<ObjectId, Value>, id: ObjectId) -> Option<Value> {
    followed(objects, id, 128)
}

/// An identifier under which a value that is no reference is stored stands
/// for that value.
pub proof fn lemma_resolved_direct(objects: Map<ObjectId, Value>, id: ObjectId)
    requires
        objects.contains_key(id),
        !(objects[id] is Reference),
    ensures
        resolved(objects, id) == Some(objects[id]),
{
}

/// What an identifier stands for is never a reference.
pub proof fn lemma_followed_no_reference(objects: Map<ObjectId, Value>, id: ObjectId, steps: nat)
    ensures
        followed(objects, id, steps) matches Some(v) ==> !(v is Reference),
    decreases steps,
{
    if objects.contains_key(id) {
        match objects[id] {
            Value::Reference(next) => {
                if steps > 0 {
                    lemma_followed_no_reference(objects, next, (steps - 1) as nat);
                }
            },
            _ => {},
        }
    }
}

/// An identifier that stands for a value still stands for one after a value
/// that is no reference was stored, under whatever identifier.
pub proof fn lemma_followed_after_insert(
    objects: Map<ObjectId, Value>,
    at: ObjectId,
    value: Value,
    id: ObjectId,
    steps: nat,
)
    requires
        !(value is Reference),
        followed(objects, id, steps) is Some,
    ensures
        followed(objects.insert(at, value), id, steps) is Some,
    decreases steps,
{
    if id != at {
        match objects[id] {
            Value::Reference(next) => {
                lemma_followed_after_insert(objects, at, value, next, (steps - 1) as nat);
            },
            _ => {},
        }
    }
}

/// An identifier that stands for a value stands for the same value after
/// objects were added under identifiers that were not in use.
pub proof fn lemma_followed_in_union(
    objects: Map<ObjectId, Value>,
    added: Map<ObjectId, Value>,
    id: ObjectId,
    steps: nat,
)
    requires
        forall|k: ObjectId| objects.contains_key(k) ==> !added.contains_key(k),
        followed(objects, id, steps) is Some,
    ensures
        followed(objects.union_prefer_right(added), id, steps) == followed(objects, id, steps),
    decreases steps,
{
    match objects[id] {
        Value::Reference(next) => {
            lemma_followed_in_union(objects, added, next, (steps - 1) as nat);
        },
        _ => {},
    }
}

/// The parts of a document with nothing promised of them: identifiers may
/// repeat (the last entry counts) and may lie above `max_id`.
#[derive(Debug)]
pub struct RawDocument {
    pub version: String,
    pub binary_mark: Vec<u8>,
    pub cross_reference_stream: bool,
    pub trailer: PdfDict,
    pub objects: Vec<(ObjectId, PdfObject)>,
    pub max_id: u32,
}

impl RawDocument {
    /// The model of these parts, with the last entry of each identifier.
    pub open spec fn view(self) -> DocumentValue {
        DocumentValue {
            version: self.version@,
            binary_mark: self.binary_mark@,
            cross_reference_stream: self.cross_reference_stream,
            trailer: self.trailer@,
            objects: objects_view(self.objects@),
            max_id: self.max_id,
        }
    }
}

/// What reading the bytes of a file came to.
#[derive(Debug)]
pub enum Reading {
    /// The document that the file holds as it stands.
    Plain(RawDocument),
    /// The file is encrypted, and the reader could open it without a
    /// password.
    Decrypted,
    /// No document could be read; the reader's message.
    Failed(String),
}

/// A document's object graph.
///
/// No two stored objects share an identifier, and no stored object has a
/// number above `max_id`, so an identifier made from `max_id + 1` is unused.
#[derive(Debug)]
pub struct PdfDocument {
    pub(crate) version: String,
    pub(crate) binary_mark: Vec<u8>,
    pub(crate) cross_reference_stream: bool,
    pub(crate) trailer: PdfDict,
    pub(crate) objects: Vec<(ObjectId, PdfObject)>,
    pub(crate) max_id: u32,
}

/// The bytes of the comment that marks a written file as binary.
pub open spec fn binary_mark() -> Seq<u8> {
    seq![0xBBu8, 0xADu8, 0xC0u8, 0xDEu8]
}

/// The greatest index below `n` at which `id` stands in `s`, or -1.
pub open spec fn index_of(s: Seq<(ObjectId, PdfObject)>, id: ObjectId, n: int) -> int
    decreases n,
{
    if n <= 0 {
        -1
    } else if n <= s.len() && s[n - 1].0 == id {
        n - 1
    } else {
        index_of(s, id, n - 1)
    }
}

/// The model of a list of stored objects: each identifier with the value of
/// its last entry.
pub open spec fn objects_view(s: Seq<(ObjectId, PdfObject)>) -> Map<ObjectId, Value> {
    Map::new(
        |id: ObjectId| index_of(s, id, s.len() as int) >= 0,
        |id: ObjectId| s[index_of(s, id, s.len() as int)].1@,
    )
}

/// No identifier stands twice in `s`.
pub open spec fn distinct_ids(s: Seq<(ObjectId, PdfObject)>) -> bool {
    forall|i: int, j: int| 0 <= i < j < s.len() ==> (#[trigger] s[i]).0 != (#[trigger] s[j]).0
}

/// No object number in `s` lies above `max_id`.
pub open spec fn ids_within(s: Seq<(ObjectId, PdfObject)>, max_id: u32) -> bool {
    forall|i: int| 0 <= i < s.len() ==> (#[trigger] s[i]).0.0 <= max_id
}

/// `index_of` gives -1 or an index below `n` that holds `id`, and no later
/// index below `n` holds it.
pub proof fn lemma_index_of(s: Seq<(ObjectId, PdfObject)>, id: ObjectId, n: int)
    requires
        0 <= n <= s.len(),
    ensures
        -1 <= index_of(s, id, n) < n,
        index_of(s, id, n) >= 0 ==> s[index_of(s, id, n)].0 == id,
        forall|j: int| index_of(s, id, n) < j < n ==> s[j].0 != id,
    decreases n,
{
    if n > 0 && s[n - 1].0 != id {
        lemma_index_of(s, id, n - 1);
    }
}

/// An identifier is in the model exactly if some entry holds it.
pub proof fn lemma_objects_view_dom(s: Seq<(ObjectId, PdfObject)>, id: ObjectId)
    ensures
        objects_view(s).contains_key(id) <==> exists|i: int| 0 <= i < s.len() && (#[trigger] s[i]).0 == id,
{
    lemma_index_of(s, id, s.len() as int);
    if objects_view(s).contains_key(id) {
        assert(s[index_of(s, id, s.len() as int)].0 == id);
    }
}

/// Two lists that agree on the identifiers of their first `n` entries give
/// the same index below `n`.
pub proof fn lemma_index_same(s: Seq<(ObjectId, PdfObject)>, t: Seq<(ObjectId, PdfObject)>, id: ObjectId, n: int)
    requires
        0 <= n <= s.len(),
        n <= t.len(),
        forall|j: int| 0 <= j < n ==> s[j].0 == t[j].0,
    ensures
        index_of(s, id, n) == index_of(t, id, n),
    decreases n,
{
    if n > 0 {
        lemma_index_same(s, t, id, n - 1);
    }
}

/// Adding an entry at the end sets its identifier to its value in the model.
pub proof fn lemma_objects_view_push(s: Seq<(ObjectId, PdfObject)>, e: (ObjectId, PdfObject))
    ensures
        objects_view(s.push(e)) == objects_view(s).insert(e.0, e.1@),
{
    let t = s.push(e);
    assert forall|id: ObjectId| id != e.0 implies index_of(t, id, t.len() as int) == index_of(
        s,
        id,
        s.len() as int,
    ) by {
        lemma_index_same(s, t, id, s.len() as int);
    }
    assert forall|id: ObjectId| #[trigger]
        objects_view(t).contains_key(id) implies objects_view(t)[id] == objects_view(s).insert(
        e.0,
        e.1@,
    )[id] by {
        if id != e.0 {
            lemma_index_same(s, t, id, s.len() as int);
            lemma_index_of(s, id, s.len() as int);
        }
    }
    assert(objects_view(t) =~= objects_view(s).insert(e.0, e.1@));
}

/// Putting an entry in the place that holds its identifier sets the
/// identifier to the new value in the model.
pub proof fn lemma_objects_view_update(s: Seq<(ObjectId, PdfObject)>, i: int, e: (ObjectId, PdfObject))
    requires
        0 <= i < s.len(),
        i == index_of(s, e.0, s.len() as int),
    ensures
        objects_view(s.update(i, e)) == objects_view(s).insert(e.0, e.1@),
{
    let t = s.update(i, e);
    lemma_index_of(s, e.0, s.len() as int);
    assert forall|id: ObjectId| index_of(s, id, s.len() as int) == index_of(t, id, t.len() as int) by {
        lemma_index_same(s, t, id, s.len() as int);
    }
    assert forall|id: ObjectId| #[trigger]
        objects_view(t).contains_key(id) implies objects_view(t)[id] == objects_view(s).insert(
        e.0,
        e.1@,
    )[id] by {
        lemma_index_same(s, t, id, s.len() as int);
        lemma_index_of(s, id, s.len() as int);
    }
    assert(objects_view(t) =~= objects_view(s).insert(e.0, e.1@));
}

impl PdfDocument {
    /// What every document satisfies: identifiers are stored once, and none
    /// has a number above `max_id`.
    #[verifier::type_invariant]
    pub closed spec fn well_formed(&self) -> bool {
        &&& distinct_ids(self.objects@)
        &&& ids_within(self.objects@, self.max_id)
    }

    /// The model of this document.
    pub closed spec fn view(&self) -> DocumentValue {
        DocumentValue {
            version: self.version@,
            binary_mark: self.binary_mark@,
            cross_reference_stream: self.cross_reference_stream,
            trailer: self.trailer@,
            objects: objects_view(self.objects@),
            max_id: self.max_id,
        }
    }

    /// This document as it is written.
    pub closed spec fn syntax(&self) -> DocumentSyntax {
        DocumentSyntax {
            version: self.version@,
            binary_mark: self.binary_mark@,
            cross_reference_stream: self.cross_reference_stream,
            trailer: entries_syntax(self.trailer.entries@),
            objects: self.objects@.map_values(|e: (ObjectId, PdfObject)| (e.0, e.1.syntax())),
            max_id: self.max_id,
        }
    }

    /// The identifiers of the stored objects, in storage order.
    pub closed spec fn ids(&self) -> Seq<ObjectId> {
        self.objects@.map_values(|e: (ObjectId, PdfObject)| e.0)
    }

    /// An empty document of the given version, to be written with the usual
    /// binary mark and a cross-reference table.
    pub fn with_version(version: &str) -> (doc: PdfDocument)
        ensures
            doc@.version == version@,
            doc@.binary_mark == binary_mark(),
            !doc@.cross_reference_stream,
            doc@.trailer == Map::<Seq<u8>, Value>::empty(),
            doc@.objects == Map::<ObjectId, Value>::empty(),
            doc@.max_id == 0,
            doc.ids() == Seq::<ObjectId>::empty(),
    {
        let doc = PdfDocument {
            version: version.to_owned(),
            binary_mark: vec![0xBBu8, 0xADu8, 0xC0u8, 0xDEu8],
            cross_reference_stream: false,
            trailer: PdfDict::new(),
            objects: Vec::new(),
            max_id: 0,
        };
        assert(doc@.objects =~= Map::<ObjectId, Value>::empty());
        assert(doc.ids() =~= Seq::<ObjectId>::empty());
        doc
    }

    /// The greatest object number handed out so far.
    pub fn max_id(&self) -> (r: u32)
        ensures
            r == self@.max_id,
    {
        self.max_id
    }

    /// The trailer dictionary.
    pub fn trailer(&self) -> (r: &PdfDict)
        ensures
            r@ == self@.trailer,
    {
        &self.trailer
    }

    /// The number of stored objects.
    pub fn len(&self) -> (r: usize)
        ensures
            r == self.ids().len(),
    {
        self.objects.len()
    }

    /// The index of the entry that holds `id`, if there is one.
    fn position(&self, id: ObjectId) -> (r: Option<usize>)
        ensures
            match r {
                Some(i) => i < self.objects.len() && i as int == index_of(
                    self.objects@,
                    id,
                    self.objects.len() as int,
                ),
                None => index_of(self.objects@, id, self.objects.len() as int) == -1,
            },
    {
        let mut n: usize = self.objects.len();
        while n > 0
            invariant
                n <= self.objects.len(),
                index_of(self.objects@, id, self.objects.len() as int) == index_of(
                    self.objects@,
                    id,
                    n as int,
                ),
            decreases n,
        {
            let e = &self.objects[n - 1];
            if e.0.0 == id.0 && e.0.1 == id.1 {
                return Some(n - 1);
            }
            n -= 1;
        }
        None
    }

    /// Whether an object is stored under `id`.
    pub fn has_object(&self, id: ObjectId) -> (r: bool)
        ensures
            r == self@.objects.contains_key(id),
    {
        self.position(id).is_some()
    }

    /// The object stored under `id` itself, be it a reference; `None` when
    /// there is none.
    pub fn stored_object(&self, id: ObjectId) -> (r: Option<&PdfObject>)
        ensures
            r is Some == self@.objects.contains_key(id),
            r matches Some(o) ==> o@ == self@.objects[id],
    {
        match self.position(id) {
            Some(i) => Some(&self.objects[i].1),
            None => None,
        }
    }

    /// The object that `id` stands for: the object stored under `id`, or,
    /// where that is a reference, the object that the reference stands for,
    /// through at most 128 references. `None` when an identifier on the way
    /// names no object, as for a dangling reference, or when the references
    /// do not end.
    pub fn get_object(&self, id: ObjectId) -> (r: Option<&PdfObject>)
        ensures
            match resolved(self@.objects, id) {
                Some(v) => r matches Some(o) && o@ == v,
                None => r is None,
            },
            r matches Some(o) ==> !(o@ is Reference),
    {
        let mut current = id;
        let mut steps: usize = 128;
        loop
            invariant
                steps <= 128,
                resolved(self@.objects, id) == followed(self@.objects, current, steps as nat),
            decreases steps,
        {
            proof {
                lemma_index_of(self.objects@, current, self.objects@.len() as int);
            }
            match self.position(current) {
                None => {
                    return None;
                },
                Some(i) => match &self.objects[i].1 {
                    PdfObject::Reference(next) => {
                        if steps == 0 {
                            return None;
                        }
                        current = *next;
                        steps -= 1;
                    },
                    other => {
                        return Some(other);
                    },
                },
            }
        }
    }

    /// Sets an entry of the trailer dictionary.
    pub fn set_trailer(&mut self, key: Vec<u8>, value: PdfObject)
        ensures
            final(self)@ == (DocumentValue {
                trailer: old(self)@.trailer.insert(key@, value@),
                ..old(self)@
            }),
            final(self).ids() == old(self).ids(),
    {
        proof {
            use_type_invariant(&*self);
        }
        let mut trailer = PdfDict::new();
        std::mem::swap(&mut trailer, &mut self.trailer);
        trailer.set(key, value);
        self.trailer = trailer;
    }

    /// Stores `object` under `id`, in place of any object stored there, and
    /// raises `max_id` to the number of `id` where that is greater.
    pub fn set_object(&mut self, id: ObjectId, object: PdfObject)
        ensures
            final(self)@ == (DocumentValue {
                objects: old(self)@.objects.insert(id, object@),
                max_id: if id.0 > old(self)@.max_id {
                    id.0
                } else {
                    old(self)@.max_id
                },
                ..old(self)@
            }),
            old(self)@.objects.contains_key(id) ==> final(self).ids() == old(self).ids(),
            !old(self)@.objects.contains_key(id) ==> final(self).ids() == old(self).ids().push(id),
    {
        proof {
            use_type_invariant(&*self);
        }
        let ghost before = self.objects@;
        let found = self.position(id);
        let mut objects: Vec<(ObjectId, PdfObject)> = Vec::new();
        std::mem::swap(&mut objects, &mut self.objects);
        match found {
            Some(i) => {
                proof {
                    lemma_objects_view_update(before, i as int, (id, object));
                    lemma_index_of(before, id, before.len() as int);
                }
                objects.set(i, (id, object));
            },
            None => {
                proof {
                    lemma_objects_view_push(before, (id, object));
                    lemma_index_of(before, id, before.len() as int);
                }
                objects.push((id, object));
            },
        }
        if id.0 > self.max_id {
            self.max_id = id.0;
        }
        self.objects = objects;
        proof {
            if found is Some {
                assert(self.ids() =~= old(self).ids());
            } else {
                assert(self.ids() =~= old(self).ids().push(id));
            }
        }
    }
}

/// The objects of a document after each identifier, and each reference in
/// each object, has moved up by `offset` object numbers.
pub open spec fn shift_objects(m: Map<ObjectId, Value>, offset: u32) -> Map<ObjectId, Value> {
    Map::new(
        |id: ObjectId| id.0 >= offset && m.contains_key(((id.0 - offset) as u32, id.1)),
        |id: ObjectId| shift_value(m[((id.0 - offset) as u32, id.1)], offset),
    )
}

/// The greater of two object numbers.
pub open spec fn max_number(a: u32, b: u32) -> u32 {
    if a >= b {
        a
    } else {
        b
    }
}

/// The greatest object number among `floor` and the identifiers of `s`.
pub open spec fn greatest_number(s: Seq<(ObjectId, PdfObject)>, floor: u32) -> u32
    decreases s.len(),
{
    if s.len() == 0 {
        floor
    } else {
        max_number(greatest_number(s.drop_last(), floor), s.last().0.0)
    }
}

/// No object number of a list lies above both the floor and a bound on the
/// numbers of the list.
pub proof fn lemma_greatest_number_within(s: Seq<(ObjectId, PdfObject)>, floor: u32, bound: u32)
    requires
        ids_within(s, bound),
    ensures
        greatest_number(s, floor) <= max_number(floor, bound),
        floor <= greatest_number(s, floor),
    decreases s.len(),
{
    if s.len() > 0 {
        lemma_greatest_number_within(s.drop_last(), floor, bound);
        assert(s[s.len() - 1].0.0 <= bound);
    }
}

/// Where every entry of `t` is the entry of `s` at its place moved up by
/// `offset`, an identifier stands in `t` where its origin stands in `s`.
proof fn lemma_index_shifted(
    s: Seq<(ObjectId, PdfObject)>,
    t: Seq<(ObjectId, PdfObject)>,
    offset: u32,
    id: ObjectId,
    n: int,
)
    requires
        0 <= n <= s.len(),
        n <= t.len(),
        forall|j: int| 0 <= j < n ==> (#[trigger] t[j]).0 == ((s[j].0.0 + offset) as u32, s[j].0.1),
        forall|j: int| 0 <= j < n ==> (#[trigger] s[j]).0.0 + offset <= u32::MAX,
    ensures
        id.0 >= offset ==> index_of(t, id, n) == index_of(s, ((id.0 - offset) as u32, id.1), n),
        id.0 < offset ==> index_of(t, id, n) == -1,
    decreases n,
{
    if n > 0 {
        lemma_index_shifted(s, t, offset, id, n - 1);
        assert(t[n - 1].0 == ((s[n - 1].0.0 + offset) as u32, s[n - 1].0.1));
    }
}

impl PdfDocument {
    /// The identifiers in the model are those stored, each stored once, and
    /// none has a number above `max_id`: the next identifier handed out is
    /// above every identifier present. The model holds as many objects as
    /// are stored.
    pub fn identifiers_hold(&self)
        ensures
            self.ids().no_duplicates(),
            forall|id: ObjectId| self@.objects.contains_key(id) <==> self.ids().contains(id),
            self@.ids_bounded(),
            self@.objects.dom().finite(),
            self@.objects.dom().len() == self.ids().len(),
    {
        proof {
            use_type_invariant(self);
            assert forall|id: ObjectId| self@.objects.contains_key(id) <==> self.ids().contains(
                id,
            ) by {
                lemma_objects_view_dom(self.objects@, id);
                if self@.objects.contains_key(id) {
                    let i = choose|i: int| 0 <= i < self.objects@.len() && (#[trigger] self.objects@[i]).0 == id;
                    assert(self.ids()[i] == id);
                }
                if self.ids().contains(id) {
                    let i = choose|i: int| 0 <= i < self.ids().len() && self.ids()[i] == id;
                    assert(self.objects@[i].0 == id);
                }
            }
            assert forall|id: ObjectId| self@.objects.contains_key(id) implies id.0
                <= self@.max_id by {
                lemma_index_of(self.objects@, id, self.objects@.len() as int);
            }
            assert(self.ids().no_duplicates()) by {
                assert forall|i: int, j: int|
                    0 <= i < self.ids().len() && 0 <= j < self.ids().len() && i != j implies self.ids()[i]
                    != self.ids()[j] by {
                    if i < j {
                        assert(self.objects@[i].0 != self.objects@[j].0);
                    } else {
                        assert(self.objects@[j].0 != self.objects@[i].0);
                    }
                }
            }
            vstd::seq_lib::seq_to_set_is_finite(self.ids());
            self.ids().unique_seq_to_set();
            assert(self@.objects.dom() =~= self.ids().to_set());
        }
    }

    /// The identifiers of the stored objects, in storage order.
    pub fn object_ids(&self) -> (r: Vec<ObjectId>)
        ensures
            r@ == self.ids(),
    {
        let mut out: Vec<ObjectId> = Vec::new();
        let mut i: usize = 0;
        while i < self.objects.len()
            invariant
                i <= self.objects.len(),
                out@ == self.ids().take(i as int),
            decreases self.objects.len() - i,
        {
            out.push(self.objects[i].0);
            assert(self.ids().take(i + 1) =~= self.ids().take(i as int).push(self.objects@[i as int].0));
            i += 1;
        }
        assert(self.ids().take(self.objects.len() as int) =~= self.ids());
        out
    }

    /// Hands out an identifier that no stored object has, and moves `max_id`
    /// up to its number. Gives `None`, and changes nothing, when the object
    /// numbers are used up.
    pub fn new_object_id(&mut self) -> (r: Option<ObjectId>)
        ensures
            old(self)@.max_id < u32::MAX ==> r == Some(((old(self)@.max_id + 1) as u32, 0u16))
                && final(self)@ == (DocumentValue {
                max_id: (old(self)@.max_id + 1) as u32,
                ..old(self)@
            }),
            old(self)@.max_id == u32::MAX ==> r is None && final(self)@ == old(self)@,
            r matches Some(id) ==> !old(self)@.objects.contains_key(id),
            final(self).ids() == old(self).ids(),
    {
        proof {
            use_type_invariant(&*self);
        }
        if self.max_id == u32::MAX {
            return None;
        }
        let id: ObjectId = (self.max_id + 1, 0);
        proof {
            lemma_index_of(self.objects@, id, self.objects@.len() as int);
        }
        self.max_id = self.max_id + 1;
        Some(id)
    }

    /// Stores `object` under a fresh identifier and returns it. Gives `None`,
    /// and changes nothing, when the object numbers are used up.
    pub fn add_object(&mut self, object: PdfObject) -> (r: Option<ObjectId>)
        ensures
            old(self)@.max_id < u32::MAX ==> r == Some(((old(self)@.max_id + 1) as u32, 0u16))
                && final(self)@ == (DocumentValue {
                objects: old(self)@.objects.insert(r->0, object@),
                max_id: (old(self)@.max_id + 1) as u32,
                ..old(self)@
            }) && final(self).ids() == old(self).ids().push(r->0),
            old(self)@.max_id == u32::MAX ==> r is None && final(self)@ == old(self)@
                && final(self).ids() == old(self).ids(),
            r matches Some(id) ==> !old(self)@.objects.contains_key(id),
    {
        match self.new_object_id() {
            Some(id) => {
                self.set_object(id, object);
                Some(id)
            },
            None => None,
        }
    }

    /// Moves every identifier, and every reference in every object and in
    /// the trailer, up by `offset` object numbers. Returns `false`, and
    /// changes nothing, when `max_id + offset` is no object number.
    pub fn renumber(&mut self, offset: u32) -> (done: bool)
        ensures
            done == (old(self)@.max_id + offset <= u32::MAX),
            done ==> final(self)@ == (DocumentValue {
                trailer: shift_dict(old(self)@.trailer, offset),
                objects: shift_objects(old(self)@.objects, offset),
                max_id: (old(self)@.max_id + offset) as u32,
                ..old(self)@
            }),
            done ==> final(self).ids() == old(self).ids().map_values(
                |id: ObjectId| ((id.0 + offset) as u32, id.1),
            ),
            !done ==> final(self)@ == old(self)@ && final(self).ids() == old(self).ids(),
    {
        proof {
            use_type_invariant(&*self);
        }
        if self.max_id > u32::MAX - offset {
            return false;
        }
        let ghost before = self.objects@;
        let mut objects: Vec<(ObjectId, PdfObject)> = Vec::new();
        std::mem::swap(&mut objects, &mut self.objects);
        let mut moved: Vec<(ObjectId, PdfObject)> = Vec::new();
        let mut i: usize = 0;
        while i < objects.len()
            invariant
                objects@ == before,
                ids_within(before, self.max_id),
                self.max_id + offset <= u32::MAX,
                i <= objects.len(),
                moved.len() == i,
                forall|j: int|
                    0 <= j < i ==> (#[trigger] moved@[j]).0 == ((before[j].0.0 + offset) as u32, before[j].0.1)
                        && moved@[j].1@ == shift_value(before[j].1@, offset),
            decreases objects.len() - i,
        {
            let id = objects[i].0;
            assert(before[i as int].0.0 <= self.max_id);
            moved.push(((id.0 + offset, id.1), renumber_object_references(&objects[i].1, offset)));
            i += 1;
        }
        let mut trailer = PdfDict::new();
        std::mem::swap(&mut trailer, &mut self.trailer);
        let shifted = renumber_object_references(&PdfObject::Dictionary(trailer), offset);
        let trailer = match shifted {
            PdfObject::Dictionary(d) => d,
            _ => PdfDict::new(),
        };
        proof {
            crate::pdf::object::lemma_shift_value(Value::Dictionary(old(self)@.trailer), offset);
            assert forall|id: ObjectId| #[trigger]
                objects_view(moved@).contains_key(id) == shift_objects(
                    objects_view(before),
                    offset,
                ).contains_key(id) by {
                lemma_index_shifted(before, moved@, offset, id, before.len() as int);
            }
            assert forall|id: ObjectId| #[trigger]
                objects_view(moved@).contains_key(id) implies objects_view(moved@)[id]
                == shift_objects(objects_view(before), offset)[id] by {
                lemma_index_shifted(before, moved@, offset, id, before.len() as int);
                lemma_index_of(moved@, id, moved@.len() as int);
            }
            assert(objects_view(moved@) =~= shift_objects(objects_view(before), offset));
            assert forall|a: int, b: int| 0 <= a < b < moved@.len() implies (#[trigger] moved@[a]).0 != (#[trigger] moved@[b]).0 by {
                assert(before[a].0 != before[b].0);
                assert(before[a].0.0 <= self.max_id && before[b].0.0 <= self.max_id);
            }
            assert forall|a: int| 0 <= a < moved@.len() implies (#[trigger] moved@[a]).0.0 <= self.max_id + offset by {
                assert(before[a].0.0 <= self.max_id);
            }
        }
        self.max_id = self.max_id + offset;
        self.trailer = trailer;
        self.objects = moved;
        assert(self.ids() =~= old(self).ids().map_values(
            |id: ObjectId| ((id.0 + offset) as u32, id.1),
        ));
        true
    }
}

impl PdfDocument {
    /// Stores every object of `batch` under its identifier, later entries
    /// taking the place of earlier ones and of objects already stored, and
    /// raises `max_id` to the greatest object number in `batch` where that is
    /// greater.
    pub fn merge_bulk(&mut self, batch: Vec<(ObjectId, PdfObject)>)
        ensures
            final(self)@ == (DocumentValue {
                objects: old(self)@.objects.union_prefer_right(objects_view(batch@)),
                max_id: greatest_number(batch@, old(self)@.max_id),
                ..old(self)@
            }),
    {
        let ghost start = self@;
        assert(batch@.take(0) =~= Seq::<(ObjectId, PdfObject)>::empty());
        assert(start.objects.union_prefer_right(objects_view(batch@.take(0))) =~= start.objects);
        for entry in it: batch
            invariant
                it.seq() == batch@,
                self@ == (DocumentValue {
                    objects: start.objects.union_prefer_right(
                        objects_view(batch@.take(it.index() as int)),
                    ),
                    max_id: greatest_number(batch@.take(it.index() as int), start.max_id),
                    ..start
                }),
        {
            let ghost k = it.index() as int;
            proof {
                assert(batch@.take(k + 1).drop_last() =~= batch@.take(k));
                lemma_objects_view_push(batch@.take(k), entry);
                assert(batch@.take(k + 1) =~= batch@.take(k).push(entry));
                assert(start.objects.union_prefer_right(
                    objects_view(batch@.take(k)).insert(entry.0, entry.1@),
                ) =~= start.objects.union_prefer_right(objects_view(batch@.take(k))).insert(
                    entry.0,
                    entry.1@,
                ));
            }
            self.store(entry.0, entry.1);
        }
        assert(batch@.take(batch@.len() as int) =~= batch@);
    }

    /// `set_object`, without the search where the number of `id` is above
    /// `max_id` and so cannot be in use.
    fn store(&mut self, id: ObjectId, object: PdfObject)
        ensures
            final(self)@ == (DocumentValue {
                objects: old(self)@.objects.insert(id, object@),
                max_id: max_number(old(self)@.max_id, id.0),
                ..old(self)@
            }),
    {
        proof {
            use_type_invariant(&*self);
        }
        if id.0 > self.max_id {
            let ghost before = self.objects@;
            let mut objects: Vec<(ObjectId, PdfObject)> = Vec::new();
            std::mem::swap(&mut objects, &mut self.objects);
            proof {
                lemma_objects_view_push(before, (id, object));
            }
            objects.push((id, object));
            self.max_id = id.0;
            self.objects = objects;
        } else {
            self.set_object(id, object);
        }
    }

    /// Raises `max_id` to `floor` where that is greater.
    pub fn raise_max_id(&mut self, floor: u32)
        ensures
            final(self)@ == (DocumentValue {
                max_id: max_number(old(self)@.max_id, floor),
                ..old(self)@
            }),
            final(self).ids() == old(self).ids(),
    {
        proof {
            use_type_invariant(&*self);
        }
        if floor > self.max_id {
            self.max_id = floor;
        }
    }

    /// Builds a document from parts of which nothing is known: of objects
    /// that share an identifier the last one is kept, and `max_id` is raised
    /// to the greatest object number present.
    pub fn from_raw(raw: RawDocument) -> (doc: PdfDocument)
        ensures
            doc@ == normalized(raw@),
    {
        // The counter starts at zero, so that objects that come in the order
        // of their numbers are stored without a search.
        let mut doc = PdfDocument {
            version: raw.version,
            binary_mark: raw.binary_mark,
            cross_reference_stream: raw.cross_reference_stream,
            trailer: raw.trailer,
            objects: Vec::new(),
            max_id: 0,
        };
        assert(doc@.objects =~= Map::<ObjectId, Value>::empty());
        doc.merge_bulk(raw.objects);
        doc.raise_max_id(raw.max_id);
        assert(Map::<ObjectId, Value>::empty().union_prefer_right(objects_view(raw.objects@))
            =~= objects_view(raw.objects@));
        proof {
            let top = greatest_number(raw.objects@, 0);
            let m = max_number(top, raw.max_id);
            lemma_greatest_number_is_counter(raw.objects@, 0);
            assert forall|id: ObjectId| raw@.objects.contains_key(id) implies id.0 <= m by {
                lemma_index_of(raw.objects@, id, raw.objects@.len() as int);
            }
            if m != raw.max_id {
                let i = choose|i: int|
                    0 <= i < raw.objects@.len() && (#[trigger] raw.objects@[i]).0.0 == top;
                let id = raw.objects@[i].0;
                lemma_objects_view_dom(raw.objects@, id);
                assert(raw@.objects.contains_key(id) && id.0 == m);
            }
            assert(is_counter_for(m, raw@));
            lemma_counter_unique(m, m, raw@);
        }
        doc
    }

    /// The stored objects with their identifiers, in storage order, taken
    /// out of the document.
    pub fn into_objects(self) -> (r: Vec<(ObjectId, PdfObject)>)
        ensures
            objects_view(r@) == self@.objects,
            r@.map_values(|e: (ObjectId, PdfObject)| e.0) == self.ids(),
            distinct_ids(r@),
            ids_within(r@, self@.max_id),
    {
        proof {
            use_type_invariant(&self);
        }
        self.objects
    }
}

/// The greatest number of a list is the counter that its objects call for.
pub proof fn lemma_greatest_number_is_counter(s: Seq<(ObjectId, PdfObject)>, floor: u32)
    ensures
        greatest_number(s, floor) >= floor,
        forall|i: int| 0 <= i < s.len() ==> (#[trigger] s[i]).0.0 <= greatest_number(s, floor),
        greatest_number(s, floor) == floor || exists|i: int|
            0 <= i < s.len() && (#[trigger] s[i]).0.0 == greatest_number(s, floor),
    decreases s.len(),
{
    if s.len() > 0 {
        let t = s.drop_last();
        lemma_greatest_number_is_counter(t, floor);
        assert forall|i: int| 0 <= i < s.len() implies (#[trigger] s[i]).0.0 <= greatest_number(
            s,
            floor,
        ) by {
            if i < t.len() {
                assert(t[i] == s[i]);
            }
        }
        if greatest_number(s, floor) != floor {
            if greatest_number(s, floor) == s.last().0.0 {
                assert(s[s.len() - 1].0.0 == greatest_number(s, floor));
            } else {
                let i = choose|i: int|
                    0 <= i < t.len() && (#[trigger] t[i]).0.0 == greatest_number(t, floor);
                assert(s[i] == t[i]);
            }
        }
    }
}

/// Where every entry of `t` has the identifier of the entry of `s` at its
/// place, and a value that `f` makes of the value there, the model of `t` is
/// the model of `s` with `f` applied to every value.
pub proof fn lemma_objects_view_mapped(
    s: Seq<(ObjectId, PdfObject)>,
    t: Seq<(ObjectId, PdfObject)>,
    f: spec_fn(Value) -> Value,
)
    requires
        s.len() == t.len(),
        forall|j: int| 0 <= j < s.len() ==> (#[trigger] t[j]).0 == s[j].0 && t[j].1@ == f(s[j].1@),
    ensures
        objects_view(t) == Map::new(
            |id: ObjectId| objects_view(s).contains_key(id),
            |id: ObjectId| f(objects_view(s)[id]),
        ),
{
    let target = Map::new(
        |id: ObjectId| objects_view(s).contains_key(id),
        |id: ObjectId| f(objects_view(s)[id]),
    );
    assert forall|id: ObjectId| #[trigger]
        objects_view(t).contains_key(id) == target.contains_key(id) by {
        lemma_index_same(t, s, id, s.len() as int);
    }
    assert forall|id: ObjectId| #[trigger] objects_view(t).contains_key(id) implies objects_view(
        t,
    )[id] == target[id] by {
        lemma_index_same(t, s, id, s.len() as int);
        lemma_index_of(s, id, s.len() as int);
    }
    assert(objects_view(t) =~= target);
}

impl PdfDocument {
    /// Compresses every stream that allows it; everything else stays.
    pub fn compress(&mut self)
        ensures
            final(self)@ == (DocumentValue {
                objects: compress_objects(old(self)@.objects),
                ..old(self)@
            }),
            final(self).ids() == old(self).ids(),
    {
        proof {
            use_type_invariant(&*self);
        }
        let ghost before = self.objects@;
        let mut objects: Vec<(ObjectId, PdfObject)> = Vec::new();
        std::mem::swap(&mut objects, &mut self.objects);
        let mut i: usize = 0;
        while i < objects.len()
            invariant
                i <= objects.len(),
                objects.len() == before.len(),
                forall|j: int| 0 <= j < objects.len() ==> (#[trigger] objects@[j]).0 == before[j].0,
                forall|j: int| 0 <= j < i ==> (#[trigger] objects@[j]).1@ == compress_value(before[j].1@),
                forall|j: int| i <= j < objects.len() ==> (#[trigger] objects@[j]).1@ == before[j].1@,
            decreases objects.len() - i,
        {
            let replacement = match &objects[i].1 {
                PdfObject::Stream(s) => {
                    if s.allows_compression {
                        Some(PdfObject::Stream(compress_stream(s)))
                    } else {
                        None
                    }
                },
                _ => None,
            };
            match replacement {
                Some(object) => {
                    let id = objects[i].0;
                    objects.set(i, (id, object));
                },
                None => {},
            }
            i += 1;
        }
        proof {
            lemma_objects_view_mapped(before, objects@, |v: Value| compress_value(v));
            assert(objects_view(objects@) =~= compress_objects(objects_view(before)));
        }
        self.objects = objects;
        assert(self.ids() =~= old(self).ids());
    }

    /// Decodes every stream; everything else stays.
    pub fn decompress(&mut self)
        ensures
            final(self)@ == (DocumentValue {
                objects: decompress_objects(old(self)@.objects),
                ..old(self)@
            }),
            final(self).ids() == old(self).ids(),
    {
        proof {
            use_type_invariant(&*self);
        }
        let ghost before = self.objects@;
        let mut objects: Vec<(ObjectId, PdfObject)> = Vec::new();
        std::mem::swap(&mut objects, &mut self.objects);
        let mut i: usize = 0;
        while i < objects.len()
            invariant
                i <= objects.len(),
                objects.len() == before.len(),
                forall|j: int| 0 <= j < objects.len() ==> (#[trigger] objects@[j]).0 == before[j].0,
                forall|j: int| 0 <= j < i ==> (#[trigger] objects@[j]).1@ == decompress_value(before[j].1@),
                forall|j: int| i <= j < objects.len() ==> (#[trigger] objects@[j]).1@ == before[j].1@,
            decreases objects.len() - i,
        {
            let replacement = match &objects[i].1 {
                PdfObject::Stream(s) => Some(PdfObject::Stream(decompress_stream(s))),
                _ => None,
            };
            match replacement {
                Some(object) => {
                    let id = objects[i].0;
                    objects.set(i, (id, object));
                },
                None => {},
            }
            i += 1;
        }
        proof {
            lemma_objects_view_mapped(before, objects@, |v: Value| decompress_value(v));
            assert(objects_view(objects@) =~= decompress_objects(objects_view(before)));
        }
        self.objects = objects;
        assert(self.ids() =~= old(self).ids());
    }
}

/// What comes of handing a document to the PDF writer: the bytes it wrote,
/// or its message as an error of writing.
pub fn written(saved: Result<Vec<u8>, String>) -> (r: Result<Vec<u8>, Error>)
    ensures
        match saved {
            Ok(bytes) => r == Ok::<Vec<u8>, Error>(bytes),
            Err(message) => r == Err::<Vec<u8>, Error>(Error::Io(message)),
        },
{
    match saved {
        Ok(bytes) => Ok(bytes),
        Err(message) => Err(Error::Io(message)),
    }
}

impl PdfDocument {
    /// Reads a document from the bytes of a PDF file. Bytes that are no PDF
    /// give an error of the PDF with the reader's message, and no document.
    /// An encrypted file gives such an error too, also where it could be
    /// opened without a password: encrypted files are not handled. The
    /// counter of the document read is raised above every object read.
    pub fn load(bytes: &[u8]) -> (r: Result<PdfDocument, Error>)
        ensures
            match loaded(bytes@) {
                Some(v) => r matches Ok(doc) && doc@ == normalized(v),
                None => r matches Err(Error::Pdf(_)),
            },
    {
        match load_mem(bytes) {
            Reading::Plain(raw) => Ok(PdfDocument::from_raw(raw)),
            Reading::Decrypted => Err(Error::Pdf("Encrypted PDF files are not supported".to_owned())),
            Reading::Failed(message) => Err(Error::Pdf(message)),
        }
    }

    /// Writes the document as the bytes of a PDF file: the bytes that the
    /// PDF writer makes of the document as it is written, or the writer's
    /// message as an error of writing.
    pub fn save(&self) -> (r: Result<Vec<u8>, Error>)
        ensures
            match saved(self.syntax()) {
                Ok(bytes) => r matches Ok(v) && v@ == bytes,
                Err(message) => r matches Err(Error::Io(m)) && m@ == message,
            },
    {
        written(save_to(self))
    }

    /// The identifiers of the leaf pages, in page order, as the walk of the
    /// page tree from the catalog finds them.
    pub fn pages(&self) -> (r: Vec<ObjectId>)
        ensures
            r@ == page_tree(self@),
    {
        get_pages(self)
    }
}

} // verus!
