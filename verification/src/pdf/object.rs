//! PDF object values and their mathematical model.

use vstd::prelude::*;
use vstd::string::StrSliceExecFns;
use vstd::string::StringSliceAdditionalSpecFns;

verus! {

/// The identifier of an indirect object: its number and its generation.
pub type ObjectId = (u32, u16);

/// How a string object is written.
#[derive(Clone, Copy, Debug, PartialEq, Eq, Structural)]
pub enum StringFormat {
    Literal,
    Hexadecimal,
}

/// The mathematical model of an [`PdfObject`].
pub enum Value {
    Null,
    Boolean(bool),
    Integer(i64),
    Real(Seq<char>),
    Name(Seq<u8>),
    String(Seq<u8>, StringFormat),
    Array(Seq<Value>),
    Dictionary(Map<Seq<u8>, Value>),
    Stream(StreamValue),
    Reference(ObjectId),
}

/// The mathematical model of a [`PdfStream`].
pub struct StreamValue {
    pub dict: Map<Seq<u8>, Value>,
    pub content: Seq<u8>,
    pub allows_compression: bool,
    pub start_position: Option<usize>,
}

/// An object as it is written: what it holds, with the entries of every
/// dictionary in their order. Two objects with the same model may be written
/// differently; two objects with the same syntax are written alike.
pub enum Syntax {
    Null,
    Boolean(bool),
    Integer(i64),
    Real(Seq<char>),
    Name(Seq<u8>),
    String(Seq<u8>, StringFormat),
    Array(Seq<Syntax>),
    Dictionary(Seq<(Seq<u8>, Syntax)>),
    Stream(StreamSyntax),
    Reference(ObjectId),
}

/// A stream as it is written.
pub struct StreamSyntax {
    pub dict: Seq<(Seq<u8>, Syntax)>,
    pub content: Seq<u8>,
    pub allows_compression: bool,
    pub start_position: Option<usize>,
}

/// A PDF object value.
#[derive(Debug)]
pub enum PdfObject {
    Null,
    Boolean(bool),
    Integer(i64),
    Real(String),
    Name(Vec<u8>),
    String(Vec<u8>, StringFormat),
    Array(Vec<PdfObject>),
    Dictionary(PdfDict),
    Stream(PdfStream),
    Reference(ObjectId),
}

/// A dictionary object: names with their values, in the order they were set.
#[derive(Debug)]
pub struct PdfDict {
    pub entries: Vec<(Vec<u8>, PdfObject)>,
}

/// A stream object: a dictionary and raw bytes.
#[derive(Debug)]
pub struct PdfStream {
    pub dict: PdfDict,
    pub content: Vec<u8>,
    pub allows_compression: bool,
    pub start_position: Option<usize>,
}

/// The model of a list of objects.
pub open spec fn array_view(s: Seq<PdfObject>) -> Seq<Value>
    decreases s,
{
    Seq::new(s.len(), |i: int| if 0 <= i < s.len() { s[i].view() } else { Value::Null })
}

/// The greatest index below `n` at which `key` stands in `s`, or -1.
pub open spec fn last_index_of(s: Seq<(Vec<u8>, PdfObject)>, key: Seq<u8>, n: int) -> int
    decreases n,
{
    if n <= 0 {
        -1
    } else if n <= s.len() && s[n - 1].0@ == key {
        n - 1
    } else {
        last_index_of(s, key, n - 1)
    }
}

/// The model of a list of dictionary entries: each name with the value of its
/// last entry.
pub open spec fn entries_view(s: Seq<(Vec<u8>, PdfObject)>) -> Map<Seq<u8>, Value>
    decreases s,
{
    Map::new(
        |k: Seq<u8>| last_index_of(s, k, s.len() as int) >= 0,
        |k: Seq<u8>|
            {
                let i = last_index_of(s, k, s.len() as int);
                if 0 <= i < s.len() {
                    s[i].1.view()
                } else {
                    Value::Null
                }
            },
    )
}

/// A list of objects as it is written.
pub open spec fn array_syntax(s: Seq<PdfObject>) -> Seq<Syntax>
    decreases s,
{
    Seq::new(
        s.len(),
        |i: int|
            if 0 <= i < s.len() {
                s[i].syntax()
            } else {
                Syntax::Null
            },
    )
}

/// A list of dictionary entries as it is written: every entry, in order.
pub open spec fn entries_syntax(s: Seq<(Vec<u8>, PdfObject)>) -> Seq<(Seq<u8>, Syntax)>
    decreases s,
{
    Seq::new(
        s.len(),
        |i: int|
            if 0 <= i < s.len() {
                (s[i].0@, s[i].1.syntax())
            } else {
                (Seq::<u8>::empty(), Syntax::Null)
            },
    )
}

impl PdfObject {
    /// This object as it is written.
    pub open spec fn syntax(self) -> Syntax
        decreases self,
    {
        match self {
            PdfObject::Null => Syntax::Null,
            PdfObject::Boolean(b) => Syntax::Boolean(b),
            PdfObject::Integer(i) => Syntax::Integer(i),
            PdfObject::Real(r) => Syntax::Real(r@),
            PdfObject::Name(n) => Syntax::Name(n@),
            PdfObject::String(s, f) => Syntax::String(s@, f),
            PdfObject::Array(a) => Syntax::Array(array_syntax(a@)),
            PdfObject::Dictionary(d) => Syntax::Dictionary(entries_syntax(d.entries@)),
            PdfObject::Stream(s) => Syntax::Stream(
                StreamSyntax {
                    dict: entries_syntax(s.dict.entries@),
                    content: s.content@,
                    allows_compression: s.allows_compression,
                    start_position: s.start_position,
                },
            ),
            PdfObject::Reference(id) => Syntax::Reference(id),
        }
    }
}

impl PdfObject {
    /// The model of this object.
    pub open spec fn view(self) -> Value
        decreases self,
    {
        match self {
            PdfObject::Null => Value::Null,
            PdfObject::Boolean(b) => Value::Boolean(b),
            PdfObject::Integer(i) => Value::Integer(i),
            PdfObject::Real(r) => Value::Real(r@),
            PdfObject::Name(n) => Value::Name(n@),
            PdfObject::String(s, f) => Value::String(s@, f),
            PdfObject::Array(a) => Value::Array(array_view(a@)),
            PdfObject::Dictionary(d) => Value::Dictionary(entries_view(d.entries@)),
            PdfObject::Stream(s) => Value::Stream(
                StreamValue {
                    dict: entries_view(s.dict.entries@),
                    content: s.content@,
                    allows_compression: s.allows_compression,
                    start_position: s.start_position,
                },
            ),
            PdfObject::Reference(id) => Value::Reference(id),
        }
    }
}

impl PdfDict {
    /// The model of this dictionary: each name with its value.
    pub open spec fn view(self) -> Map<Seq<u8>, Value> {
        entries_view(self.entries@)
    }
}

impl PdfStream {
    /// The model of this stream.
    pub open spec fn view(self) -> StreamValue {
        StreamValue {
            dict: self.dict@,
            content: self.content@,
            allows_compression: self.allows_compression,
            start_position: self.start_position,
        }
    }
}

/// The bytes of a name written as text.
pub open spec fn name(s: &str) -> Seq<u8> {
    s.spec_bytes()
}

/// The bytes of a name written as text, for use as a dictionary key or as the
/// payload of a name object.
pub fn key(s: &str) -> (r: Vec<u8>)
    ensures
        r@ == name(s),
{
    s.as_bytes_vec()
}

/// Whether two byte strings are equal.
pub fn bytes_eq(a: &[u8], b: &[u8]) -> (r: bool)
    ensures
        r == (a@ == b@),
{
    if a.len() != b.len() {
        return false;
    }
    let mut i: usize = 0;
    while i < a.len()
        invariant
            a.len() == b.len(),
            i <= a.len(),
            forall|j: int| 0 <= j < i ==> a@[j] == b@[j],
        decreases a.len() - i,
    {
        if a[i] != b[i] {
            return false;
        }
        i += 1;
    }
    assert(a@ =~= b@);
    true
}

/// A copy of a byte string.
pub fn copy_bytes(a: &[u8]) -> (r: Vec<u8>)
    ensures
        r@ == a@,
{
    let mut out: Vec<u8> = Vec::new();
    let mut i: usize = 0;
    while i < a.len()
        invariant
            i <= a.len(),
            out@ == a@.take(i as int),
        decreases a.len() - i,
    {
        out.push(a[i]);
        i += 1;
    }
    assert(a@.take(a.len() as int) == a@);
    out
}

/// `last_index_of` gives -1 or an index below `n` that holds `key`, and no
/// later index below `n` holds it.
pub proof fn lemma_last_index_of(s: Seq<(Vec<u8>, PdfObject)>, key: Seq<u8>, n: int)
    requires
        0 <= n <= s.len(),
    ensures
        -1 <= last_index_of(s, key, n) < n,
        last_index_of(s, key, n) >= 0 ==> s[last_index_of(s, key, n)].0@ == key,
        forall|j: int| last_index_of(s, key, n) < j < n ==> s[j].0@ != key,
    decreases n,
{
    if n > 0 && s[n - 1].0@ != key {
        lemma_last_index_of(s, key, n - 1);
    }
}

/// Adding an entry at the end sets its name to its value in the model.
pub proof fn lemma_entries_view_push(s: Seq<(Vec<u8>, PdfObject)>, e: (Vec<u8>, PdfObject))
    ensures
        entries_view(s.push(e)) == entries_view(s).insert(e.0@, e.1@),
{
    let t = s.push(e);
    assert forall|k: Seq<u8>| k != e.0@ implies last_index_of(t, k, t.len() as int)
        == last_index_of(s, k, s.len() as int) by {
        lemma_last_index_same(s, t, k, s.len() as int);
    }
    assert forall|k: Seq<u8>| #[trigger]
        entries_view(t).contains_key(k) == entries_view(s).insert(e.0@, e.1@).contains_key(
            k,
        ) by {
        if k != e.0@ {
            lemma_last_index_same(s, t, k, s.len() as int);
        }
    }
    assert forall|k: Seq<u8>| #[trigger]
        entries_view(t).contains_key(k) implies entries_view(t)[k] == entries_view(s).insert(
        e.0@,
        e.1@,
    )[k] by {
        if k != e.0@ {
            lemma_last_index_same(s, t, k, s.len() as int);
            lemma_last_index_of(s, k, s.len() as int);
        }
    }
    assert(entries_view(t) =~= entries_view(s).insert(e.0@, e.1@));
}

/// Putting an entry in the place that gives its name a value sets the name to
/// the new value in the model.
pub proof fn lemma_entries_view_update(s: Seq<(Vec<u8>, PdfObject)>, i: int, e: (Vec<u8>, PdfObject))
    requires
        0 <= i < s.len(),
        i == last_index_of(s, e.0@, s.len() as int),
    ensures
        entries_view(s.update(i, e)) == entries_view(s).insert(e.0@, e.1@),
{
    let t = s.update(i, e);
    lemma_last_index_of(s, e.0@, s.len() as int);
    assert forall|k: Seq<u8>|
        last_index_of(s, k, s.len() as int) == last_index_of(t, k, t.len() as int) by {
        lemma_last_index_same(s, t, k, s.len() as int);
    }
    assert forall|k: Seq<u8>| #[trigger]
        entries_view(t).contains_key(k) implies entries_view(t)[k] == entries_view(s).insert(
        e.0@,
        e.1@,
    )[k] by {
        lemma_last_index_same(s, t, k, s.len() as int);
        lemma_last_index_of(s, k, s.len() as int);
    }
    assert(entries_view(t) =~= entries_view(s).insert(e.0@, e.1@));
}

/// Two entry lists that agree on the names of their first `n` entries give
/// the same last index below `n`.
pub proof fn lemma_last_index_same(
    s: Seq<(Vec<u8>, PdfObject)>,
    t: Seq<(Vec<u8>, PdfObject)>,
    key: Seq<u8>,
    n: int,
)
    requires
        0 <= n <= s.len(),
        n <= t.len(),
        forall|j: int| 0 <= j < n ==> s[j].0@ == t[j].0@,
    ensures
        last_index_of(s, key, n) == last_index_of(t, key, n),
    decreases n,
{
    if n > 0 {
        lemma_last_index_same(s, t, key, n - 1);
    }
}

/// Entry lists with the same names and values, place by place, have the same
/// model.
pub proof fn lemma_entries_view_same(s: Seq<(Vec<u8>, PdfObject)>, t: Seq<(Vec<u8>, PdfObject)>)
    requires
        s.len() == t.len(),
        forall|j: int| 0 <= j < s.len() ==> s[j].0@ == t[j].0@ && s[j].1@ == t[j].1@,
    ensures
        entries_view(s) == entries_view(t),
{
    assert forall|k: Seq<u8>|
        last_index_of(s, k, s.len() as int) == last_index_of(t, k, t.len() as int) by {
        lemma_last_index_same(s, t, k, s.len() as int);
    }
    assert forall|k: Seq<u8>| #[trigger]
        entries_view(s).contains_key(k) implies entries_view(s)[k] == entries_view(t)[k] by {
        lemma_last_index_same(s, t, k, s.len() as int);
        lemma_last_index_of(s, k, s.len() as int);
    }
    assert(entries_view(s) =~= entries_view(t));
}

impl PdfDict {
    /// An empty dictionary.
    pub fn new() -> (d: PdfDict)
        ensures
            d@ == Map::<Seq<u8>, Value>::empty(),
    {
        let d = PdfDict { entries: Vec::new() };
        assert(d@ =~= Map::<Seq<u8>, Value>::empty());
        d
    }

    /// The index of the entry that gives `key` its value, if there is one.
    fn position(&self, key: &[u8]) -> (r: Option<usize>)
        ensures
            match r {
                Some(i) => i < self.entries.len() && i as int == last_index_of(
                    self.entries@,
                    key@,
                    self.entries.len() as int,
                ),
                None => last_index_of(self.entries@, key@, self.entries.len() as int) == -1,
            },
    {
        let mut n: usize = self.entries.len();
        while n > 0
            invariant
                n <= self.entries.len(),
                last_index_of(self.entries@, key@, self.entries.len() as int) == last_index_of(
                    self.entries@,
                    key@,
                    n as int,
                ),
            decreases n,
        {
            if bytes_eq(self.entries[n - 1].0.as_slice(), key) {
                return Some(n - 1);
            }
            n -= 1;
        }
        None
    }

    /// Whether the dictionary has an entry for `key`.
    pub fn has(&self, key: &[u8]) -> (r: bool)
        ensures
            r == self@.contains_key(key@),
    {
        self.position(key).is_some()
    }

    /// The value of `key`, if the dictionary has one.
    pub fn get(&self, key: &[u8]) -> (r: Option<&PdfObject>)
        ensures
            r is Some == self@.contains_key(key@),
            r matches Some(o) ==> o@ == self@[key@],
    {
        match self.position(key) {
            Some(i) => Some(&self.entries[i].1),
            None => None,
        }
    }

    /// Gives `key` the value `value`, in place of any value it had.
    pub fn set(&mut self, key: Vec<u8>, value: PdfObject)
        ensures
            final(self)@ == old(self)@.insert(key@, value@),
    {
        match self.position(key.as_slice()) {
            Some(i) => {
                proof {
                    lemma_entries_view_update(self.entries@, i as int, (key, value));
                }
                self.entries.set(i, (key, value));
            },
            None => {
                proof {
                    lemma_entries_view_push(self.entries@, (key, value));
                }
                self.entries.push((key, value));
            },
        }
    }
}

/// A copy of a list of objects.
pub fn copy_array(a: &Vec<PdfObject>) -> (r: Vec<PdfObject>)
    ensures
        array_view(r@) == array_view(a@),
    decreases a,
{
    let mut out: Vec<PdfObject> = Vec::new();
    let mut i: usize = 0;
    while i < a.len()
        invariant
            i <= a.len(),
            out.len() == i,
            forall|j: int| 0 <= j < i ==> out@[j]@ == a@[j]@,
        decreases a.len() - i,
    {
        out.push(a[i].copy());
        i += 1;
    }
    assert(array_view(out@) =~= array_view(a@));
    out
}

/// A copy of a list of dictionary entries.
pub fn copy_entries(e: &Vec<(Vec<u8>, PdfObject)>) -> (r: Vec<(Vec<u8>, PdfObject)>)
    ensures
        r.len() == e.len(),
        forall|j: int| 0 <= j < e.len() ==> r@[j].0@ == e@[j].0@ && r@[j].1@ == e@[j].1@,
        entries_view(r@) == entries_view(e@),
    decreases e,
{
    let mut out: Vec<(Vec<u8>, PdfObject)> = Vec::new();
    let mut i: usize = 0;
    while i < e.len()
        invariant
            i <= e.len(),
            out.len() == i,
            forall|j: int| 0 <= j < i ==> out@[j].0@ == e@[j].0@ && out@[j].1@ == e@[j].1@,
        decreases e.len() - i,
    {
        out.push((copy_bytes(e[i].0.as_slice()), e[i].1.copy()));
        i += 1;
    }
    proof {
        lemma_entries_view_same(out@, e@);
    }
    out
}

impl PdfObject {
    /// A copy of this object.
    pub fn copy(&self) -> (r: PdfObject)
        ensures
            r@ == self@,
        decreases self,
    {
        match self {
            PdfObject::Null => PdfObject::Null,
            PdfObject::Boolean(b) => PdfObject::Boolean(*b),
            PdfObject::Integer(i) => PdfObject::Integer(*i),
            PdfObject::Real(t) => PdfObject::Real(t.clone()),
            PdfObject::Name(n) => PdfObject::Name(copy_bytes(n.as_slice())),
            PdfObject::String(s, f) => PdfObject::String(copy_bytes(s.as_slice()), *f),
            PdfObject::Array(a) => PdfObject::Array(copy_array(a)),
            PdfObject::Dictionary(d) => PdfObject::Dictionary(
                PdfDict { entries: copy_entries(&d.entries) },
            ),
            PdfObject::Stream(s) => PdfObject::Stream(
                PdfStream {
                    dict: PdfDict { entries: copy_entries(&s.dict.entries) },
                    content: copy_bytes(s.content.as_slice()),
                    allows_compression: s.allows_compression,
                    start_position: s.start_position,
                },
            ),
            PdfObject::Reference(id) => PdfObject::Reference(*id),
        }
    }
}

impl Clone for PdfObject {
    fn clone(&self) -> (r: PdfObject)
        ensures
            r@ == self@,
    {
        self.copy()
    }
}

impl Clone for PdfDict {
    fn clone(&self) -> (r: PdfDict)
        ensures
            r@ == self@,
    {
        PdfDict { entries: copy_entries(&self.entries) }
    }
}

impl Clone for PdfStream {
    fn clone(&self) -> (r: PdfStream)
        ensures
            r@ == self@,
    {
        PdfStream {
            dict: self.dict.clone(),
            content: copy_bytes(self.content.as_slice()),
            allows_compression: self.allows_compression,
            start_position: self.start_position,
        }
    }
}

/// The identifier `id` moved up by `offset` object numbers. Where the sum
/// does not fit an object number, the identifier stays as it is.
pub open spec fn shift_id(id: ObjectId, offset: u32) -> ObjectId {
    if id.0 + offset <= u32::MAX {
        ((id.0 + offset) as u32, id.1)
    } else {
        id
    }
}

/// `v` with every reference in it, at any depth, moved up by `offset`.
pub open spec fn shift_value(v: Value, offset: u32) -> Value
    decreases v,
{
    match v {
        Value::Reference(id) => Value::Reference(shift_id(id, offset)),
        Value::Array(a) => Value::Array(
            Seq::new(
                a.len(),
                |i: int|
                    if 0 <= i < a.len() {
                        shift_value(a[i], offset)
                    } else {
                        Value::Null
                    },
            ),
        ),
        Value::Dictionary(m) => Value::Dictionary(
            Map::new(
                |k: Seq<u8>| m.contains_key(k),
                |k: Seq<u8>|
                    if m.contains_key(k) {
                        shift_value(m[k], offset)
                    } else {
                        Value::Null
                    },
            ),
        ),
        Value::Stream(s) => Value::Stream(
            StreamValue {
                dict: Map::new(
                    |k: Seq<u8>| s.dict.contains_key(k),
                    |k: Seq<u8>|
                        if s.dict.contains_key(k) {
                            shift_value(s.dict[k], offset)
                        } else {
                            Value::Null
                        },
                ),
                ..s
            },
        ),
        _ => v,
    }
}

/// The items of an array with every reference moved up by `offset`.
pub open spec fn shift_array(a: Seq<Value>, offset: u32) -> Seq<Value> {
    Seq::new(a.len(), |i: int| shift_value(a[i], offset))
}

/// The entries of a dictionary with every reference moved up by `offset`.
pub open spec fn shift_dict(m: Map<Seq<u8>, Value>, offset: u32) -> Map<Seq<u8>, Value> {
    Map::new(|k: Seq<u8>| m.contains_key(k), |k: Seq<u8>| shift_value(m[k], offset))
}

/// How [`shift_value`] acts on each kind of value that holds others.
pub proof fn lemma_shift_value(v: Value, offset: u32)
    ensures
        v matches Value::Array(a) ==> shift_value(v, offset) == Value::Array(shift_array(a, offset)),
        v matches Value::Dictionary(m) ==> shift_value(v, offset) == Value::Dictionary(
            shift_dict(m, offset),
        ),
        v matches Value::Stream(s) ==> shift_value(v, offset) == Value::Stream(
            StreamValue { dict: shift_dict(s.dict, offset), ..s },
        ),
{
    match v {
        Value::Array(a) => {
            assert(shift_value(v, offset)->Array_0 =~= shift_array(a, offset));
        },
        Value::Dictionary(m) => {
            assert(shift_value(v, offset)->Dictionary_0 =~= shift_dict(m, offset));
        },
        Value::Stream(s) => {
            assert(shift_value(v, offset)->Stream_0.dict =~= shift_dict(s.dict, offset));
        },
        _ => {},
    }
}

/// The `Length` entry for a content of `n` bytes.
pub open spec fn length_entry(n: nat) -> Value {
    Value::Integer(
        if n <= i64::MAX {
            n as i64
        } else {
            i64::MAX
        },
    )
}

/// The stream with the dictionary `dict`, to which the length of the content
/// is added, and the content `content`; it may be compressed.
pub open spec fn new_stream(dict: Map<Seq<u8>, Value>, content: Seq<u8>) -> StreamValue {
    StreamValue {
        dict: dict.insert(name("Length"), length_entry(content.len())),
        content,
        allows_compression: true,
        start_position: None,
    }
}

/// An array of integer objects.
pub open spec fn integers(values: Seq<i64>) -> Seq<Value> {
    values.map_values(|i: i64| Value::Integer(i))
}

impl PdfStream {
    /// A stream with the given dictionary and content; its `Length` entry is
    /// set to the length of the content, and it may be compressed.
    pub fn new(dict: PdfDict, content: Vec<u8>) -> (r: PdfStream)
        ensures
            r@ == new_stream(dict@, content@),
    {
        let mut dict = dict;
        let length: i64 = if content.len() as u64 <= i64::MAX as u64 {
            content.len() as i64
        } else {
            i64::MAX
        };
        dict.set(key("Length"), PdfObject::Integer(length));
        PdfStream { dict, content, allows_compression: true, start_position: None }
    }
}

/// An array of integer objects with the given values.
pub fn integer_array(values: &Vec<i64>) -> (r: Vec<PdfObject>)
    ensures
        array_view(r@) == integers(values@),
        r.len() == values.len(),
{
    let mut out: Vec<PdfObject> = Vec::new();
    let mut i: usize = 0;
    while i < values.len()
        invariant
            i <= values.len(),
            out.len() == i,
            forall|j: int| 0 <= j < i ==> out@[j]@ == Value::Integer(values@[j]),
        decreases values.len() - i,
    {
        out.push(PdfObject::Integer(values[i]));
        i += 1;
    }
    assert(array_view(out@) =~= integers(values@));
    out
}

} // verus!
