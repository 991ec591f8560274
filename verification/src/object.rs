//! The library's model of a PDF object graph.
//!
//! The document collaborator that loads and saves files owns the real graph;
//! this model holds, as plain values, exactly what the traversal reads and
//! rewrites: dictionaries, arrays, names, strings, references, and for each
//! stream its dictionary together with its decoded operator list.

#![verifier::loop_isolation(false)]

use vstd::prelude::*;
use vstd::string::StringSliceAdditionalSpecFns;

use crate::error::PdfError;

verus! {

/// The pair of sequence number and generation that addresses an object.
#[derive(Debug, Clone, Copy, PartialEq, Eq, Hash, PartialOrd, Ord, Structural)]
pub struct ObjectId {
    pub num: u32,
    pub generation: u16,
}

/// How a string object was written, kept so a rewrite can preserve it.
#[derive(Debug, Clone, Copy, PartialEq, Eq, Structural)]
pub enum StrFormat {
    Literal,
    Hexadecimal,
}

/// One object of the graph.
///
/// A real number is carried in millionths of a unit, the precision this
/// library preserves; the traversal itself reads only its sign.
#[derive(Debug, PartialEq, Eq)]
pub enum PdfObject {
    Null,
    Boolean(bool),
    Integer(i64),
    Real(i64),
    Name(Vec<u8>),
    Str(Vec<u8>, StrFormat),
    Array(Vec<PdfObject>),
    Dict(PdfDict),
    Stream(PdfStream),
    Ref(ObjectId),
}

/// A dictionary: name keys mapped to objects, in writing order.
///
/// Lookups take the first entry with a matching key; well-formed documents
/// have no duplicate keys, so first-match and any-match agree.
#[derive(Debug, PartialEq, Eq)]
pub struct PdfDict {
    pub entries: Vec<(Vec<u8>, PdfObject)>,
}

/// A stream object: its dictionary, and its content decoded to an operator
/// list — `None` when the bytes were not decodable as operators.
#[derive(Debug, PartialEq, Eq)]
pub struct PdfStream {
    pub dict: PdfDict,
    pub ops: Option<Vec<Op>>,
}

/// One content-stream operation: an operator name and its operands.
#[derive(Debug, PartialEq, Eq)]
pub struct Op {
    pub operator: String,
    pub operands: Vec<PdfObject>,
}

/// A page: its one-based number, its object id, its resource scope, and its
/// content streams, as the document collaborator reports them.
#[derive(Debug, PartialEq, Eq)]
pub struct Page {
    pub number: u32,
    pub id: ObjectId,
    pub resources_direct: Option<PdfDict>,
    pub resources_inherited: Vec<ObjectId>,
    pub contents: Vec<ObjectId>,
}

/// The document: its object graph and its page list.
#[derive(Debug, PartialEq, Eq)]
pub struct Document {
    pub objects: Vec<(ObjectId, PdfObject)>,
    pub pages: Vec<Page>,
}

/// The object stored under `id`: the first entry that carries it.
pub open spec fn obj_lookup(objs: Seq<(ObjectId, PdfObject)>, id: ObjectId) -> Option<PdfObject>
    decreases objs.len(),
{
    if objs.len() == 0 {
        None
    } else if objs[0].0 == id {
        Some(objs[0].1)
    } else {
        obj_lookup(objs.drop_first(), id)
    }
}

/// The index of the first entry that carries `id`, or the length if none.
pub open spec fn obj_index(objs: Seq<(ObjectId, PdfObject)>, id: ObjectId) -> int
    decreases objs.len(),
{
    if objs.len() == 0 {
        0
    } else if objs[0].0 == id {
        0
    } else {
        1 + obj_index(objs.drop_first(), id)
    }
}

/// The shape of the object graph: each stored object replaced by its shape,
/// the ids kept.
pub open spec fn graph_v(objs: Seq<(ObjectId, PdfObject)>) -> Seq<(ObjectId, ObjV)> {
    Seq::new(objs.len(), |i: int| (objs[i].0, obj_v(objs[i].1)))
}

/// The object shape stored under `id`: the first entry that carries it.
pub open spec fn vobj_lookup(objs: Seq<(ObjectId, ObjV)>, id: ObjectId) -> Option<ObjV>
    decreases objs.len(),
{
    if objs.len() == 0 {
        None
    } else if objs[0].0 == id {
        Some(objs[0].1)
    } else {
        vobj_lookup(objs.drop_first(), id)
    }
}

/// The index of the first graph-shape entry under `id`, or the length.
pub open spec fn vobj_index(objs: Seq<(ObjectId, ObjV)>, id: ObjectId) -> int
    decreases objs.len(),
{
    if objs.len() == 0 {
        0
    } else if objs[0].0 == id {
        0
    } else {
        1 + vobj_index(objs.drop_first(), id)
    }
}

/// The first-match index and the first-match lookup agree.
pub proof fn lemma_vobj_index(objs: Seq<(ObjectId, ObjV)>, id: ObjectId)
    ensures
        0 <= vobj_index(objs, id) <= objs.len(),
        vobj_index(objs, id) == objs.len() <==> vobj_lookup(objs, id) is None,
        vobj_index(objs, id) < objs.len() ==> objs[vobj_index(objs, id)].0 == id && vobj_lookup(
            objs,
            id,
        ) == Some(objs[vobj_index(objs, id)].1),
        forall|j: int| 0 <= j < vobj_index(objs, id) ==> objs[j].0 != id,
    decreases objs.len(),
{
    if objs.len() > 0 && objs[0].0 != id {
        lemma_vobj_index(objs.drop_first(), id);
        assert forall|j: int| 0 <= j < vobj_index(objs, id) implies objs[j].0 != id by {
            if j > 0 {
                assert(objs.drop_first()[j - 1] == objs[j]);
            }
        }
    }
}

/// Looking up in the graph's shape is looking up in the graph and taking
/// the shape of what was found, at the same index.
pub proof fn lemma_graph_v_lookup(objs: Seq<(ObjectId, PdfObject)>, id: ObjectId)
    ensures
        vobj_lookup(graph_v(objs), id) == match obj_lookup(objs, id) {
            None => None::<ObjV>,
            Some(o) => Some(obj_v(o)),
        },
        vobj_index(graph_v(objs), id) == obj_index(objs, id),
    decreases objs.len(),
{
    if objs.len() > 0 {
        assert(graph_v(objs).drop_first() =~= graph_v(objs.drop_first()));
        if objs[0].0 != id {
            lemma_graph_v_lookup(objs.drop_first(), id);
        }
    }
}

/// The value stored under `key`: the first entry that carries it.
pub open spec fn dict_get(entries: Seq<(Vec<u8>, PdfObject)>, key: Seq<u8>) -> Option<PdfObject>
    decreases entries.len(),
{
    if entries.len() == 0 {
        None
    } else if entries[0].0@ == key {
        Some(entries[0].1)
    } else {
        dict_get(entries.drop_first(), key)
    }
}

/// The mathematical shape of an object: every container replaced by its
/// sequence of member shapes. Contracts speak of these, never of allocation.
pub enum ObjV {
    Null,
    Boolean(bool),
    Integer(i64),
    Real(i64),
    Name(Seq<u8>),
    Str(Seq<u8>, StrFormat),
    Array(Seq<ObjV>),
    Dict(Seq<(Seq<u8>, ObjV)>),
    Stream(StreamV),
    Ref(ObjectId),
}

/// The mathematical shape of a stream object.
pub struct StreamV {
    pub dict: Seq<(Seq<u8>, ObjV)>,
    pub ops: Option<Seq<OpV>>,
}

/// The mathematical shape of one operation.
pub struct OpV {
    pub operator: Seq<char>,
    pub operands: Seq<ObjV>,
}

/// The shape of an object.
pub open spec fn obj_v(o: PdfObject) -> ObjV
    decreases o,
{
    match o {
        PdfObject::Null => ObjV::Null,
        PdfObject::Boolean(b) => ObjV::Boolean(b),
        PdfObject::Integer(i) => ObjV::Integer(i),
        PdfObject::Real(x) => ObjV::Real(x),
        PdfObject::Name(n) => ObjV::Name(n@),
        PdfObject::Str(s, f) => ObjV::Str(s@, f),
        PdfObject::Array(v) => ObjV::Array(objs_v(v@)),
        PdfObject::Dict(d) => ObjV::Dict(dict_v(d.entries@)),
        PdfObject::Stream(st) => ObjV::Stream(stream_v(st)),
        PdfObject::Ref(id) => ObjV::Ref(id),
    }
}

/// The shapes of a sequence of objects.
pub open spec fn objs_v(s: Seq<PdfObject>) -> Seq<ObjV>
    decreases s,
{
    if s.len() == 0 {
        Seq::empty()
    } else {
        objs_v(s.drop_last()).push(obj_v(s.last()))
    }
}

/// The shapes of a dictionary's entries.
pub open spec fn dict_v(s: Seq<(Vec<u8>, PdfObject)>) -> Seq<(Seq<u8>, ObjV)>
    decreases s,
{
    if s.len() == 0 {
        Seq::empty()
    } else {
        dict_v(s.drop_last()).push((s.last().0@, obj_v(s.last().1)))
    }
}

/// The shape of a stream object.
pub open spec fn stream_v(st: PdfStream) -> StreamV
    decreases st,
{
    StreamV {
        dict: dict_v(st.dict.entries@),
        ops: match st.ops {
            None => None,
            Some(v) => Some(ops_v(v@)),
        },
    }
}

/// The shape of one operation.
pub open spec fn op_v(o: Op) -> OpV
    decreases o,
{
    OpV { operator: o.operator@, operands: objs_v(o.operands@) }
}

/// The shapes of a sequence of operations.
pub open spec fn ops_v(s: Seq<Op>) -> Seq<OpV>
    decreases s,
{
    if s.len() == 0 {
        Seq::empty()
    } else {
        ops_v(s.drop_last()).push(op_v(s.last()))
    }
}

/// `objs_v` maps the sequence pointwise.
pub proof fn lemma_objs_v(s: Seq<PdfObject>)
    ensures
        objs_v(s).len() == s.len(),
        forall|i: int| 0 <= i < s.len() ==> objs_v(s)[i] == obj_v(s[i]),
    decreases s,
{
    if s.len() > 0 {
        lemma_objs_v(s.drop_last());
    }
}

/// `dict_v` maps the entries pointwise.
pub proof fn lemma_dict_v(s: Seq<(Vec<u8>, PdfObject)>)
    ensures
        dict_v(s).len() == s.len(),
        forall|i: int|
            0 <= i < s.len() ==> dict_v(s)[i] == (s[i].0@, obj_v(s[i].1)),
    decreases s,
{
    if s.len() > 0 {
        lemma_dict_v(s.drop_last());
    }
}

/// `ops_v` maps the sequence pointwise.
pub proof fn lemma_ops_v(s: Seq<Op>)
    ensures
        ops_v(s).len() == s.len(),
        forall|i: int| 0 <= i < s.len() ==> ops_v(s)[i] == op_v(s[i]),
    decreases s,
{
    if s.len() > 0 {
        lemma_ops_v(s.drop_last());
    }
}

/// The value under `key` in a dictionary shape.
pub open spec fn vdict_get(entries: Seq<(Seq<u8>, ObjV)>, key: Seq<u8>) -> Option<ObjV>
    decreases entries.len(),
{
    if entries.len() == 0 {
        None
    } else if entries[0].0 == key {
        Some(entries[0].1)
    } else {
        vdict_get(entries.drop_first(), key)
    }
}

/// Looking a key up in a dictionary's shape is looking it up in the
/// dictionary and taking the shape of what was found.
pub proof fn lemma_vdict_get(s: Seq<(Vec<u8>, PdfObject)>, key: Seq<u8>)
    ensures
        vdict_get(dict_v(s), key) == match dict_get(s, key) {
            None => None::<ObjV>,
            Some(o) => Some(obj_v(o)),
        },
    decreases s.len(),
{
    lemma_dict_v(s);
    if s.len() > 0 {
        lemma_dict_v(s.drop_first());
        assert(dict_v(s).drop_first() =~= dict_v(s.drop_first())) by {
            lemma_dict_v(s);
            lemma_dict_v(s.drop_first());
        }
        lemma_vdict_get(s.drop_first(), key);
    }
}

/// Whether two byte strings hold the same bytes.
pub fn bytes_eq(a: &[u8], b: &[u8]) -> (r: bool)
    ensures
        r == (a@ == b@),
{
    if a.len() != b.len() {
        proof {
            assert(a@.len() != b@.len());
        }
        return false;
    }
    let mut i: usize = 0;
    while i < a.len()
        invariant
            a@.len() == b@.len(),
            i <= a@.len(),
            forall|j: int| 0 <= j < i ==> a@[j] == b@[j],
        decreases a@.len() - i,
    {
        if a[i] != b[i] {
            return false;
        }
        i = i + 1;
    }
    proof {
        assert(a@ =~= b@);
    }
    true
}

/// Whether two strings hold the same characters.
pub fn str_eq(a: &str, b: &str) -> (r: bool)
    ensures
        r == (a@ == b@),
{
    let r = bytes_eq(a.as_bytes(), b.as_bytes());
    proof {
        if a.spec_bytes() == b.spec_bytes() {
            vstd::utf8::encode_utf8_decode_utf8(a@);
            vstd::utf8::encode_utf8_decode_utf8(b@);
        }
    }
    r
}

impl PdfDict {
    /// A dictionary without entries.
    pub fn new() -> (r: PdfDict)
        ensures
            r.entries@.len() == 0,
    {
        PdfDict { entries: Vec::new() }
    }

    /// The value under `key`, or `None`.
    pub fn get(&self, key: &[u8]) -> (r: Option<&PdfObject>)
        ensures
            match r {
                Some(v) => dict_get(self.entries@, key@) == Some(*v),
                None => dict_get(self.entries@, key@) is None,
            },
    {
        let n = self.entries.len();
        let mut i: usize = 0;
        proof {
            assert(self.entries@.skip(0) =~= self.entries@);
        }
        while i < n
            invariant
                n == self.entries@.len(),
                i <= n,
                dict_get(self.entries@, key@) == dict_get(self.entries@.skip(i as int), key@),
            decreases n - i,
        {
            proof {
                assert(self.entries@.skip(i as int)[0] == self.entries@[i as int]);
            }
            if bytes_eq(self.entries[i].0.as_slice(), key) {
                return Some(&self.entries[i].1);
            }
            proof {
                assert(self.entries@.skip(i as int).drop_first() =~= self.entries@.skip(
                    i as int + 1,
                ));
            }
            i = i + 1;
        }
        proof {
            assert(self.entries@.skip(n as int) =~= Seq::<(Vec<u8>, PdfObject)>::empty());
        }
        None
    }

    /// Whether the dictionary holds an entry under `key`.
    pub fn has(&self, key: &[u8]) -> (r: bool)
        ensures
            r == (dict_get(self.entries@, key@) is Some),
    {
        self.get(key).is_some()
    }
}

/// A fresh byte string holding the same bytes.
pub fn clone_bytes(v: &Vec<u8>) -> (r: Vec<u8>)
    ensures
        r@ == v@,
{
    let mut out: Vec<u8> = Vec::new();
    let mut i: usize = 0;
    while i < v.len()
        invariant
            i <= v@.len(),
            out@ == v@.take(i as int),
        decreases v@.len() - i,
    {
        out.push(v[i]);
        proof {
            assert(v@.take(i as int).push(v@[i as int]) =~= v@.take(i as int + 1));
        }
        i = i + 1;
    }
    proof {
        assert(v@.take(v@.len() as int) =~= v@);
    }
    out
}

/// A fresh object of the same shape.
pub fn clone_object(o: &PdfObject) -> (r: PdfObject)
    ensures
        obj_v(r) == obj_v(*o),
    decreases *o,
{
    match o {
        PdfObject::Null => PdfObject::Null,
        PdfObject::Boolean(b) => PdfObject::Boolean(*b),
        PdfObject::Integer(i) => PdfObject::Integer(*i),
        PdfObject::Real(x) => PdfObject::Real(*x),
        PdfObject::Name(n) => PdfObject::Name(clone_bytes(n)),
        PdfObject::Str(s, f) => PdfObject::Str(clone_bytes(s), *f),
        PdfObject::Array(v) => {
            let mut out: Vec<PdfObject> = Vec::new();
            let mut i: usize = 0;
            while i < v.len()
                invariant
                    i <= v@.len(),
                    out@.len() == i,
                    forall|j: int| 0 <= j < i ==> obj_v(out@[j]) == obj_v(v@[j]),
                decreases v@.len() - i,
            {
                proof {
                    assert(decreases_to!(*o => v@[i as int]));
                }
                let c = clone_object(&v[i]);
                out.push(c);
                i = i + 1;
            }
            proof {
                lemma_objs_v(out@);
                lemma_objs_v(v@);
                assert(objs_v(out@) =~= objs_v(v@));
            }
            PdfObject::Array(out)
        },
        PdfObject::Dict(d) => {
            proof {
                assert(decreases_to!(*o => d.entries@));
            }
            PdfObject::Dict(clone_dict_entries(&d.entries))
        },
        PdfObject::Stream(st) => {
            proof {
                assert(decreases_to!(*o => st.dict.entries@));
            }
            let dict = clone_dict_entries(&st.dict.entries);
            let ops = match &st.ops {
                None => None,
                Some(v) => {
                    proof {
                        assert(decreases_to!(*o => v@));
                    }
                    Some(clone_op_list(v))
                },
            };
            PdfObject::Stream(PdfStream { dict, ops })
        },
        PdfObject::Ref(id) => PdfObject::Ref(*id),
    }
}

/// A fresh dictionary of the same shape.
pub fn clone_dict_entries(entries: &Vec<(Vec<u8>, PdfObject)>) -> (r: PdfDict)
    ensures
        dict_v(r.entries@) == dict_v(entries@),
    decreases entries@,
{
    let mut out: Vec<(Vec<u8>, PdfObject)> = Vec::new();
    let mut i: usize = 0;
    while i < entries.len()
        invariant
            i <= entries@.len(),
            out@.len() == i,
            forall|j: int|
                0 <= j < i ==> out@[j].0@ == entries@[j].0@ && obj_v(out@[j].1) == obj_v(
                    entries@[j].1,
                ),
        decreases entries@.len() - i,
    {
        proof {
            assert(decreases_to!(entries@ => entries@[i as int]));
        }
        let key = clone_bytes(&entries[i].0);
        let value = clone_object(&entries[i].1);
        out.push((key, value));
        i = i + 1;
    }
    proof {
        lemma_dict_v(out@);
        lemma_dict_v(entries@);
        assert(dict_v(out@) =~= dict_v(entries@));
    }
    PdfDict { entries: out }
}

/// A fresh operation of the same shape.
pub fn clone_op(o: &Op) -> (r: Op)
    ensures
        op_v(r) == op_v(*o),
    decreases *o,
{
    let mut operands: Vec<PdfObject> = Vec::new();
    let mut i: usize = 0;
    while i < o.operands.len()
        invariant
            i <= o.operands@.len(),
            operands@.len() == i,
            forall|j: int| 0 <= j < i ==> obj_v(operands@[j]) == obj_v(o.operands@[j]),
        decreases o.operands@.len() - i,
    {
        proof {
            assert(decreases_to!(*o => o.operands@[i as int]));
        }
        let c = clone_object(&o.operands[i]);
        operands.push(c);
        i = i + 1;
    }
    proof {
        lemma_objs_v(operands@);
        lemma_objs_v(o.operands@);
        assert(objs_v(operands@) =~= objs_v(o.operands@));
    }
    Op { operator: o.operator.clone(), operands }
}

/// A fresh operation list of the same shape.
pub fn clone_op_list(v: &Vec<Op>) -> (r: Vec<Op>)
    ensures
        ops_v(r@) == ops_v(v@),
    decreases v@,
{
    let mut out: Vec<Op> = Vec::new();
    let mut i: usize = 0;
    while i < v.len()
        invariant
            i <= v@.len(),
            out@.len() == i,
            forall|j: int| 0 <= j < i ==> op_v(out@[j]) == op_v(v@[j]),
        decreases v@.len() - i,
    {
        proof {
            assert(decreases_to!(v@ => v@[i as int]));
        }
        let c = clone_op(&v[i]);
        out.push(c);
        i = i + 1;
    }
    proof {
        lemma_ops_v(out@);
        lemma_ops_v(v@);
        assert(ops_v(out@) =~= ops_v(v@));
    }
    out
}

impl PdfObject {
    /// The name's bytes, or `WrongKind`.
    pub fn as_name(&self) -> (r: Result<&Vec<u8>, PdfError>)
        ensures
            match r {
                Ok(n) => obj_v(*self) == ObjV::Name(n@),
                Err(e) => !(obj_v(*self) is Name) && e == PdfError::WrongKind,
            },
    {
        match self {
            PdfObject::Name(n) => Ok(n),
            _ => Err(PdfError::WrongKind),
        }
    }







}

impl Document {
    /// The object stored under `id`, or `None`.
    pub fn get_object(&self, id: ObjectId) -> (r: Option<&PdfObject>)
        ensures
            match r {
                Some(v) => obj_lookup(self.objects@, id) == Some(*v),
                None => obj_lookup(self.objects@, id) is None,
            },
    {
        let n = self.objects.len();
        let mut i: usize = 0;
        proof {
            assert(self.objects@.skip(0) =~= self.objects@);
        }
        while i < n
            invariant
                n == self.objects@.len(),
                i <= n,
                obj_lookup(self.objects@, id) == obj_lookup(self.objects@.skip(i as int), id),
            decreases n - i,
        {
            proof {
                assert(self.objects@.skip(i as int)[0] == self.objects@[i as int]);
            }
            if self.objects[i].0.num == id.num && self.objects[i].0.generation == id.generation {
                return Some(&self.objects[i].1);
            }
            proof {
                assert(self.objects@.skip(i as int).drop_first() =~= self.objects@.skip(
                    i as int + 1,
                ));
            }
            i = i + 1;
        }
        proof {
            assert(self.objects@.skip(n as int) =~= Seq::<(ObjectId, PdfObject)>::empty());
        }
        None
    }

    /// Follows reference chains until a non-reference object is reached.
    ///
    /// `fuel` bounds the chain length, so a cycle of references ends in
    /// `RefChainTooDeep` instead of not ending at all.
    pub fn deref<'a>(&'a self, o: &'a PdfObject, fuel: u32) -> (r: Result<&'a PdfObject, PdfError>)
        ensures
            match r {
                Ok(v) => spec_deref(self.objects@, *o, fuel as nat) == Ok::<PdfObject, PdfError>(
                    *v,
                ),
                Err(e) => spec_deref(self.objects@, *o, fuel as nat) == Err::<PdfObject, PdfError>(
                    e,
                ),
            },
        decreases fuel,
    {
        match o {
            PdfObject::Ref(id) => {
                if fuel == 0 {
                    Err(PdfError::RefChainTooDeep)
                } else {
                    match self.get_object(*id) {
                        None => Err(PdfError::DanglingReference),
                        Some(o2) => self.deref(o2, fuel - 1),
                    }
                }
            },
            _ => Ok(o),
        }
    }

    /// Follows reference chains from a reference and reports the id of the
    /// last reference followed together with the object it stores.
    ///
    /// This is how a `Do` operand is resolved: the scope entry must be a
    /// reference (`WrongKind` otherwise), and the id under which the final
    /// non-reference object is stored identifies the invoked stream.
    pub fn deref_target<'a>(&'a self, o: &'a PdfObject, fuel: u32) -> (r: Result<
        (ObjectId, &'a PdfObject),
        PdfError,
    >)
        ensures
            match r {
                Ok((id, v)) => spec_deref_target(self.objects@, *o, fuel as nat) == Ok::<
                    (ObjectId, PdfObject),
                    PdfError,
                >((id, *v)),
                Err(e) => spec_deref_target(self.objects@, *o, fuel as nat) == Err::<
                    (ObjectId, PdfObject),
                    PdfError,
                >(e),
            },
        decreases fuel,
    {
        match o {
            PdfObject::Ref(id) => {
                match self.get_object(*id) {
                    None => Err(PdfError::DanglingReference),
                    Some(o2) => {
                        match o2 {
                            PdfObject::Ref(_) => {
                                if fuel == 0 {
                                    Err(PdfError::RefChainTooDeep)
                                } else {
                                    self.deref_target(o2, fuel - 1)
                                }
                            },
                            _ => Ok((*id, o2)),
                        }
                    },
                }
            },
            _ => Err(PdfError::WrongKind),
        }
    }

    /// Replaces the operator list of the stream stored under `id`.
    ///
    /// Everything else in the document — the page list, every other object,
    /// and the stream's own dictionary — is left as it was.
    pub fn set_stream_ops(&mut self, id: ObjectId, new_ops: Vec<Op>) -> (r: Result<(), PdfError>)
        ensures
            final(self).pages@ == old(self).pages@,
            match r {
                Ok(()) => {
                    let i = obj_index(old(self).objects@, id);
                    &&& obj_lookup(old(self).objects@, id) matches Some(o) && o is Stream
                    &&& 0 <= i < old(self).objects@.len()
                    &&& old(self).objects@[i].0 == id
                    &&& final(self).objects@.len() == old(self).objects@.len()
                    &&& forall|j: int|
                        0 <= j < old(self).objects@.len() && j != i ==> final(self).objects@[j]
                            == old(self).objects@[j]
                    &&& final(self).objects@[i].0 == id
                    &&& obj_v(final(self).objects@[i].1) == ObjV::Stream(
                        StreamV {
                            dict: obj_v(old(self).objects@[i].1)->Stream_0.dict,
                            ops: Some(ops_v(new_ops@)),
                        },
                    )
                },
                Err(e) => {
                    &&& final(self).objects@ == old(self).objects@
                    &&& (e == PdfError::DanglingReference || e == PdfError::WrongKind)
                    &&& (e == PdfError::DanglingReference <==> obj_lookup(
                        old(self).objects@,
                        id,
                    ) is None)
                    &&& (e == PdfError::WrongKind <==> (obj_lookup(old(self).objects@, id)
                        matches Some(o) && !(o is Stream)))
                },
            },
    {
        let n = self.objects.len();
        let mut i: usize = 0;
        proof {
            assert(self.objects@.skip(0) =~= self.objects@);
        }
        while i < n
            invariant
                n == self.objects@.len(),
                i <= n,
                self.objects@ == old(self).objects@,
                self.pages@ == old(self).pages@,
                obj_lookup(self.objects@, id) == obj_lookup(self.objects@.skip(i as int), id),
                obj_index(self.objects@, id) == i + obj_index(self.objects@.skip(i as int), id),
                forall|j: int| 0 <= j < i ==> self.objects@[j].0 != id,
            decreases n - i,
        {
            proof {
                assert(self.objects@.skip(i as int)[0] == self.objects@[i as int]);
            }
            if self.objects[i].0.num == id.num && self.objects[i].0.generation == id.generation {
                if let PdfObject::Stream(_) = &self.objects[i].1 {
                } else {
                    return Err(PdfError::WrongKind);
                }
                let ghost old_objs = self.objects@;
                let (eid, obj) = self.objects.remove(i);
                match obj {
                    PdfObject::Stream(st) => {
                        let replacement = PdfObject::Stream(
                            PdfStream { dict: st.dict, ops: Some(new_ops) },
                        );
                        proof {
                            assert(obj_v(old_objs[i as int].1)->Stream_0.dict == dict_v(
                                st.dict.entries@,
                            ));
                        }
                        self.objects.insert(i, (eid, replacement));
                        proof {
                            assert forall|j: int|
                                0 <= j < old_objs.len() && j != i implies self.objects@[j]
                                == old_objs[j] by {
                                if j < i {
                                } else {
                                    assert(self.objects@[j] == old_objs.remove(i as int).insert(
                                        i as int,
                                        self.objects@[i as int],
                                    )[j]);
                                }
                            }
                        }
                        return Ok(());
                    },
                    _ => {
                        proof {
                            assert(false);
                        }
                        return Err(PdfError::WrongKind);
                    },
                }
            }
            proof {
                assert(self.objects@.skip(i as int).drop_first() =~= self.objects@.skip(
                    i as int + 1,
                ));
            }
            i = i + 1;
        }
        proof {
            assert(self.objects@.skip(n as int) =~= Seq::<(ObjectId, PdfObject)>::empty());
        }
        Err(PdfError::DanglingReference)
    }
}

/// The index of the first entry of a dictionary shape under a key, or the
/// length if none.
pub open spec fn dkey_index(d: Seq<(Seq<u8>, ObjV)>, k: Seq<u8>) -> int
    decreases d.len(),
{
    if d.len() == 0 {
        0
    } else if d[0].0 == k {
        0
    } else {
        1 + dkey_index(d.drop_first(), k)
    }
}

/// The first-match index and the first-match lookup agree.
pub proof fn lemma_dkey_index(d: Seq<(Seq<u8>, ObjV)>, k: Seq<u8>)
    ensures
        0 <= dkey_index(d, k) <= d.len(),
        dkey_index(d, k) == d.len() <==> vdict_get(d, k) is None,
        dkey_index(d, k) < d.len() ==> d[dkey_index(d, k)].0 == k && vdict_get(d, k) == Some(
            d[dkey_index(d, k)].1,
        ),
        forall|j: int| 0 <= j < dkey_index(d, k) ==> d[j].0 != k,
    decreases d.len(),
{
    if d.len() > 0 && d[0].0 != k {
        lemma_dkey_index(d.drop_first(), k);
        assert forall|j: int| 0 <= j < dkey_index(d, k) implies d[j].0 != k by {
            if j > 0 {
                assert(d.drop_first()[j - 1] == d[j]);
            }
        }
    }
}

/// What writing one key does to a dictionary shape: a fresh key is
/// appended; a present key has its first entry's value replaced in place.
pub open spec fn spec_dict_set(d: Seq<(Seq<u8>, ObjV)>, k: Seq<u8>, v: ObjV) -> Seq<
    (Seq<u8>, ObjV),
> {
    let i = dkey_index(d, k);
    if i == d.len() {
        d.push((k, v))
    } else {
        d.update(i, (k, v))
    }
}

impl PdfDict {
    /// Writes one key, replacing any value it already had.
    pub fn set(&mut self, key: Vec<u8>, value: PdfObject)
        ensures
            dict_v(final(self).entries@) == spec_dict_set(
                dict_v(old(self).entries@),
                key@,
                obj_v(value),
            ),
    {
        let ghost d0 = dict_v(self.entries@);
        let ghost k = key@;
        proof {
            lemma_dict_v(self.entries@);
        }
        let n = self.entries.len();
        let mut i: usize = 0;
        while i < n
            invariant
                n == self.entries@.len(),
                i <= n,
                self.entries@ == old(self).entries@,
                forall|j: int| 0 <= j < i ==> d0[j].0 != k,
            decreases n - i,
        {
            if bytes_eq(self.entries[i].0.as_slice(), key.as_slice()) {
                proof {
                    lemma_dkey_index(d0, k);
                    assert(d0[i as int].0 == k);
                    assert(dkey_index(d0, k) == i);
                }
                let ghost before = self.entries@;
                let _ = self.entries.remove(i);
                self.entries.insert(i, (key, value));
                proof {
                    lemma_dict_v(self.entries@);
                    assert(self.entries@ =~= before.update(i as int, self.entries@[i as int]));
                    assert(dict_v(self.entries@) =~= d0.update(
                        i as int,
                        (k, obj_v(self.entries@[i as int].1)),
                    ));
                }
                return ;
            }
            i = i + 1;
        }
        proof {
            lemma_dkey_index(d0, k);
            assert(dkey_index(d0, k) == n) by {
                if dkey_index(d0, k) < n {
                    assert(d0[dkey_index(d0, k)].0 == k);
                }
            }
        }
        self.entries.push((key, value));
        proof {
            lemma_dict_v(self.entries@);
            assert(dict_v(self.entries@) =~= d0.push((k, obj_v(self.entries@[n as int].1))));
        }
    }
}

/// What resolving a scope entry's reference chain yields, at the shape
/// level: the id under which the final non-reference object is stored,
/// together with that object's shape.
pub open spec fn spec_deref_target_v(
    objs: Seq<(ObjectId, PdfObject)>,
    o: ObjV,
    fuel: nat,
) -> Result<(ObjectId, ObjV), PdfError> {
    match o {
        ObjV::Ref(id) => spec_deref_target_from(objs, id, fuel),
        _ => Err(PdfError::WrongKind),
    }
}

/// The tail of `spec_deref_target_v`, walking ids.
pub open spec fn spec_deref_target_from(
    objs: Seq<(ObjectId, PdfObject)>,
    id: ObjectId,
    fuel: nat,
) -> Result<(ObjectId, ObjV), PdfError>
    decreases fuel,
{
    match obj_lookup(objs, id) {
        None => Err(PdfError::DanglingReference),
        Some(o2) => match o2 {
            PdfObject::Ref(id2) => {
                if fuel == 0 {
                    Err(PdfError::RefChainTooDeep)
                } else {
                    spec_deref_target_from(objs, id2, (fuel - 1) as nat)
                }
            },
            _ => Ok((id, obj_v(o2))),
        },
    }
}

/// Resolving a value's shape resolves the value: the shape-level walk
/// agrees with the object-level walk.
pub proof fn lemma_deref_target_v(objs: Seq<(ObjectId, PdfObject)>, o: PdfObject, fuel: nat)
    ensures
        spec_deref_target_v(objs, obj_v(o), fuel) == (match spec_deref_target(objs, o, fuel) {
            Ok((id, t)) => Ok::<(ObjectId, ObjV), PdfError>((id, obj_v(t))),
            Err(e) => Err::<(ObjectId, ObjV), PdfError>(e),
        }),
    decreases fuel,
{
    match o {
        PdfObject::Ref(id) => {
            match obj_lookup(objs, id) {
                None => {},
                Some(o2) => {
                    if o2 is Ref && fuel > 0 {
                        lemma_deref_target_v(objs, o2, (fuel - 1) as nat);
                    }
                },
            }
        },
        _ => {},
    }
}

/// A resolved target is stored in the document: the id the walk ends at
/// stores the non-reference object the walk found.
pub proof fn lemma_deref_target_lookup(objs: Seq<(ObjectId, PdfObject)>, o: PdfObject, fuel: nat)
    ensures
        spec_deref_target(objs, o, fuel) matches Ok(p) ==> obj_lookup(objs, p.0) == Some(p.1) && !(
        p.1 is Ref),
    decreases fuel,
{
    match o {
        PdfObject::Ref(id) => {
            match obj_lookup(objs, id) {
                None => {},
                Some(o2) => {
                    if o2 is Ref && fuel > 0 {
                        lemma_deref_target_lookup(objs, o2, (fuel - 1) as nat);
                    }
                },
            }
        },
        _ => {},
    }
}

/// What following reference chains from `o` with `fuel` steps yields.
pub open spec fn spec_deref(
    objs: Seq<(ObjectId, PdfObject)>,
    o: PdfObject,
    fuel: nat,
) -> Result<PdfObject, PdfError>
    decreases fuel,
{
    match o {
        PdfObject::Ref(id) => {
            if fuel == 0 {
                Err(PdfError::RefChainTooDeep)
            } else {
                match obj_lookup(objs, id) {
                    None => Err(PdfError::DanglingReference),
                    Some(o2) => spec_deref(objs, o2, (fuel - 1) as nat),
                }
            }
        },
        _ => Ok(o),
    }
}

/// What resolving a reference chain to its final id and object yields.
pub open spec fn spec_deref_target(
    objs: Seq<(ObjectId, PdfObject)>,
    o: PdfObject,
    fuel: nat,
) -> Result<(ObjectId, PdfObject), PdfError>
    decreases fuel,
{
    match o {
        PdfObject::Ref(id) => {
            match obj_lookup(objs, id) {
                None => Err(PdfError::DanglingReference),
                Some(o2) => {
                    if o2 is Ref {
                        if fuel == 0 {
                            Err(PdfError::RefChainTooDeep)
                        } else {
                            spec_deref_target(objs, o2, (fuel - 1) as nat)
                        }
                    } else {
                        Ok((id, o2))
                    }
                },
            }
        },
        _ => Err(PdfError::WrongKind),
    }
}

} // verus!
