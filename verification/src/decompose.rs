//! The decomposer: flattening a nested document into addressable,
//! signable key/value records.
//!
//! Every leaf and every non-root object node of a document becomes a pair
//! of records — one filed under the "key" namespace carrying the full
//! dotted-path text, one under the "value" namespace carrying the payload —
//! both keyed by the digest of the full path and indexed under the digest
//! of the parent path.  The records are returned as a plan; performing the
//! store writes and the signing belongs to the caller.

use vstd::prelude::*;

use crate::node::{Key, Kind, Text, Value, ValueV};
use crate::Error;

verus! {

/// A document to decompose: a tree of nulls, booleans, numbers, texts,
/// arrays and objects.  A floating-point number is carried as its IEEE 754
/// bit pattern; an object is a sequence of entries in source order.
#[derive(Debug)]
pub enum Document {
    Null,
    Bool(bool),
    U64(u64),
    I64(i64),
    F64(u64),
    Text(String),
    Array(Vec<Document>),
    Object(Vec<(String, Document)>),
}

/// A document is well formed when every object entry has a non-empty key
/// segment.  A document whose validator let an empty segment through is a
/// structural violation, not a recoverable input.
pub open spec fn doc_wf(doc: Document) -> bool
    decreases doc,
{
    match doc {
        Document::Object(fields) => forall|i: int|
            0 <= i < fields@.len() ==> (#[trigger] fields@[i]).0@.len() > 0 && doc_wf(
                fields@[i].1,
            ),
        Document::Array(items) => forall|i: int|
            0 <= i < items@.len() ==> doc_wf(#[trigger] items@[i]),
        _ => true,
    }
}

/// Which of the two fixed namespaces a record is filed under.
#[derive(Clone, Copy, Debug, PartialEq, Eq, Structural)]
pub enum Namespace {
    Key,
    Value,
}

impl Namespace {
    /// The fixed discriminator hash of the namespace.
    pub open spec fn spec_hash(self) -> crate::hash::Hash {
        match self {
            Namespace::Key => crate::spec_kind_key(),
            Namespace::Value => crate::spec_kind_value(),
        }
    }

    /// The fixed discriminator hash of the namespace.
    pub fn to_hash(&self) -> (h: crate::hash::Hash)
        ensures
            h == self.spec_hash(),
    {
        match self {
            Namespace::Key => crate::kind_key(),
            Namespace::Value => crate::kind_value(),
        }
    }
}

/// The abstract content of a `Record`.
pub struct RecordV {
    pub namespace: Namespace,
    pub parent_hash: crate::hash::Hash,
    pub key_text: Seq<char>,
    pub key_hash: crate::hash::Hash,
    pub kind: Kind,
    pub relpath: bool,
    pub payload: ValueV,
}

/// One addressable, signable record.
///
/// The caller stores `payload` in the object store, signs the rest under
/// its own account, and appends the signed record to the word store under
/// `parent_hash`.
#[derive(Clone, Debug)]
pub struct Record {
    /// The namespace the record is filed under.
    pub namespace: Namespace,
    /// Digest of the parent path text: the index the record is stored under.
    pub parent_hash: crate::hash::Hash,
    /// The full dotted-path key: its text, its cached digest, and the kind
    /// of the value standing at it.
    pub key: Key,
    /// Whether the stored content path is relative; never set here.
    pub relpath: bool,
    /// What the object store receives for this record: the key text itself
    /// for a key record, the value for a value record.
    pub payload: Value,
}

impl View for Record {
    type V = RecordV;

    open spec fn view(&self) -> RecordV {
        RecordV {
            namespace: self.namespace,
            parent_hash: self.parent_hash,
            key_text: self.key.text@,
            key_hash: self.key.hash,
            kind: self.key.kind,
            relpath: self.relpath,
            payload: self.payload@,
        }
    }
}

/// The abstract contents of a sequence of records.
pub open spec fn recs_view(rs: Seq<Record>) -> Seq<RecordV> {
    rs.map_values(|r: Record| r@)
}

/// The full key text of a child: the parent path, a dot, and the segment —
/// or the segment alone when the parent path is empty (no leading dot).
pub open spec fn spec_full_key(parent: Seq<char>, seg: Seq<char>) -> Seq<char> {
    if parent.len() == 0 {
        seg
    } else {
        parent + seq!['.'] + seg
    }
}

/// The parent path text of an optional parent: the empty path when absent.
pub open spec fn spec_parent_text(parent: Option<Seq<char>>) -> Seq<char> {
    match parent {
        Some(p) => p,
        None => Seq::empty(),
    }
}

/// The pair of records emitted for one node: a key record and a value
/// record, sharing one key digest, both indexed under the digest of the
/// parent path.
pub open spec fn spec_record_pair(
    parent: Seq<char>,
    seg: Seq<char>,
    kind: Kind,
    payload: ValueV,
) -> Seq<RecordV> {
    let full = spec_full_key(parent, seg);
    let key_hash = crate::hash::Hash::spec_of(full);
    let parent_hash = crate::hash::Hash::spec_of(parent);
    seq![
        RecordV {
            namespace: Namespace::Key,
            parent_hash,
            key_text: full,
            key_hash,
            kind,
            relpath: false,
            payload: ValueV::Text(full),
        },
        RecordV {
            namespace: Namespace::Value,
            parent_hash,
            key_text: full,
            key_hash,
            kind,
            relpath: false,
            payload,
        },
    ]
}

/// The records a document decomposes to, or nothing if the document holds
/// an array anywhere.  A primitive yields its record pair; an object yields
/// a structural marker pair first — unless it is the document root — and
/// then the records of every entry, in entry order, under the full key as
/// their parent path.
pub open spec fn spec_plan(
    parent: Option<Seq<char>>,
    seg: Seq<char>,
    doc: Document,
) -> Option<Seq<RecordV>>
    decreases doc,
{
    let p = spec_parent_text(parent);
    match doc {
        Document::Null => Some(spec_record_pair(p, seg, Kind::Null, ValueV::Null)),
        Document::Bool(b) => Some(spec_record_pair(p, seg, Kind::Bool, ValueV::Bool(b))),
        Document::U64(v) => Some(spec_record_pair(p, seg, Kind::U64, ValueV::U64(v))),
        Document::I64(v) => Some(spec_record_pair(p, seg, Kind::I64, ValueV::I64(v))),
        Document::F64(bits) => Some(spec_record_pair(p, seg, Kind::F64, ValueV::F64(bits))),
        Document::Text(s) => Some(spec_record_pair(p, seg, Kind::Text, ValueV::Text(s@))),
        Document::Array(_) => None,
        Document::Object(fields) => {
            let marker = if parent is Some {
                spec_record_pair(p, seg, Kind::Object, ValueV::Object)
            } else {
                Seq::empty()
            };
            match spec_plan_children(spec_full_key(p, seg), fields@) {
                Some(rest) => Some(marker + rest),
                None => None,
            }
        },
    }
}

/// The records of an object's entries, in entry order: nothing if any
/// entry fails.
pub open spec fn spec_plan_children(
    parent: Seq<char>,
    fields: Seq<(String, Document)>,
) -> Option<Seq<RecordV>>
    decreases fields,
{
    if fields.len() == 0 {
        Some(Seq::empty())
    } else {
        match spec_plan(Some(parent), fields[0].0@, fields[0].1) {
            Some(head) => match spec_plan_children(parent, fields.drop_first()) {
                Some(rest) => Some(head + rest),
                None => None,
            },
            None => None,
        }
    }
}


/// The optional parent path of a call, as text.
pub open spec fn opt_text(parent: Option<&str>) -> Option<Seq<char>> {
    match parent {
        Some(p) => Some(p@),
        None => None,
    }
}

/// Join a parent path and a segment into the full key text.
pub fn full_key(parent: &str, seg: &str) -> (k: String)
    ensures
        k@ == spec_full_key(parent@, seg@),
{
    if parent.is_empty() {
        seg.to_owned()
    } else {
        let mut s: String = parent.to_owned();
        s.append(".");
        s.append(seg);
        proof {
            reveal_strlit(".");
            assert("."@ =~= seq!['.']);
        }
        s
    }
}

/// Build the record pair of one node: the key record and the value record.
fn record_pair(parent: &str, seg: &str, kind: Kind, payload: Value) -> (v: Vec<Record>)
    ensures
        recs_view(v@) == spec_record_pair(parent@, seg@, kind, payload@),
{
    let full: String = full_key(parent, seg);
    let key_hash = crate::hash::Hash::with_str(full.as_str());
    let parent_hash = crate::hash::Hash::with_str(parent);
    let key_rec = Record {
        namespace: Namespace::Key,
        parent_hash,
        key: Key { text: Text::with_en_us(full.as_str()), hash: key_hash, kind },
        relpath: false,
        payload: Value::Text(Text::with_en_us(full.as_str())),
    };
    let value_rec = Record {
        namespace: Namespace::Value,
        parent_hash,
        key: Key { text: Text::with_en_us(full.as_str()), hash: key_hash, kind },
        relpath: false,
        payload,
    };
    let mut v: Vec<Record> = Vec::new();
    v.push(key_rec);
    v.push(value_rec);
    proof {
        assert(recs_view(v@) =~~= spec_record_pair(parent@, seg@, kind, payload@));
    }
    v
}

/// Mapping record contents distributes over concatenation.
proof fn lemma_recs_view_add(a: Seq<Record>, b: Seq<Record>)
    ensures
        recs_view(a + b) == recs_view(a) + recs_view(b),
{
    assert(recs_view(a + b) =~= recs_view(a) + recs_view(b));
}

/// Appending one entry to an object appends that entry's records to the
/// object's plan — or fails exactly when either part fails.
proof fn lemma_plan_children_push(
    parent: Seq<char>,
    fields: Seq<(String, Document)>,
    x: (String, Document),
)
    ensures
        spec_plan_children(parent, fields.push(x)) == (match (
            spec_plan_children(parent, fields),
            spec_plan(Some(parent), x.0@, x.1),
        ) {
            (Some(a), Some(b)) => Some(a + b),
            _ => None::<Seq<RecordV>>,
        }),
    decreases fields.len(),
{
    let fp = fields.push(x);
    if fields.len() == 0 {
        assert(fp[0] == x);
        assert(fp.drop_first() =~= Seq::<(String, Document)>::empty());
        assert(spec_plan_children(parent, fp.drop_first()) == Some(Seq::<RecordV>::empty()));
        assert(spec_plan_children(parent, fields) == Some(Seq::<RecordV>::empty()));
        match spec_plan(Some(parent), x.0@, x.1) {
            Some(h) => {
                assert(spec_plan(Some(parent), fp[0].0@, fp[0].1) == Some(h));
                assert(spec_plan_children(parent, fp) == Some(h + Seq::<RecordV>::empty()));
                assert(h + Seq::<RecordV>::empty() =~= h);
                assert(Seq::<RecordV>::empty() + h =~= h);
            },
            None => {
                assert(spec_plan(Some(parent), fp[0].0@, fp[0].1) is None);
                assert(spec_plan_children(parent, fp) is None);
            },
        }
    } else {
        assert(fp[0] == fields[0]);
        assert(fp.drop_first() =~= fields.drop_first().push(x));
        lemma_plan_children_push(parent, fields.drop_first(), x);
        match spec_plan(Some(parent), fields[0].0@, fields[0].1) {
            Some(h) => {
                assert(spec_plan(Some(parent), fp[0].0@, fp[0].1) == Some(h));
                match (
                    spec_plan_children(parent, fields.drop_first()),
                    spec_plan(Some(parent), x.0@, x.1),
                ) {
                    (Some(a), Some(b)) => {
                        assert(spec_plan_children(parent, fp.drop_first()) == Some(a + b));
                        assert(spec_plan_children(parent, fp) == Some(h + (a + b)));
                        assert(spec_plan_children(parent, fields) == Some(h + a));
                        assert(h + (a + b) =~= (h + a) + b);
                    },
                    _ => {
                        assert(spec_plan_children(parent, fp.drop_first()) is None);
                        assert(spec_plan_children(parent, fp) is None);
                    },
                }
            },
            None => {
                assert(spec_plan(Some(parent), fp[0].0@, fp[0].1) is None);
                assert(spec_plan_children(parent, fp) is None);
                assert(spec_plan_children(parent, fields) is None);
            },
        }
    }
}

/// If one entry of an object fails, the object's whole plan fails.
proof fn lemma_plan_children_none(parent: Seq<char>, fields: Seq<(String, Document)>, i: int)
    requires
        0 <= i < fields.len(),
        spec_plan_children(parent, fields.take(i)) is Some,
        spec_plan(Some(parent), fields[i].0@, fields[i].1) is None,
    ensures
        spec_plan_children(parent, fields) is None,
    decreases i,
{
    if i == 0 {
        assert(spec_plan_children(parent, fields) is None);
    } else {
        let t = fields.take(i);
        assert(t[0] == fields[0]);
        assert(t.drop_first() =~= fields.drop_first().take(i - 1));
        assert(fields.drop_first()[i - 1] == fields[i]);
        lemma_plan_children_none(parent, fields.drop_first(), i - 1);
    }
}

/// Decompose one document value, standing at `key` under the optional
/// `parent` path, into its flat plan of addressable records.
///
/// Succeeds — with the exact record sequence given by `spec_plan` — if and
/// only if the document holds no array anywhere; an array anywhere fails
/// the whole decomposition with an explicit unsupported error, and a
/// failing entry fails its whole enclosing object (no partial plan is ever
/// returned as success).
pub fn decompose(parent: Option<&str>, key: &str, value: &Document) -> (r: Result<
    Vec<Record>,
    Error,
>)
    requires
        key@.len() > 0,
        doc_wf(*value),
    ensures
        match r {
            Ok(recs) => spec_plan(opt_text(parent), key@, *value) == Some(recs_view(recs@)),
            Err(e) => spec_plan(opt_text(parent), key@, *value) is None && e is Unsupported,
        },
    decreases *value,
{
    let p_str: &str = match parent {
        Some(p) => p,
        None => "",
    };
    proof {
        reveal_strlit("");
        assert(""@ =~= Seq::<char>::empty());
        assert(p_str@ == spec_parent_text(opt_text(parent)));
    }
    match value {
        Document::Null => Ok(record_pair(p_str, key, Kind::Null, Value::Null)),
        Document::Bool(b) => Ok(record_pair(p_str, key, Kind::Bool, Value::Bool(*b))),
        Document::U64(v) => Ok(record_pair(p_str, key, Kind::U64, Value::U64(*v))),
        Document::I64(v) => Ok(record_pair(p_str, key, Kind::I64, Value::I64(*v))),
        Document::F64(bits) => Ok(record_pair(p_str, key, Kind::F64, Value::F64(*bits))),
        Document::Text(s) => Ok(
            record_pair(p_str, key, Kind::Text, Value::Text(Text::with_en_us(s.as_str()))),
        ),
        Document::Array(_) => Err(Error::Unsupported),
        Document::Object(fields) => {
            let mut out: Vec<Record> = Vec::new();
            if parent.is_some() {
                let mut pair = record_pair(p_str, key, Kind::Object, Value::Object);
                proof {
                    assert(out@ + pair@ =~= pair@);
                }
                out.append(&mut pair);
            }
            let ghost marker_v: Seq<RecordV> = recs_view(out@);
            proof {
                if parent is Some {
                    assert(marker_v == spec_record_pair(
                        spec_parent_text(opt_text(parent)),
                        key@,
                        Kind::Object,
                        ValueV::Object,
                    ));
                } else {
                    assert(out@ =~= Seq::<Record>::empty());
                    assert(marker_v =~= Seq::<RecordV>::empty());
                }
            }
            let full: String = full_key(p_str, key);
            let mut i: usize = 0;
            proof {
                assert(fields@.take(0) =~= Seq::<(String, Document)>::empty());
                assert(marker_v + Seq::<RecordV>::empty() =~= marker_v);
            }
            while i < fields.len()
                invariant
                    i <= fields@.len(),
                    key@.len() > 0,
                    doc_wf(*value),
                    *value == Document::Object(*fields),
                    full@ == spec_full_key(spec_parent_text(opt_text(parent)), key@),
                    spec_plan_children(full@, fields@.take(i as int)) matches Some(ch)
                        && recs_view(out@) == marker_v + ch,
                decreases fields@.len() - i,
            {
                let seg: &str = fields[i].0.as_str();
                let child: &Document = &fields[i].1;
                proof {
                    assert(fields@[i as int].0@.len() > 0 && doc_wf(fields@[i as int].1));
                    assert(decreases_to!(*value => *fields));
                    assert(decreases_to!(*fields => fields@));
                    assert(decreases_to!(fields@ => fields@[i as int]));
                    assert(decreases_to!(fields@[i as int] => fields@[i as int].1));
                }
                match decompose(Some(full.as_str()), seg, child) {
                    Ok(mut v) => {
                        proof {
                            lemma_plan_children_push(
                                full@,
                                fields@.take(i as int),
                                fields@[i as int],
                            );
                            assert(fields@.take(i + 1) =~= fields@.take(i as int).push(
                                fields@[i as int],
                            ));
                            lemma_recs_view_add(out@, v@);
                        }
                        out.append(&mut v);
                        proof {
                            let ch = spec_plan_children(
                                full@,
                                fields@.take(i as int),
                            )->Some_0;
                            let b = spec_plan(Some(full@), fields@[i as int].0@, fields@[i as int].1)->Some_0;
                            assert((marker_v + ch) + b =~= marker_v + (ch + b));
                        }
                    },
                    Err(e) => {
                        proof {
                            lemma_plan_children_none(full@, fields@, i as int);
                        }
                        return Err(e);
                    },
                }
                i = i + 1;
            }
            proof {
                assert(fields@.take(fields@.len() as int) =~= fields@);
            }
            Ok(out)
        },
    }
}


/// Whether a document is a primitive: anything but an array or an object.
pub open spec fn is_primitive(doc: Document) -> bool {
    match doc {
        Document::Null => true,
        Document::Bool(_) => true,
        Document::U64(_) => true,
        Document::I64(_) => true,
        Document::F64(_) => true,
        Document::Text(_) => true,
        Document::Array(_) => false,
        Document::Object(_) => false,
    }
}

/// Law: a primitive document decomposes to exactly two records — one key
/// record, one value record — sharing one key digest over the full key
/// text, both indexed under the digest of the parent path.
pub proof fn lemma_primitive_two_records(parent: Option<Seq<char>>, seg: Seq<char>, doc: Document)
    requires
        is_primitive(doc),
    ensures
        spec_plan(parent, seg, doc) matches Some(recs) && {
            let p = spec_parent_text(parent);
            let full = spec_full_key(p, seg);
            &&& recs.len() == 2
            &&& recs[0].namespace == Namespace::Key
            &&& recs[1].namespace == Namespace::Value
            &&& recs[0].key_text == full
            &&& recs[1].key_text == full
            &&& recs[0].key_hash == crate::hash::Hash::spec_of(full)
            &&& recs[1].key_hash == recs[0].key_hash
            &&& recs[0].parent_hash == crate::hash::Hash::spec_of(p)
            &&& recs[1].parent_hash == recs[0].parent_hash
            &&& recs[0].kind == recs[1].kind
            &&& !recs[0].relpath && !recs[1].relpath
        },
{
}

/// Law: the full key text of a child is the parent path, a dot, and the
/// segment — except under the empty parent path, where it is the segment
/// alone, with no leading dot.
pub proof fn lemma_full_key_text(p: Seq<char>, seg: Seq<char>)
    ensures
        p.len() > 0 ==> spec_full_key(p, seg) == p + seq!['.'] + seg,
        p.len() == 0 ==> spec_full_key(p, seg) == seg,
{
}


/// Whether a record is a structural object marker's value record.
pub open spec fn is_marker(r: RecordV) -> bool {
    r.namespace == Namespace::Value && r.kind == Kind::Object
}

/// How many structural object marker records a plan holds.
pub open spec fn spec_marker_count(recs: Seq<RecordV>) -> int {
    recs.filter(|r: RecordV| is_marker(r)).len() as int
}

/// How many object nodes a document holds, itself included.
pub open spec fn spec_object_nodes(doc: Document) -> int
    decreases doc,
{
    match doc {
        Document::Object(fields) => 1 + spec_object_nodes_children(fields@),
        _ => 0,
    }
}

/// How many object nodes an object's entries hold, all together.
pub open spec fn spec_object_nodes_children(fields: Seq<(String, Document)>) -> int
    decreases fields,
{
    if fields.len() == 0 {
        0
    } else {
        spec_object_nodes(fields[0].1) + spec_object_nodes_children(fields.drop_first())
    }
}

/// A record pair holds one marker record when its kind is `Object` — the
/// value record — and none otherwise.
proof fn lemma_marker_count_pair(parent: Seq<char>, seg: Seq<char>, kind: Kind, payload: ValueV)
    ensures
        spec_marker_count(spec_record_pair(parent, seg, kind, payload)) == (if kind == Kind::Object {
            1int
        } else {
            0int
        }),
{
    let pair = spec_record_pair(parent, seg, kind, payload);
    let pred = |r: RecordV| is_marker(r);
    assert(pair.drop_last() =~= seq![pair[0]]);
    assert(seq![pair[0]].drop_last() =~= Seq::<RecordV>::empty());
    reveal_with_fuel(Seq::filter, 3);
    assert(Seq::<RecordV>::empty().filter(pred) =~= Seq::<RecordV>::empty());
    assert(seq![pair[0]].filter(pred) =~= Seq::<RecordV>::empty());
}

/// Law (for an object's entries): the markers of the entries' records
/// count exactly the object nodes among the entries' subtrees.
proof fn lemma_marker_count_children(p: Seq<char>, fields: Seq<(String, Document)>)
    requires
        spec_plan_children(p, fields) is Some,
    ensures
        spec_marker_count(spec_plan_children(p, fields)->Some_0) == spec_object_nodes_children(
            fields,
        ),
    decreases fields,
{
    let pred = |r: RecordV| is_marker(r);
    if fields.len() == 0 {
        reveal_with_fuel(Seq::filter, 2);
        assert(Seq::<RecordV>::empty().filter(pred) =~= Seq::<RecordV>::empty());
    } else {
        let head = spec_plan(Some(p), fields[0].0@, fields[0].1)->Some_0;
        let rest = spec_plan_children(p, fields.drop_first())->Some_0;
        lemma_marker_count(Some(p), fields[0].0@, fields[0].1);
        lemma_marker_count_children(p, fields.drop_first());
        Seq::<RecordV>::filter_distributes_over_add(head, rest, pred);
    }
}

/// Law: the count of structural object marker records in a plan equals the
/// count of non-root object nodes in the document — every non-root object
/// node is announced by exactly one marker, and nothing else is.
pub proof fn lemma_marker_count(parent: Option<Seq<char>>, seg: Seq<char>, doc: Document)
    requires
        spec_plan(parent, seg, doc) is Some,
    ensures
        spec_marker_count(spec_plan(parent, seg, doc)->Some_0) == spec_object_nodes(doc) - (
        if parent is None && doc is Object {
            1int
        } else {
            0int
        }),
    decreases doc,
{
    let p = spec_parent_text(parent);
    let pred = |r: RecordV| is_marker(r);
    match doc {
        Document::Null => lemma_marker_count_pair(p, seg, Kind::Null, ValueV::Null),
        Document::Bool(b) => lemma_marker_count_pair(p, seg, Kind::Bool, ValueV::Bool(b)),
        Document::U64(v) => lemma_marker_count_pair(p, seg, Kind::U64, ValueV::U64(v)),
        Document::I64(v) => lemma_marker_count_pair(p, seg, Kind::I64, ValueV::I64(v)),
        Document::F64(bits) => lemma_marker_count_pair(p, seg, Kind::F64, ValueV::F64(bits)),
        Document::Text(s) => lemma_marker_count_pair(p, seg, Kind::Text, ValueV::Text(s@)),
        Document::Array(_) => {
        },
        Document::Object(fields) => {
            let marker = if parent is Some {
                spec_record_pair(p, seg, Kind::Object, ValueV::Object)
            } else {
                Seq::<RecordV>::empty()
            };
            let rest = spec_plan_children(spec_full_key(p, seg), fields@)->Some_0;
            lemma_marker_count_children(spec_full_key(p, seg), fields@);
            Seq::<RecordV>::filter_distributes_over_add(marker, rest, pred);
            if parent is Some {
                lemma_marker_count_pair(p, seg, Kind::Object, ValueV::Object);
            } else {
                reveal_with_fuel(Seq::filter, 2);
                assert(Seq::<RecordV>::empty().filter(pred) =~= Seq::<RecordV>::empty());
            }
        },
    }
}


/// Whether a text holds no dot at all.
pub open spec fn no_dot(s: Seq<char>) -> bool {
    forall|i: int| 0 <= i < s.len() ==> s[i] != '.'
}

/// The parent path read back from a full key text alone: everything before
/// its last dot, or the empty path when it has none.
pub open spec fn parent_path_of(t: Seq<char>) -> Seq<char>
    decreases t.len(),
{
    if t.len() == 0 {
        Seq::empty()
    } else if t.last() == '.' {
        t.drop_last()
    } else {
        parent_path_of(t.drop_last())
    }
}

/// A dot-free text reads back the empty parent path.
proof fn lemma_parent_of_plain(seg: Seq<char>)
    requires
        no_dot(seg),
    ensures
        parent_path_of(seg) == Seq::<char>::empty(),
    decreases seg.len(),
{
    if seg.len() > 0 {
        assert(seg.last() != '.');
        lemma_parent_of_plain(seg.drop_last());
    }
}

/// Joining a dot-free segment under a path and reading the parent back
/// yields that path again.
proof fn lemma_parent_of_join(p: Seq<char>, seg: Seq<char>)
    requires
        no_dot(seg),
    ensures
        parent_path_of(p + seq!['.'] + seg) == p,
    decreases seg.len(),
{
    let t = p + seq!['.'] + seg;
    if seg.len() == 0 {
        assert(t.last() == '.');
        assert(t.drop_last() =~= p);
    } else {
        assert(t.last() == seg.last());
        assert(seg.last() != '.');
        assert(t.drop_last() =~= p + seq!['.'] + seg.drop_last());
        lemma_parent_of_join(p, seg.drop_last());
    }
}

/// The parent path of a well-formed full key is exactly the path the key
/// was joined from.
pub proof fn lemma_parent_of_full_key(p: Seq<char>, seg: Seq<char>)
    requires
        no_dot(seg),
    ensures
        parent_path_of(spec_full_key(p, seg)) == p,
{
    if p.len() == 0 {
        lemma_parent_of_plain(seg);
        assert(p =~= Seq::<char>::empty());
    } else {
        lemma_parent_of_join(p, seg);
    }
}

/// A non-empty text's parent path is strictly shorter than the text, so
/// following parent paths cannot cycle.
pub proof fn lemma_parent_shorter(t: Seq<char>)
    requires
        t.len() > 0,
    ensures
        parent_path_of(t).len() < t.len(),
    decreases t.len(),
{
    if t.last() != '.' {
        if t.len() == 1 {
            assert(t.drop_last() =~= Seq::<char>::empty());
            assert(parent_path_of(t.drop_last()) =~= Seq::<char>::empty());
        } else {
            lemma_parent_shorter(t.drop_last());
        }
    }
}

/// Whether a text lies in the subtree rooted at a full key: it is the key
/// itself, it extends the key past a dot, or the key is the empty root
/// path, under which every non-empty text lies.
pub open spec fn in_subtree(root: Seq<char>, t: Seq<char>) -> bool {
    ||| t == root
    ||| (root.len() == 0 && t.len() > 0)
    ||| (t.len() > root.len() && t.take(root.len() as int) == root && t[root.len() as int] == '.')
}

/// A text inside the subtree of a child key lies inside the parent's
/// subtree as well.
proof fn lemma_subtree_lift(p: Seq<char>, k: Seq<char>, t: Seq<char>)
    requires
        k.len() > 0,
        in_subtree(spec_full_key(p, k), t),
    ensures
        in_subtree(p, t),
{
    let full = spec_full_key(p, k);
    if p.len() == 0 {
        assert(t.len() >= full.len());
    } else {
        assert(full.take(p.len() as int) =~= p);
        assert(full[p.len() as int] == '.');
        if t == full {
        } else {
            assert(t.take(full.len() as int) == full);
            assert(t.take(p.len() as int) =~= t.take(full.len() as int).take(p.len() as int));
            assert(t[p.len() as int] == t.take(full.len() as int)[p.len() as int]);
        }
    }
}

/// Requirements on a document for path recovery: every object key segment
/// is non-empty and dot-free, so a full key text splits back unambiguously.
pub open spec fn doc_keys_plain(doc: Document) -> bool
    decreases doc,
{
    match doc {
        Document::Object(fields) => forall|i: int|
            0 <= i < fields@.len() ==> (#[trigger] fields@[i]).0@.len() > 0 && no_dot(
                fields@[i].0@,
            ) && doc_keys_plain(fields@[i].1),
        Document::Array(items) => forall|i: int|
            0 <= i < items@.len() ==> doc_keys_plain(#[trigger] items@[i]),
        _ => true,
    }
}

/// What tree recovery needs of one record, given the full key of the node
/// whose decomposition produced it.
pub open spec fn recoverable(r: RecordV, full: Seq<char>) -> bool {
    &&& r.key_hash == crate::hash::Hash::spec_of(r.key_text)
    &&& r.parent_hash == crate::hash::Hash::spec_of(parent_path_of(r.key_text))
    &&& parent_path_of(r.key_text).len() < r.key_text.len()
    &&& in_subtree(full, r.key_text)
}

/// Law (for an object's entries): every record of the entries' plans is
/// recoverable and lies inside the object's own subtree.
proof fn lemma_plan_children_recoverable(p: Seq<char>, fields: Seq<(String, Document)>)
    requires
        forall|i: int|
            0 <= i < fields.len() ==> (#[trigger] fields[i]).0@.len() > 0 && no_dot(fields[i].0@)
                && doc_keys_plain(fields[i].1),
        spec_plan_children(p, fields) is Some,
    ensures
        ({
            let recs = spec_plan_children(p, fields)->Some_0;
            forall|i: int| 0 <= i < recs.len() ==> recoverable(#[trigger] recs[i], p)
        }),
    decreases fields,
{
    if fields.len() > 0 {
        let head = spec_plan(Some(p), fields[0].0@, fields[0].1)->Some_0;
        let rest = spec_plan_children(p, fields.drop_first())->Some_0;
        let recs = spec_plan_children(p, fields)->Some_0;
        lemma_plan_recoverable(Some(p), fields[0].0@, fields[0].1);
        lemma_plan_children_recoverable(p, fields.drop_first());
        let childfull = spec_full_key(p, fields[0].0@);
        assert forall|i: int| 0 <= i < recs.len() implies recoverable(recs[i], p) by {
            if i < head.len() {
                assert(recs[i] == head[i]);
                assert(recoverable(head[i], childfull));
                lemma_subtree_lift(p, fields[0].0@, head[i].key_text);
            } else {
                assert(recs[i] == rest[i - head.len()]);
            }
        }
    }
}

/// Law (tree recovery without parent pointers): in any plan over a
/// dot-free segment and a document with plain keys, every record's key
/// hash is the digest of its key text, its parent hash is the digest of
/// the parent path read back from that text alone, that parent path is
/// strictly shorter than the text — so parent links cannot cycle — and
/// the text lies in the subtree of the node's full key.  An unordered bag
/// of such records therefore determines the tree's shape by key text
/// alone.
pub proof fn lemma_plan_recoverable(parent: Option<Seq<char>>, seg: Seq<char>, doc: Document)
    requires
        seg.len() > 0,
        no_dot(seg),
        doc_keys_plain(doc),
        spec_plan(parent, seg, doc) is Some,
    ensures
        ({
            let recs = spec_plan(parent, seg, doc)->Some_0;
            let full = spec_full_key(spec_parent_text(parent), seg);
            forall|i: int| 0 <= i < recs.len() ==> recoverable(#[trigger] recs[i], full)
        }),
    decreases doc,
{
    let p = spec_parent_text(parent);
    let full = spec_full_key(p, seg);
    lemma_parent_of_full_key(p, seg);
    if full.len() > 0 {
        lemma_parent_shorter(full);
    }
    match doc {
        Document::Object(fields) => {
            let marker = if parent is Some {
                spec_record_pair(p, seg, Kind::Object, ValueV::Object)
            } else {
                Seq::<RecordV>::empty()
            };
            let rest = spec_plan_children(full, fields@)->Some_0;
            let recs = spec_plan(parent, seg, doc)->Some_0;
            lemma_plan_children_recoverable(full, fields@);
            assert forall|i: int| 0 <= i < recs.len() implies recoverable(recs[i], full) by {
                if i < marker.len() {
                    assert(recs[i] == marker[i]);
                } else {
                    assert(recs[i] == rest[i - marker.len()]);
                    assert(recoverable(rest[i - marker.len()], full));
                }
            }
        },
        _ => {
        },
    }
}


/// Whether some record of a plan carries the given key text.
pub open spec fn has_text(recs: Seq<RecordV>, t: Seq<char>) -> bool {
    exists|i: int| 0 <= i < recs.len() && (#[trigger] recs[i]).key_text == t
}

/// A text that extends a path past a dot reads back a parent path at
/// least as long as that path.
proof fn lemma_parent_of_join_len(q: Seq<char>, rest: Seq<char>)
    ensures
        parent_path_of(q + seq!['.'] + rest).len() >= q.len(),
    decreases rest.len(),
{
    let t = q + seq!['.'] + rest;
    if rest.len() == 0 {
        assert(t.last() == '.');
        assert(t.drop_last() =~= q);
    } else if rest.last() == '.' {
    } else {
        assert(t.last() == rest.last());
        assert(t.drop_last() =~= q + seq!['.'] + rest.drop_last());
        lemma_parent_of_join_len(q, rest.drop_last());
    }
}

/// A text strictly inside a non-empty key's subtree reads back a parent
/// path at least as long as that key.
proof fn lemma_in_subtree_parent_len(q: Seq<char>, t: Seq<char>)
    requires
        q.len() > 0,
        t != q,
        in_subtree(q, t),
    ensures
        parent_path_of(t).len() >= q.len(),
{
    assert(t =~= q + seq!['.'] + t.skip(q.len() + 1 as int));
    lemma_parent_of_join_len(q, t.skip(q.len() + 1 as int));
}

/// The first record of any plan carries the node's own full key text.
proof fn lemma_plan_head_text(parent: Option<Seq<char>>, seg: Seq<char>, doc: Document)
    requires
        parent is Some,
        spec_plan(parent, seg, doc) is Some,
    ensures
        spec_plan(parent, seg, doc)->Some_0.len() > 0,
        spec_plan(parent, seg, doc)->Some_0[0].key_text == spec_full_key(
            spec_parent_text(parent),
            seg,
        ),
{
}

/// A text stands in an object's entry records exactly when it stands in
/// the records of one of the entries.
proof fn lemma_plan_children_texts(p: Seq<char>, fields: Seq<(String, Document)>, t: Seq<char>)
    requires
        spec_plan_children(p, fields) is Some,
    ensures
        has_text(spec_plan_children(p, fields)->Some_0, t) <==> exists|i: int|
            0 <= i < fields.len() && has_text(
                #[trigger] spec_plan(Some(p), fields[i].0@, fields[i].1)->Some_0,
                t,
            ),
    decreases fields,
{
    if fields.len() == 0 {
    } else {
        let head = spec_plan(Some(p), fields[0].0@, fields[0].1)->Some_0;
        let rest = spec_plan_children(p, fields.drop_first())->Some_0;
        let recs = spec_plan_children(p, fields)->Some_0;
        lemma_plan_children_texts(p, fields.drop_first(), t);
        if has_text(recs, t) {
            let j = choose|j: int| 0 <= j < recs.len() && recs[j].key_text == t;
            if j < head.len() {
                assert(recs[j] == head[j]);
                assert(has_text(head, t));
            } else {
                assert(recs[j] == rest[j - head.len()]);
                assert(has_text(rest, t));
                let i = choose|i: int|
                    0 <= i < fields.drop_first().len() && has_text(
                        spec_plan(
                            Some(p),
                            fields.drop_first()[i].0@,
                            fields.drop_first()[i].1,
                        )->Some_0,
                        t,
                    );
                assert(fields.drop_first()[i] == fields[i + 1]);
                assert(has_text(spec_plan(Some(p), fields[i + 1].0@, fields[i + 1].1)->Some_0, t));
            }
        }
        if exists|i: int|
            0 <= i < fields.len() && has_text(
                #[trigger] spec_plan(Some(p), fields[i].0@, fields[i].1)->Some_0,
                t,
            ) {
            let i = choose|i: int|
                0 <= i < fields.len() && has_text(
                    #[trigger] spec_plan(Some(p), fields[i].0@, fields[i].1)->Some_0,
                    t,
                );
            if i == 0 {
                let j = choose|j: int| 0 <= j < head.len() && head[j].key_text == t;
                assert(recs[j] == head[j]);
                assert(has_text(recs, t));
            } else {
                assert(fields.drop_first()[i - 1] == fields[i]);
                assert(has_text(rest, t));
                let j = choose|j: int| 0 <= j < rest.len() && rest[j].key_text == t;
                assert(recs[head.len() + j] == rest[j]);
                assert(has_text(recs, t));
            }
        }
    }
}

/// When an object's entries all decomposed, each entry decomposed.
proof fn lemma_plan_children_all_some(p: Seq<char>, fields: Seq<(String, Document)>)
    requires
        spec_plan_children(p, fields) is Some,
    ensures
        forall|i: int|
            0 <= i < fields.len() ==> spec_plan(
                Some(p),
                (#[trigger] fields[i]).0@,
                fields[i].1,
            ) is Some,
    decreases fields,
{
    if fields.len() > 0 {
        lemma_plan_children_all_some(p, fields.drop_first());
        assert forall|i: int|
            0 <= i < fields.len() implies spec_plan(
            Some(p),
            (#[trigger] fields[i]).0@,
            fields[i].1,
        ) is Some by {
            if i > 0 {
                assert(fields.drop_first()[i - 1] == fields[i]);
            }
        }
    }
}

/// Law (one level of reconstruction): among the records of a decomposed
/// object, the texts whose read-back parent path is the object's full key
/// are exactly the full keys of the object's own entries — so grouping an
/// unordered bag of records by parent path recovers exactly the direct
/// children of every object node.
pub proof fn lemma_plan_direct_children(
    parent: Option<Seq<char>>,
    seg: Seq<char>,
    fields: Vec<(String, Document)>,
    t: Seq<char>,
)
    requires
        seg.len() > 0,
        no_dot(seg),
        doc_keys_plain(Document::Object(fields)),
        spec_plan(parent, seg, Document::Object(fields)) is Some,
    ensures
        ({
            let recs = spec_plan(parent, seg, Document::Object(fields))->Some_0;
            let full = spec_full_key(spec_parent_text(parent), seg);
            (has_text(recs, t) && parent_path_of(t) == full) <==> exists|i: int|
                0 <= i < fields@.len() && t == spec_full_key(full, (#[trigger] fields@[i]).0@)
        }),
{
    let doc = Document::Object(fields);
    let p = spec_parent_text(parent);
    let full = spec_full_key(p, seg);
    let recs = spec_plan(parent, seg, doc)->Some_0;
    let marker = if parent is Some {
        spec_record_pair(p, seg, Kind::Object, ValueV::Object)
    } else {
        Seq::<RecordV>::empty()
    };
    let rest = spec_plan_children(full, fields@)->Some_0;
    lemma_parent_of_full_key(p, seg);
    lemma_plan_children_texts(full, fields@, t);
    lemma_plan_children_all_some(full, fields@);
    if has_text(recs, t) && parent_path_of(t) == full {
        let j = choose|j: int| 0 <= j < recs.len() && recs[j].key_text == t;
        if j < marker.len() {
            // The marker's text is the full key itself, whose parent path is
            // strictly shorter than the full key.
            assert(recs[j] == marker[j]);
            assert(t == full);
            lemma_parent_shorter(full);
            assert(false);
        } else {
            assert(recs[j] == rest[j - marker.len()]);
            assert(has_text(rest, t));
            let i = choose|i: int|
                0 <= i < fields@.len() && has_text(
                    #[trigger] spec_plan(Some(full), fields@[i].0@, fields@[i].1)->Some_0,
                    t,
                );
            let childfull = spec_full_key(full, fields@[i].0@);
            lemma_plan_recoverable(Some(full), fields@[i].0@, fields@[i].1);
            let crecs = spec_plan(Some(full), fields@[i].0@, fields@[i].1)->Some_0;
            let jj = choose|jj: int| 0 <= jj < crecs.len() && crecs[jj].key_text == t;
            assert(recoverable(crecs[jj], childfull));
            if t != childfull {
                lemma_in_subtree_parent_len(childfull, t);
                lemma_parent_of_full_key(full, fields@[i].0@);
                assert(false);
            }
        }
    }
    if exists|i: int| 0 <= i < fields@.len() && t == spec_full_key(full, (#[trigger] fields@[i]).0@) {
        let i = choose|i: int|
            0 <= i < fields@.len() && t == spec_full_key(full, (#[trigger] fields@[i]).0@);
        lemma_plan_head_text(Some(full), fields@[i].0@, fields@[i].1);
        let crecs = spec_plan(Some(full), fields@[i].0@, fields@[i].1)->Some_0;
        assert(crecs[0].key_text == t);
        assert(has_text(crecs, t));
        assert(has_text(rest, t));
        let j = choose|j: int| 0 <= j < rest.len() && rest[j].key_text == t;
        assert(recs[marker.len() + j] == rest[j]);
        assert(has_text(recs, t));
        lemma_parent_of_full_key(full, fields@[i].0@);
    }
}


/// Sibling object keys are pairwise distinct, everywhere in a document.
pub open spec fn doc_keys_unique(doc: Document) -> bool
    decreases doc,
{
    match doc {
        Document::Object(fields) => {
            &&& forall|i: int, j: int|
                0 <= i < j < fields@.len() ==> (#[trigger] fields@[i]).0@ != (
                #[trigger] fields@[j]).0@
            &&& forall|i: int| 0 <= i < fields@.len() ==> doc_keys_unique((#[trigger] fields@[i]).1)
        },
        Document::Array(items) => forall|i: int|
            0 <= i < items@.len() ==> doc_keys_unique(#[trigger] items@[i]),
        _ => true,
    }
}

/// Distinct dot-free sibling segments root disjoint subtrees: no text lies
/// under both.
proof fn lemma_subtrees_disjoint(full: Seq<char>, s1: Seq<char>, s2: Seq<char>, t: Seq<char>)
    requires
        s1.len() > 0,
        no_dot(s1),
        s2.len() > 0,
        no_dot(s2),
        s1 != s2,
        in_subtree(spec_full_key(full, s1), t),
    ensures
        !in_subtree(spec_full_key(full, s2), t),
{
    let f1 = spec_full_key(full, s1);
    let f2 = spec_full_key(full, s2);
    if !in_subtree(f2, t) {
        return ;
    }
    let off: int = if full.len() == 0 {
        0
    } else {
        full.len() + 1 as int
    };
    assert(f1.len() == off + s1.len());
    assert(f2.len() == off + s2.len());
    assert(t.take(f1.len() as int) == f1);
    assert(t.take(f2.len() as int) == f2);
    assert(forall|m: int| 0 <= m < s1.len() ==> f1[off + m] == s1[m]);
    assert(forall|m: int| 0 <= m < s2.len() ==> f2[off + m] == s2[m]);
    if f1.len() == f2.len() {
        assert(f1 == f2);
        assert(s1 =~= s2);
    } else if f1.len() < f2.len() {
        assert(t.len() >= f2.len());
        assert(t.len() > f1.len());
        assert(t[f1.len() as int] == '.');
        assert(t[f1.len() as int] == f2[f1.len() as int]);
        assert(f2[off + s1.len()] == s2[s1.len() as int]);
    } else {
        assert(t.len() >= f1.len());
        assert(t.len() > f2.len());
        assert(t[f2.len() as int] == '.');
        assert(t[f2.len() as int] == f1[f2.len() as int]);
        assert(f1[off + s2.len()] == s1[s2.len() as int]);
    }
}

/// Law (for an object's entries): within the entries' records, two records
/// of one namespace never share a key text, and every record's text lies in
/// the subtree of the entry it came from.
proof fn lemma_plan_children_texts_unique(p: Seq<char>, fields: Seq<(String, Document)>)
    requires
        forall|i: int|
            0 <= i < fields.len() ==> (#[trigger] fields[i]).0@.len() > 0 && no_dot(fields[i].0@)
                && doc_keys_plain(fields[i].1) && doc_keys_unique(fields[i].1),
        forall|i: int, j: int|
            0 <= i < j < fields.len() ==> (#[trigger] fields[i]).0@ != (#[trigger] fields[j]).0@,
        spec_plan_children(p, fields) is Some,
    ensures
        ({
            let recs = spec_plan_children(p, fields)->Some_0;
            forall|a: int, b: int|
                0 <= a < b < recs.len() && (#[trigger] recs[a]).namespace == (
                #[trigger] recs[b]).namespace ==> recs[a].key_text != recs[b].key_text
        }),
    decreases fields,
{
    if fields.len() > 0 {
        let head = spec_plan(Some(p), fields[0].0@, fields[0].1)->Some_0;
        let rest = spec_plan_children(p, fields.drop_first())->Some_0;
        let recs = spec_plan_children(p, fields)->Some_0;
        lemma_plan_children_all_some(p, fields);
        lemma_plan_texts_unique(Some(p), fields[0].0@, fields[0].1);
        lemma_plan_recoverable(Some(p), fields[0].0@, fields[0].1);
        assert forall|i: int|
            0 <= i < fields.drop_first().len() implies ((#[trigger] fields.drop_first()[i]).0@.len()
            > 0 && no_dot(fields.drop_first()[i].0@) && doc_keys_plain(fields.drop_first()[i].1)
            && doc_keys_unique(fields.drop_first()[i].1)) by {
            assert(fields.drop_first()[i] == fields[i + 1]);
        }
        assert forall|i: int, j: int|
            0 <= i < j < fields.drop_first().len() implies (#[trigger] fields.drop_first()[i]).0@
            != (#[trigger] fields.drop_first()[j]).0@ by {
            assert(fields.drop_first()[i] == fields[i + 1]);
            assert(fields.drop_first()[j] == fields[j + 1]);
        }
        lemma_plan_children_texts_unique(p, fields.drop_first());
        let childfull = spec_full_key(p, fields[0].0@);
        assert forall|a: int, b: int|
            0 <= a < b < recs.len() && (#[trigger] recs[a]).namespace == (
            #[trigger] recs[b]).namespace implies recs[a].key_text != recs[b].key_text by {
            if a < head.len() && b >= head.len() {
                assert(recs[a] == head[a]);
                assert(recs[b] == rest[b - head.len()]);
                let t = recs[b].key_text;
                if recs[a].key_text == t {
                    assert(has_text(rest, t));
                    lemma_plan_children_texts(p, fields.drop_first(), t);
                    let i = choose|i: int|
                        0 <= i < fields.drop_first().len() && has_text(
                            spec_plan(
                                Some(p),
                                fields.drop_first()[i].0@,
                                fields.drop_first()[i].1,
                            )->Some_0,
                            t,
                        );
                    assert(fields.drop_first()[i] == fields[i + 1]);
                    let crecs = spec_plan(Some(p), fields[i + 1].0@, fields[i + 1].1)->Some_0;
                    lemma_plan_recoverable(Some(p), fields[i + 1].0@, fields[i + 1].1);
                    let jj = choose|jj: int| 0 <= jj < crecs.len() && crecs[jj].key_text == t;
                    assert(recoverable(crecs[jj], spec_full_key(p, fields[i + 1].0@)));
                    assert(recoverable(head[a], childfull));
                    lemma_subtrees_disjoint(p, fields[0].0@, fields[i + 1].0@, t);
                }
            } else if a < head.len() && b < head.len() {
                assert(recs[a] == head[a]);
                assert(recs[b] == head[b]);
            } else {
                assert(recs[a] == rest[a - head.len()]);
                assert(recs[b] == rest[b - head.len()]);
            }
        }
    }
}

/// Law (unambiguous addressing): in the plan of a document with plain,
/// pairwise-distinct keys, no two records of one namespace share a key
/// text — so a reader holding the records as an unordered bag can look a
/// key text up without ambiguity.
pub proof fn lemma_plan_texts_unique(parent: Option<Seq<char>>, seg: Seq<char>, doc: Document)
    requires
        seg.len() > 0,
        no_dot(seg),
        doc_keys_plain(doc),
        doc_keys_unique(doc),
        spec_plan(parent, seg, doc) is Some,
    ensures
        ({
            let recs = spec_plan(parent, seg, doc)->Some_0;
            forall|a: int, b: int|
                0 <= a < b < recs.len() && (#[trigger] recs[a]).namespace == (
                #[trigger] recs[b]).namespace ==> recs[a].key_text != recs[b].key_text
        }),
    decreases doc,
{
    let p = spec_parent_text(parent);
    let full = spec_full_key(p, seg);
    match doc {
        Document::Object(fields) => {
            let marker = if parent is Some {
                spec_record_pair(p, seg, Kind::Object, ValueV::Object)
            } else {
                Seq::<RecordV>::empty()
            };
            let rest = spec_plan_children(full, fields@)->Some_0;
            let recs = spec_plan(parent, seg, doc)->Some_0;
            lemma_plan_children_texts_unique(full, fields@);
            lemma_plan_children_recoverable(full, fields@);
            assert forall|a: int, b: int|
                0 <= a < b < recs.len() && (#[trigger] recs[a]).namespace == (
                #[trigger] recs[b]).namespace implies recs[a].key_text != recs[b].key_text by {
                if a < marker.len() && b < marker.len() {
                    assert(recs[a] == marker[a]);
                    assert(recs[b] == marker[b]);
                } else if a < marker.len() {
                    // A marker record's text is the full key; an entry record
                    // lies strictly inside some entry's subtree, which is
                    // strictly longer.
                    assert(recs[a] == marker[a]);
                    assert(recs[b] == rest[b - marker.len()]);
                    let t = recs[b].key_text;
                    if recs[a].key_text == t {
                        assert(has_text(rest, t));
                        lemma_plan_children_texts(full, fields@, t);
                        lemma_plan_children_all_some(full, fields@);
                        let i = choose|i: int|
                            0 <= i < fields@.len() && has_text(
                                spec_plan(Some(full), fields@[i].0@, fields@[i].1)->Some_0,
                                t,
                            );
                        let crecs = spec_plan(Some(full), fields@[i].0@, fields@[i].1)->Some_0;
                        lemma_plan_recoverable(Some(full), fields@[i].0@, fields@[i].1);
                        let jj = choose|jj: int| 0 <= jj < crecs.len() && crecs[jj].key_text == t;
                        assert(recoverable(crecs[jj], spec_full_key(full, fields@[i].0@)));
                        assert(t.len() >= spec_full_key(full, fields@[i].0@).len());
                        assert(t.len() > full.len());
                    }
                } else {
                    assert(recs[a] == rest[a - marker.len()]);
                    assert(recs[b] == rest[b - marker.len()]);
                }
            }
        },
        _ => {
        },
    }
}


/// The kind a document node is classified as.
pub open spec fn node_kind(doc: Document) -> Kind {
    match doc {
        Document::Null => Kind::Null,
        Document::Bool(_) => Kind::Bool,
        Document::U64(_) => Kind::U64,
        Document::I64(_) => Kind::I64,
        Document::F64(_) => Kind::F64,
        Document::Text(_) => Kind::Text,
        Document::Array(_) => Kind::Array,
        Document::Object(_) => Kind::Object,
    }
}

/// The payload a document node's value record carries: the value itself
/// for a primitive, the empty object marker for an object.
pub open spec fn node_payload(doc: Document) -> ValueV {
    match doc {
        Document::Null => ValueV::Null,
        Document::Bool(b) => ValueV::Bool(b),
        Document::U64(v) => ValueV::U64(v),
        Document::I64(v) => ValueV::I64(v),
        Document::F64(bits) => ValueV::F64(bits),
        Document::Text(s) => ValueV::Text(s@),
        Document::Array(_) => ValueV::Object,
        Document::Object(_) => ValueV::Object,
    }
}

/// Whether a plan holds a value record with the given text, kind and
/// payload.
pub open spec fn has_value_record(
    recs: Seq<RecordV>,
    t: Seq<char>,
    kind: Kind,
    payload: ValueV,
) -> bool {
    exists|i: int|
        0 <= i < recs.len() && {
            let r = #[trigger] recs[i];
            &&& r.namespace == Namespace::Value
            &&& r.key_text == t
            &&& r.kind == kind
            &&& r.payload == payload
        }
}

/// Every record of an entry's plan stands in the object's entry records.
proof fn lemma_plan_children_member(p: Seq<char>, fields: Seq<(String, Document)>, i: int, j: int)
    requires
        spec_plan_children(p, fields) is Some,
        0 <= i < fields.len(),
        0 <= j < spec_plan(Some(p), fields[i].0@, fields[i].1)->Some_0.len(),
    ensures
        exists|m: int|
            0 <= m < spec_plan_children(p, fields)->Some_0.len() && spec_plan_children(
                p,
                fields,
            )->Some_0[m] == spec_plan(Some(p), fields[i].0@, fields[i].1)->Some_0[j],
    decreases fields,
{
    let head = spec_plan(Some(p), fields[0].0@, fields[0].1)->Some_0;
    let rest = spec_plan_children(p, fields.drop_first())->Some_0;
    let recs = spec_plan_children(p, fields)->Some_0;
    if i == 0 {
        assert(recs[j] == head[j]);
    } else {
        assert(fields.drop_first()[i - 1] == fields[i]);
        lemma_plan_children_member(p, fields.drop_first(), i - 1, j);
        let cp = spec_plan(Some(p), fields[i].0@, fields[i].1)->Some_0;
        let m0 = choose|m0: int| 0 <= m0 < rest.len() && rest[m0] == cp[j];
        assert(recs[head.len() + m0] == rest[m0]);
    }
}

/// Law (the record set determines each node): for every entry of a
/// decomposed object, the records hold a value record carrying the entry's
/// full key text, its kind, and its payload.  With unambiguous addressing
/// and the direct-children law, an unordered bag of records therefore
/// yields, level by level, exactly the keys, kinds and payloads of the
/// document it was decomposed from.
pub proof fn lemma_plan_child_value_record(
    parent: Option<Seq<char>>,
    seg: Seq<char>,
    fields: Vec<(String, Document)>,
    i: int,
)
    requires
        seg.len() > 0,
        spec_plan(parent, seg, Document::Object(fields)) is Some,
        0 <= i < fields@.len(),
    ensures
        ({
            let recs = spec_plan(parent, seg, Document::Object(fields))->Some_0;
            let full = spec_full_key(spec_parent_text(parent), seg);
            has_value_record(
                recs,
                spec_full_key(full, fields@[i].0@),
                node_kind(fields@[i].1),
                node_payload(fields@[i].1),
            )
        }),
{
    let doc = Document::Object(fields);
    let p = spec_parent_text(parent);
    let full = spec_full_key(p, seg);
    let recs = spec_plan(parent, seg, doc)->Some_0;
    let marker = if parent is Some {
        spec_record_pair(p, seg, Kind::Object, ValueV::Object)
    } else {
        Seq::<RecordV>::empty()
    };
    let rest = spec_plan_children(full, fields@)->Some_0;
    lemma_plan_children_all_some(full, fields@);
    let cp = spec_plan(Some(full), fields@[i].0@, fields@[i].1)->Some_0;
    lemma_plan_children_member(full, fields@, i, 1);
    // The value record of the entry's own pair stands at index 1 of its plan.
    assert(cp.len() >= 2 && cp[1].namespace == Namespace::Value && cp[1].key_text
        == spec_full_key(full, fields@[i].0@) && cp[1].kind == node_kind(fields@[i].1)
        && cp[1].payload == node_payload(fields@[i].1));
    let m = choose|m: int| 0 <= m < rest.len() && rest[m] == cp[1];
    assert(recs[marker.len() + m] == rest[m]);
}

} // verus!
