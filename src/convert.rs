use vstd::prelude::*;
use crate::node::Node;
use crate::error::ConfigError;
use crate::value::{opt_view, table_well_formed, Value, ValueKind};

verus! {

/// The text of an optional string argument.
pub open spec fn text_of(uri: Option<&String>) -> Option<Seq<char>> {
    match uri {
        Some(s) => Some(s@),
        None => None,
    }
}

/// The positions of the entries whose key is a string, in order.
pub open spec fn keyed(entries: Seq<(Node, Node)>) -> Seq<int>
    decreases entries.len(),
{
    if entries.len() == 0 {
        Seq::empty()
    } else {
        let before = keyed(entries.drop_last());
        if entries.last().0 is String {
            before.push(entries.len() - 1)
        } else {
            before
        }
    }
}

/// Conversion reaches no null, alias or bad node: every array element, and
/// every value under a string key, converts.
pub open spec fn convertible(n: Node) -> bool
    decreases n,
{
    match n {
        Node::Array(items) => forall|i: int|
            0 <= i < items.len() ==> convertible(#[trigger] items[i]),
        Node::Hash(entries) => forall|i: int|
            0 <= i < entries.len() && (#[trigger] entries[i]).0 is String ==> convertible(
                entries[i].1,
            ),
        Node::Alias(_) | Node::Null | Node::BadValue => false,
        _ => true,
    }
}

/// `v` is the value tree of node `n`, every node of it tagged with origin `o`.
pub open spec fn converts(o: Option<Seq<char>>, n: Node, v: Value) -> bool
    decreases n, 1nat,
{
    &&& opt_view(v.origin) == o
    &&& converts_kind(o, n, v.kind)
}

/// `k` is the shape of the value tree of node `n`, whose nodes carry origin
/// `o`: scalars keep their variant and content, an array keeps its elements
/// in order, and a mapping keeps its string-keyed entries, in order, and
/// drops the others.
pub open spec fn converts_kind(o: Option<Seq<char>>, n: Node, k: ValueKind) -> bool
    decreases n, 0nat,
{
    match n {
        Node::Real(s) => k matches ValueKind::Float(t) && t@ == s@,
        Node::Integer(i) => k == ValueKind::Integer(i),
        Node::String(s) => k matches ValueKind::String(t) && t@ == s@,
        Node::Boolean(b) => k == ValueKind::Boolean(b),
        Node::Array(items) => {
            &&& k is Array
            &&& k->Array_0.len() == items.len()
            &&& forall|i: int|
                0 <= i < items.len() ==> converts(o, #[trigger] items[i], k->Array_0[i])
        },
        Node::Hash(entries) => {
            &&& k is Table
            &&& k->Table_0.len() == keyed(entries@).len()
            &&& forall|i: int|
                0 <= i < keyed(entries@).len() ==> {
                    let j = #[trigger] keyed(entries@)[i];
                    &&& 0 <= j < entries.len()
                    &&& entries[j].0 is String
                    &&& k->Table_0[i].0@ == entries[j].0->String_0@
                    &&& converts(o, entries[j].1, k->Table_0[i].1)
                }
        },
        _ => false,
    }
}

/// The positions that `keyed` lists are increasing, in range, and hold
/// string keys.
pub proof fn lemma_keyed(entries: Seq<(Node, Node)>)
    ensures
        forall|i: int|
            0 <= i < keyed(entries).len() ==> {
                &&& 0 <= #[trigger] keyed(entries)[i] < entries.len()
                &&& entries[keyed(entries)[i]].0 is String
            },
        forall|i: int, k: int|
            0 <= i < k < keyed(entries).len() ==> #[trigger] keyed(entries)[i] < #[trigger] keyed(
                entries,
            )[k],
    decreases entries.len(),
{
    if entries.len() > 0 {
        lemma_keyed(entries.drop_last());
    }
}

/// A well-formed mapping converts to a table with distinct keys, and every
/// well-formed node to a well-formed tree.
pub proof fn lemma_converts_kind_well_formed(o: Option<Seq<char>>, n: Node, k: ValueKind)
    requires
        n.well_formed(),
        converts_kind(o, n, k),
    ensures
        k matches ValueKind::Table(t) ==> table_well_formed(t),
        (Value { origin: None, kind: k }).well_formed(),
    decreases n, 0nat,
{
    match n {
        Node::Array(items) => {
            let a = k->Array_0;
            assert forall|i: int| 0 <= i < a.len() implies (#[trigger] a[i]).well_formed() by {
                assert(decreases_to!(n => n->Array_0[i]));
                assert(items[i].well_formed());
                lemma_converts_kind_well_formed(o, items[i], a[i].kind);
            }
        },
        Node::Hash(entries) => {
            let t = k->Table_0;
            let ks = keyed(entries@);
            lemma_keyed(entries@);
            assert forall|i: int| 0 <= i < t.len() implies (#[trigger] t[i]).1.well_formed() by {
                let j = ks[i];
                assert(decreases_to!(n => n->Hash_0[j].1));
                assert(entries[j].1.well_formed());
                lemma_converts_kind_well_formed(o, entries[j].1, t[i].1.kind);
            }
            assert forall|i: int, m: int| 0 <= i < m < t.len() implies (#[trigger] t[i]).0@ != (
            #[trigger] t[m]).0@ by {
                assert(ks[i] < ks[m]);
                assert(entries[ks[i]].0.key_text() is Some);
                assert(entries[ks[i]].0.key_text() != entries[ks[m]].0.key_text());
            }
        },
        _ => {},
    }
}

/// Converts `value` into a value tree whose every node carries `uri` as its
/// origin.
pub fn from_yaml_value(uri: Option<&String>, value: &Node) -> (r: Result<Value, ConfigError>)
    ensures
        r is Ok <==> convertible(*value),
        r matches Ok(v) ==> converts(text_of(uri), *value, v),
        r matches Err(e) ==> e is UnrepresentableNode,
    decreases value,
{
    match value {
        Node::String(s) => Ok(Value::new(uri, ValueKind::String(s.clone()))),
        Node::Real(s) => Ok(Value::new(uri, ValueKind::Float(s.clone()))),
        Node::Integer(i) => Ok(Value::new(uri, ValueKind::Integer(*i))),
        Node::Boolean(b) => Ok(Value::new(uri, ValueKind::Boolean(*b))),
        Node::Hash(entries) => {
            let ghost o = text_of(uri);
            let mut m: Vec<(String, Value)> = Vec::new();
            let mut i: usize = 0;
            while i < entries.len()
                invariant
                    *value == Node::Hash(*entries),
                    o == text_of(uri),
                    0 <= i <= entries.len(),
                    m.len() == keyed(entries@.subrange(0, i as int)).len(),
                    forall|k: int|
                        0 <= k < i && (#[trigger] entries[k]).0 is String ==> convertible(
                            entries[k].1,
                        ),
                    forall|p: int|
                        0 <= p < m.len() ==> {
                            let j = #[trigger] keyed(entries@.subrange(0, i as int))[p];
                            &&& 0 <= j < i
                            &&& entries[j].0 is String
                            &&& m[p].0@ == entries[j].0->String_0@
                            &&& converts(o, entries[j].1, m[p].1)
                        },
                decreases entries.len() - i,
            {
                let ghost pre = entries@.subrange(0, i as int);
                let ghost next = entries@.subrange(0, i + 1);
                proof {
                    assert(next.drop_last() =~= pre);
                    lemma_keyed(pre);
                }
                let (key, val) = &entries[i];
                if let Node::String(k) = key {
                    proof {
                        assert(decreases_to!(*value => value->Hash_0[i as int].1));
                        assert(value->Hash_0[i as int] == entries[i as int]);
                    }
                    match from_yaml_value(uri, val) {
                        Ok(v) => {
                            m.push((k.clone(), v));
                        },
                        Err(e) => {
                            assert(entries[i as int].0 is String);
                            assert(!convertible(*value));
                            return Err(e);
                        },
                    }
                }
                i += 1;
            }
            proof {
                assert(entries@.subrange(0, i as int) =~= entries@);
            }
            Ok(Value::new(uri, ValueKind::Table(m)))
        },
        Node::Array(items) => {
            let ghost o = text_of(uri);
            let mut l: Vec<Value> = Vec::new();
            let mut i: usize = 0;
            while i < items.len()
                invariant
                    *value == Node::Array(*items),
                    o == text_of(uri),
                    0 <= i <= items.len(),
                    l.len() == i,
                    forall|k: int| 0 <= k < i ==> convertible(#[trigger] items[k]),
                    forall|k: int| 0 <= k < i ==> converts(o, #[trigger] items[k], l[k]),
                decreases items.len() - i,
            {
                proof {
                    assert(decreases_to!(*value => value->Array_0[i as int]));
                    assert(value->Array_0[i as int] == items[i as int]);
                }
                match from_yaml_value(uri, &items[i]) {
                    Ok(v) => {
                        l.push(v);
                    },
                    Err(e) => {
                        assert(!convertible(items[i as int]));
                        assert(!convertible(*value));
                        return Err(e);
                    },
                }
                i += 1;
            }
            Ok(Value::new(uri, ValueKind::Array(l)))
        },
        _ => Err(ConfigError::UnrepresentableNode),
    }
}

} // verus!
