use vstd::prelude::*;
use crate::convert::{converts, converts_kind, convertible, keyed, lemma_keyed};
use crate::error::ConfigError;
use crate::node::Node;
use crate::value::{Value, ValueKind};
use crate::yaml::{documents_outcome, parse_outcome, selected, yaml_documents};

verus! {

/// Every string-keyed entry of `entries` has its position listed by `keyed`.
proof fn lemma_keyed_complete(entries: Seq<(Node, Node)>, j: int)
    requires
        0 <= j < entries.len(),
        entries[j].0 is String,
    ensures
        exists|i: int| 0 <= i < keyed(entries).len() && keyed(entries)[i] == j,
    decreases entries.len(),
{
    let before = keyed(entries.drop_last());
    if j == entries.len() - 1 {
        assert(keyed(entries)[before.len() as int] == j);
    } else {
        lemma_keyed_complete(entries.drop_last(), j);
        let i = choose|i: int| 0 <= i < before.len() && before[i] == j;
        assert(keyed(entries)[i] == j);
    }
}

/// Every node of a converted tree carries the origin of the conversion.
pub proof fn lemma_converts_single_origin(o: Option<Seq<char>>, n: Node, v: Value)
    requires
        converts(o, n, v),
    ensures
        v.all_from(o),
    decreases n,
{
    match n {
        Node::Array(items) => {
            let a = v.kind->Array_0;
            assert forall|i: int| 0 <= i < a.len() implies (#[trigger] a[i]).all_from(o) by {
                assert(decreases_to!(n => n->Array_0[i]));
                lemma_converts_single_origin(o, items[i], a[i]);
            }
        },
        Node::Hash(entries) => {
            let t = v.kind->Table_0;
            lemma_keyed(entries@);
            assert forall|i: int| 0 <= i < t.len() implies (#[trigger] t[i]).1.all_from(o) by {
                let j = keyed(entries@)[i];
                assert(decreases_to!(n => n->Hash_0[j].1));
                lemma_converts_single_origin(o, entries[j].1, t[i].1);
            }
        },
        _ => {},
    }
}

/// Two conversions of one node with one origin give the same tree.
pub proof fn lemma_converts_deterministic(o: Option<Seq<char>>, n: Node, v: Value, w: Value)
    requires
        converts(o, n, v),
        converts(o, n, w),
    ensures
        v.same_as(w),
    decreases n,
{
    match n {
        Node::Array(items) => {
            let a = v.kind->Array_0;
            let b = w.kind->Array_0;
            assert forall|i: int| 0 <= i < a.len() implies (#[trigger] a[i]).same_as(b[i]) by {
                assert(decreases_to!(n => n->Array_0[i]));
                lemma_converts_deterministic(o, items[i], a[i], b[i]);
            }
        },
        Node::Hash(entries) => {
            let a = v.kind->Table_0;
            let b = w.kind->Table_0;
            lemma_keyed(entries@);
            assert forall|i: int| 0 <= i < a.len() implies (#[trigger] a[i]).0@ == b[i].0@ && a[i].1.same_as(
                b[i].1,
            ) by {
                let j = keyed(entries@)[i];
                assert(decreases_to!(n => n->Hash_0[j].1));
                lemma_converts_deterministic(o, entries[j].1, a[i].1, b[i].1);
            }
        },
        _ => {},
    }
}

/// A mapping converts to a table that holds exactly its string-keyed
/// entries: each table entry comes from an entry with that string key, and
/// each string-keyed entry is in the table with its converted value.
pub proof fn law_only_string_keys(
    o: Option<Seq<char>>,
    entries: Vec<(Node, Node)>,
    t: Vec<(String, Value)>,
)
    requires
        converts_kind(o, Node::Hash(entries), ValueKind::Table(t)),
    ensures
        forall|i: int|
            0 <= i < t.len() ==> exists|j: int|
                0 <= j < entries.len() && (#[trigger] entries[j]).0.key_text() == Some(
                    (#[trigger] t[i]).0@,
                ),
        forall|j: int|
            0 <= j < entries.len() && (#[trigger] entries[j]).0 is String ==> exists|i: int|
                0 <= i < t.len() && Some((#[trigger] t[i]).0@) == entries[j].0.key_text()
                    && converts(o, entries[j].1, t[i].1),
{
    lemma_keyed(entries@);
    assert forall|i: int| 0 <= i < t.len() implies exists|j: int|
        0 <= j < entries.len() && (#[trigger] entries[j]).0.key_text() == Some(
            (#[trigger] t[i]).0@,
        ) by {
        let j = keyed(entries@)[i];
        assert(entries[j].0.key_text() == Some(t[i].0@));
    }
    assert forall|j: int| 0 <= j < entries.len() && (#[trigger] entries[j]).0 is String implies exists|i: int|
        0 <= i < t.len() && Some((#[trigger] t[i]).0@) == entries[j].0.key_text() && converts(
            o,
            entries[j].1,
            t[i].1,
        ) by {
        lemma_keyed_complete(entries@, j);
        let i = choose|i: int| 0 <= i < keyed(entries@).len() && keyed(entries@)[i] == j;
        assert(Some(t[i].0@) == entries[j].0.key_text());
    }
}

/// No document gives an empty table, whatever the namespace.
pub proof fn law_no_documents(
    o: Option<Seq<char>>,
    docs: Seq<Node>,
    namespace: Option<Seq<char>>,
    r: Result<Vec<(String, Value)>, ConfigError>,
)
    requires
        docs.len() == 0,
        documents_outcome(o, docs, namespace, r),
    ensures
        r matches Ok(t) && t.len() == 0,
{
}

/// Two documents are refused with an error that counts two.
pub proof fn law_two_documents(
    o: Option<Seq<char>>,
    docs: Seq<Node>,
    namespace: Option<Seq<char>>,
    r: Result<Vec<(String, Value)>, ConfigError>,
)
    requires
        docs.len() == 2,
        documents_outcome(o, docs, namespace, r),
    ensures
        r matches Err(e) && e == ConfigError::MultipleDocuments(2),
{
}

/// A single document whose root is a mapping that converts gives, without
/// a namespace, the table of that mapping.
pub proof fn law_single_document(
    o: Option<Seq<char>>,
    docs: Seq<Node>,
    r: Result<Vec<(String, Value)>, ConfigError>,
)
    requires
        docs.len() == 1,
        docs[0] is Hash,
        convertible(docs[0]),
        documents_outcome(o, docs, None, r),
    ensures
        r matches Ok(t) && converts_kind(o, docs[0], ValueKind::Table(t)),
{
}

/// Every value in a table that a text gives, at every depth, carries the
/// origin of the call.
pub proof fn law_single_origin(
    o: Option<Seq<char>>,
    text: Seq<char>,
    namespace: Option<Seq<char>>,
    t: Vec<(String, Value)>,
)
    requires
        parse_outcome(o, text, namespace, Ok(t)),
    ensures
        forall|i: int| 0 <= i < t.len() ==> (#[trigger] t[i]).1.all_from(o),
{
    let docs = yaml_documents(text)->0;
    if docs.len() == 1 {
        if let Some(n) = selected(docs[0], namespace) {
            if n is Hash {
                let entries = n->Hash_0;
                lemma_keyed(entries@);
                assert forall|i: int| 0 <= i < t.len() implies (#[trigger] t[i]).1.all_from(o) by {
                    let j = keyed(entries@)[i];
                    lemma_converts_single_origin(o, entries[j].1, t[i].1);
                }
            }
        }
    }
}

/// Two results are the same: the same table, or errors of the same kind
/// (with the same count where they count documents).
pub open spec fn same_outcome(
    r: Result<Vec<(String, Value)>, ConfigError>,
    s: Result<Vec<(String, Value)>, ConfigError>,
) -> bool {
    match (r, s) {
        (Ok(a), Ok(b)) => {
            &&& a.len() == b.len()
            &&& forall|i: int|
                0 <= i < a.len() ==> (#[trigger] a[i]).0@ == b[i].0@ && a[i].1.same_as(b[i].1)
        },
        (Err(ConfigError::Syntax(_)), Err(ConfigError::Syntax(_))) => true,
        (Err(ConfigError::MultipleDocuments(m)), Err(ConfigError::MultipleDocuments(n))) => m == n,
        (Err(ConfigError::UnrepresentableNode), Err(ConfigError::UnrepresentableNode)) => true,
        _ => false,
    }
}

/// Parsing the same text twice, with the same origin and namespace, gives
/// the same result.
pub proof fn law_parse_deterministic(
    o: Option<Seq<char>>,
    text: Seq<char>,
    namespace: Option<Seq<char>>,
    r: Result<Vec<(String, Value)>, ConfigError>,
    s: Result<Vec<(String, Value)>, ConfigError>,
)
    requires
        parse_outcome(o, text, namespace, r),
        parse_outcome(o, text, namespace, s),
    ensures
        same_outcome(r, s),
{
    if let Some(docs) = yaml_documents(text) {
        if docs.len() == 1 {
            if let Some(n) = selected(docs[0], namespace) {
                if convertible(n) && n is Hash {
                    let a = r->Ok_0;
                    let b = s->Ok_0;
                    let entries = n->Hash_0;
                    lemma_keyed(entries@);
                    assert forall|i: int| 0 <= i < a.len() implies (#[trigger] a[i]).0@ == b[i].0@
                        && a[i].1.same_as(b[i].1) by {
                        let j = keyed(entries@)[i];
                        lemma_converts_deterministic(o, entries[j].1, a[i].1, b[i].1);
                    }
                }
            }
        }
    }
}

} // verus!
