use vstd::prelude::*;
use crate::convert::{converts_kind, convertible, from_yaml_value, lemma_converts_kind_well_formed, text_of};
use crate::error::ConfigError;
use crate::node::Node;
use crate::value::{table_well_formed, Value, ValueKind};

verus! {

/// A node of the YAML parser's own document tree.
#[verifier::external_type_specification]
#[verifier::external_body]
pub struct ExYaml(yaml_rust::Yaml);

/// The documents that the YAML parser reads from a text, or `None` where it
/// reports a syntax error.
pub uninterp spec fn yaml_documents(text: Seq<char>) -> Option<Seq<Node>>;

/// Relies on the variants of `yaml_rust::Yaml`: each becomes the `Node`
/// variant of the same name, with the same content, children in the same
/// order.
#[verifier::external_body]
fn node_of(y: &yaml_rust::Yaml) -> Node {
    match y {
        yaml_rust::Yaml::Real(s) => Node::Real(s.clone()),
        yaml_rust::Yaml::Integer(i) => Node::Integer(*i),
        yaml_rust::Yaml::String(s) => Node::String(s.clone()),
        yaml_rust::Yaml::Boolean(b) => Node::Boolean(*b),
        yaml_rust::Yaml::Array(a) => Node::Array(a.iter().map(node_of).collect()),
        yaml_rust::Yaml::Hash(h) => Node::Hash(h.iter().map(|(k, v)| (node_of(k), node_of(v))).collect()),
        yaml_rust::Yaml::Alias(n) => Node::Alias(*n),
        yaml_rust::Yaml::Null => Node::Null,
        yaml_rust::Yaml::BadValue => Node::BadValue,
    }
}

/// Relies on `yaml_rust::YamlLoader::load_from_str`: the documents of the
/// text, which depend on the text alone. A mapping of the parser is a
/// `BTreeMap`, so no two of its keys are equal.
#[verifier::external_body]
fn load_from_str(text: &str) -> (r: Result<Vec<Node>, yaml_rust::ScanError>)
    ensures
        r is Ok <==> yaml_documents(text@) is Some,
        r matches Ok(docs) ==> docs@ == yaml_documents(text@)->0,
        r matches Ok(docs) ==> forall|i: int| 0 <= i < docs.len() ==> (#[trigger] docs[i]).well_formed(),
{
    yaml_rust::YamlLoader::load_from_str(text).map(|docs| docs.iter().map(node_of).collect())
}

/// The position of the first entry whose key is the string `k`.
pub open spec fn key_position(entries: Seq<(Node, Node)>, k: Seq<char>) -> Option<int> {
    if exists|j: int| is_first_key(entries, k, j) {
        Some(choose|j: int| is_first_key(entries, k, j))
    } else {
        None
    }
}

/// Entry `j` is the first whose key is the string `k`.
pub open spec fn is_first_key(entries: Seq<(Node, Node)>, k: Seq<char>, j: int) -> bool {
    &&& 0 <= j < entries.len()
    &&& entries[j].0.key_text() == Some(k)
    &&& forall|m: int| 0 <= m < j ==> (#[trigger] entries[m]).0.key_text() != Some(k)
}

/// The node that becomes the root once `namespace` is applied to `root`:
/// `None` stands for a new empty mapping. Without a namespace the root stays;
/// with one, the mapping under that key of a mapping root is taken, and in
/// every other case an empty mapping.
pub open spec fn selected(root: Node, namespace: Option<Seq<char>>) -> Option<Node> {
    match namespace {
        None => Some(root),
        Some(k) => match root {
            Node::Hash(entries) => match key_position(entries@, k) {
                Some(j) => if entries[j].1 is Hash {
                    Some(entries[j].1)
                } else {
                    None
                },
                None => None,
            },
            _ => None,
        },
    }
}

/// `r` is what the documents `docs` give as a configuration table, with
/// origin `o` and namespace `namespace`: more than one document is an error
/// that counts them; no document, a namespace that selects nothing, and a
/// root that is no mapping give an empty table; a root that does not convert
/// is an error; otherwise the table is the converted root mapping.
pub open spec fn documents_outcome(
    o: Option<Seq<char>>,
    docs: Seq<Node>,
    namespace: Option<Seq<char>>,
    r: Result<Vec<(String, Value)>, ConfigError>,
) -> bool {
    if docs.len() > 1 {
        r == Err::<Vec<(String, Value)>, ConfigError>(ConfigError::MultipleDocuments(docs.len() as usize))
    } else if docs.len() == 0 {
        r matches Ok(t) && t.len() == 0
    } else {
        match selected(docs[0], namespace) {
            None => r matches Ok(t) && t.len() == 0,
            Some(n) => if !convertible(n) {
                r matches Err(e) && e is UnrepresentableNode
            } else if n is Hash {
                r matches Ok(t) && converts_kind(o, n, ValueKind::Table(t))
            } else {
                r matches Ok(t) && t.len() == 0
            },
        }
    }
}

/// `r` is what `parse` gives for the text `text`.
pub open spec fn parse_outcome(
    o: Option<Seq<char>>,
    text: Seq<char>,
    namespace: Option<Seq<char>>,
    r: Result<Vec<(String, Value)>, ConfigError>,
) -> bool {
    match yaml_documents(text) {
        None => r matches Err(e) && e is Syntax,
        Some(docs) => documents_outcome(o, docs, namespace, r),
    }
}

/// What a namespace selects in a well-formed node is well formed.
proof fn lemma_selected_well_formed(root: Node, namespace: Option<Seq<char>>)
    requires
        root.well_formed(),
    ensures
        selected(root, namespace) matches Some(n) ==> n.well_formed(),
{
    if let Some(k) = namespace {
        if let Node::Hash(entries) = root {
            if let Some(j) = key_position(entries@, k) {
                assert(is_first_key(entries@, k, j));
                assert(entries[j].1.well_formed());
            }
        }
    }
}

/// The node that `namespace` selects in `root`, or `None` for an empty
/// mapping.
fn select<'a>(root: &'a Node, namespace: Option<&String>) -> (r: Option<&'a Node>)
    ensures
        selected(*root, text_of(namespace)) == match r {
            Some(n) => Some(*n),
            None => None::<Node>,
        },
{
    let ns = match namespace {
        None => {
            return Some(root);
        },
        Some(ns) => ns,
    };
    let entries = match root {
        Node::Hash(entries) => entries,
        _ => {
            return None;
        },
    };
    let mut i: usize = 0;
    while i < entries.len()
        invariant
            *root == Node::Hash(*entries),
            text_of(namespace) == Some(ns@),
            0 <= i <= entries.len(),
            forall|m: int| 0 <= m < i ==> (#[trigger] entries[m]).0.key_text() != Some(ns@),
        decreases entries.len() - i,
    {
        if let Node::String(s) = &entries[i].0 {
            if *s == *ns {
                proof {
                    let j = i as int;
                    assert(is_first_key(entries@, ns@, j));
                    let c = choose|c: int| is_first_key(entries@, ns@, c);
                    if c < j {
                        assert(entries[c].0.key_text() != Some(ns@));
                    } else if c > j {
                        assert(entries[j].0.key_text() != Some(ns@));
                    }
                    assert(key_position(entries@, ns@) == Some(j));
                    assert(root->Hash_0@ == entries@);
                }
                if let Node::Hash(_) = &entries[i].1 {
                    return Some(&entries[i].1);
                } else {
                    return None;
                }
            }
        }
        i += 1;
    }
    proof {
        assert forall|j: int| !is_first_key(entries@, ns@, j) by {
            if 0 <= j < entries.len() {
                assert(entries[j].0.key_text() != Some(ns@));
            }
        }
    }
    None
}

/// The configuration table of the documents `docs`: the single document,
/// narrowed to `namespace` where one is given, converted with every value
/// tagged with `uri`.
pub fn parse_documents(uri: Option<&String>, docs: &Vec<Node>, namespace: Option<&String>) -> (r:
    Result<Vec<(String, Value)>, ConfigError>)
    ensures
        documents_outcome(text_of(uri), docs@, text_of(namespace), r),
        (forall|i: int| 0 <= i < docs.len() ==> (#[trigger] docs[i]).well_formed()) ==> (r matches Ok(
            t,
        ) ==> table_well_formed(t)),
{
    if docs.len() > 1 {
        return Err(ConfigError::MultipleDocuments(docs.len()));
    }
    if docs.len() == 0 {
        return Ok(Vec::new());
    }
    match select(&docs[0], namespace) {
        None => Ok(Vec::new()),
        Some(root) => match from_yaml_value(uri, root) {
            Err(e) => Err(e),
            Ok(v) => {
                proof {
                    if docs[0].well_formed() {
                        lemma_selected_well_formed(docs[0], text_of(namespace));
                        lemma_converts_kind_well_formed(text_of(uri), *root, v.kind);
                    }
                }
                match v.kind {
                    ValueKind::Table(m) => Ok(m),
                    _ => Ok(Vec::new()),
                }
            },
        },
    }
}

/// Parses the YAML `text` and returns its configuration table, every value
/// tagged with `uri`, narrowed to `namespace` where one is given.
pub fn parse(uri: Option<&String>, text: &str, namespace: Option<&String>) -> (r: Result<
    Vec<(String, Value)>,
    ConfigError,
>)
    ensures
        parse_outcome(text_of(uri), text@, text_of(namespace), r),
        r matches Ok(t) ==> table_well_formed(t),
{
    match load_from_str(text) {
        Err(e) => Err(ConfigError::Syntax(e)),
        Ok(docs) => parse_documents(uri, &docs, namespace),
    }
}

} // verus!
