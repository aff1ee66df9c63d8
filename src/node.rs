use vstd::prelude::*;

verus! {

/// One node of a parsed YAML document, as the YAML parser produces it.
///
/// A mapping keeps its entries as key-value pairs; as in the parser's own
/// tree, no two of its keys are equal (see `well_formed`).
#[derive(Debug)]
pub enum Node {
    /// A floating-point scalar, as the literal text the document wrote.
    Real(String),
    Integer(i64),
    String(String),
    Boolean(bool),
    Array(Vec<Node>),
    Hash(Vec<(Node, Node)>),
    /// A reference to an anchored node, which the parser leaves unresolved.
    Alias(usize),
    Null,
    /// A node the parser could not represent.
    BadValue,
}

impl Node {
    /// The key text of a string-keyed mapping entry.
    pub open spec fn key_text(self) -> Option<Seq<char>> {
        match self {
            Node::String(s) => Some(s@),
            _ => None,
        }
    }

    /// Every mapping in the tree has pairwise distinct string keys.
    pub open spec fn well_formed(self) -> bool
        decreases self,
    {
        match self {
            Node::Array(items) => forall|i: int|
                0 <= i < items.len() ==> (#[trigger] items[i]).well_formed(),
            Node::Hash(entries) => {
                &&& forall|i: int, j: int|
                    0 <= i < j < entries.len() && (#[trigger] entries[i].0).key_text() is Some
                        ==> entries[i].0.key_text() != (#[trigger] entries[j].0).key_text()
                &&& forall|i: int|
                    0 <= i < entries.len() ==> (#[trigger] entries[i]).1.well_formed()
            },
            _ => true,
        }
    }
}

} // verus!
