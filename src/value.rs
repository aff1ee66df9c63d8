use vstd::prelude::*;

verus! {

/// The shape of a configuration value.
#[derive(Debug)]
pub enum ValueKind {
    String(String),
    Integer(i64),
    /// A floating-point number, kept as the literal text that denotes it.
    Float(String),
    Boolean(bool),
    /// Entries with pairwise distinct keys; their order carries no meaning.
    Table(Vec<(String, Value)>),
    Array(Vec<Value>),
}

/// A configuration value, tagged with the source it came from.
#[derive(Debug)]
pub struct Value {
    pub origin: Option<String>,
    pub kind: ValueKind,
}

/// A table whose keys are pairwise distinct and whose values are well formed.
pub open spec fn table_well_formed(t: Vec<(String, Value)>) -> bool {
    &&& forall|i: int, j: int| 0 <= i < j < t.len() ==> (#[trigger] t[i]).0@ != (#[trigger] t[j]).0@
    &&& forall|i: int| 0 <= i < t.len() ==> (#[trigger] t[i]).1.well_formed()
}

pub open spec fn opt_view(s: Option<String>) -> Option<Seq<char>> {
    match s {
        Some(t) => Some(t@),
        None => None,
    }
}

impl Value {
    pub fn new(origin: Option<&String>, kind: ValueKind) -> (r: Value)
        ensures
            opt_view(r.origin) == match origin {
                Some(s) => Some(s@),
                None => None::<Seq<char>>,
            },
            r.kind == kind,
    {
        let origin = match origin {
            Some(s) => Some(s.clone()),
            None => None,
        };
        Value { origin, kind }
    }

    /// Every node of the tree carries the origin `o`.
    pub open spec fn all_from(self, o: Option<Seq<char>>) -> bool
        decreases self,
    {
        &&& opt_view(self.origin) == o
        &&& match self.kind {
            ValueKind::Table(t) => forall|i: int|
                0 <= i < t.len() ==> (#[trigger] t[i]).1.all_from(o),
            ValueKind::Array(a) => forall|i: int|
                0 <= i < a.len() ==> (#[trigger] a[i]).all_from(o),
            _ => true,
        }
    }

    /// Every table in the tree has pairwise distinct keys.
    pub open spec fn well_formed(self) -> bool
        decreases self,
    {
        match self.kind {
            ValueKind::Table(t) => {
                &&& forall|i: int, j: int|
                    0 <= i < j < t.len() ==> (#[trigger] t[i]).0@ != (#[trigger] t[j]).0@
                &&& forall|i: int| 0 <= i < t.len() ==> (#[trigger] t[i]).1.well_formed()
            },
            ValueKind::Array(a) => forall|i: int|
                0 <= i < a.len() ==> (#[trigger] a[i]).well_formed(),
            _ => true,
        }
    }

    /// The two trees have the same shape, the same scalars, the same keys in
    /// the same places and the same origins.
    pub open spec fn same_as(self, other: Value) -> bool
        decreases self,
    {
        &&& opt_view(self.origin) == opt_view(other.origin)
        &&& match (self.kind, other.kind) {
            (ValueKind::String(a), ValueKind::String(b)) => a@ == b@,
            (ValueKind::Integer(a), ValueKind::Integer(b)) => a == b,
            (ValueKind::Float(a), ValueKind::Float(b)) => a@ == b@,
            (ValueKind::Boolean(a), ValueKind::Boolean(b)) => a == b,
            (ValueKind::Table(a), ValueKind::Table(b)) => {
                &&& a.len() == b.len()
                &&& forall|i: int|
                    0 <= i < a.len() ==> (#[trigger] a[i]).0@ == b[i].0@ && a[i].1.same_as(b[i].1)
            },
            (ValueKind::Array(a), ValueKind::Array(b)) => {
                &&& a.len() == b.len()
                &&& forall|i: int| 0 <= i < a.len() ==> (#[trigger] a[i]).same_as(b[i])
            },
            _ => false,
        }
    }
}

} // verus!
