//! The grammar model: nodes addressed by index, closed under reference.
use vstd::prelude::*;

verus! {

/// A resolved type reference. `Node` holds an index into the model's nodes,
/// `Leaf` an index into its leaf names.
#[derive(Debug)]
pub enum TypeRef {
    Node(usize),
    Leaf(usize),
    Optional(Box<TypeRef>),
    Sequence(Box<TypeRef>),
    Boxed(Box<TypeRef>),
    /// A separated sequence: element type and separator leaf index.
    Separated(Box<TypeRef>, usize),
}

pub struct Field {
    pub name: String,
    pub ty: TypeRef,
}

pub enum Payload {
    Unit,
    Single(TypeRef),
    Fields(Vec<Field>),
}

pub struct Variant {
    pub name: String,
    pub payload: Payload,
}

pub enum Body {
    Struct(Vec<Field>),
    Enum(Vec<Variant>),
}

pub struct Node {
    pub name: String,
    pub body: Body,
    pub leaf_like: bool,
}

/// The closed grammar model, nodes in declaration order.
pub struct Grammar {
    pub nodes: Vec<Node>,
    pub leaves: Vec<String>,
}

/// Every index in `t` is in range.
pub open spec fn ref_in_range(t: TypeRef, n_nodes: nat, n_leaves: nat) -> bool
    decreases t,
{
    match t {
        TypeRef::Node(k) => k < n_nodes,
        TypeRef::Leaf(k) => k < n_leaves,
        TypeRef::Optional(b) => ref_in_range(*b, n_nodes, n_leaves),
        TypeRef::Sequence(b) => ref_in_range(*b, n_nodes, n_leaves),
        TypeRef::Boxed(b) => ref_in_range(*b, n_nodes, n_leaves),
        TypeRef::Separated(b, s) => s < n_leaves && ref_in_range(*b, n_nodes, n_leaves),
    }
}

pub open spec fn fields_in_range(fs: Seq<Field>, n_nodes: nat, n_leaves: nat) -> bool {
    forall|i: int| 0 <= i < fs.len() ==> ref_in_range(#[trigger] fs[i].ty, n_nodes, n_leaves)
}

pub open spec fn payload_in_range(p: Payload, n_nodes: nat, n_leaves: nat) -> bool {
    match p {
        Payload::Unit => true,
        Payload::Single(t) => ref_in_range(t, n_nodes, n_leaves),
        Payload::Fields(fs) => fields_in_range(fs@, n_nodes, n_leaves),
    }
}

pub open spec fn node_in_range(n: Node, n_nodes: nat, n_leaves: nat) -> bool {
    match n.body {
        Body::Struct(fs) => fields_in_range(fs@, n_nodes, n_leaves),
        Body::Enum(vs) => forall|i: int|
            0 <= i < vs@.len() ==> payload_in_range(#[trigger] vs@[i].payload, n_nodes, n_leaves),
    }
}

impl Grammar {
    /// Referential closure: every reference names a node or leaf of this model.
    pub open spec fn closed(&self) -> bool {
        forall|i: int|
            0 <= i < self.nodes@.len() ==> node_in_range(
                #[trigger] self.nodes@[i],
                self.nodes@.len(),
                self.leaves@.len(),
            )
    }
}

} // verus!
