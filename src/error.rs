use vstd::prelude::*;
use vstd::string::*;

verus! {

/// Why model building rejected a set of declarations.
#[derive(Debug, Clone, Copy, PartialEq, Eq, Structural)]
pub enum Malformed {
    /// A feature gate names a feature that is not declared.
    UnknownFeature,
    /// Two declarations share a name.
    DuplicateNode,
    /// A type expression names no eligible node and no leaf type.
    UnresolvedReference,
    /// A node contains itself by value, not through an indirection.
    UnboxedCycle,
}

/// The failures of a generation run.
#[derive(Debug, Clone, Copy, PartialEq, Eq, Structural)]
pub enum GenError {
    /// A raw type expression matches no known wrapper shape.
    UnresolvedType,
    /// The declarations do not form a closed, representable grammar.
    MalformedGrammar(Malformed),
    /// The model holds a name that the schema format cannot represent.
    UnsupportedSchemaEntity,
    /// The model holds a reference that an emitter cannot follow; the index is
    /// that of the first node holding one.
    EmitterError(usize),
}

impl GenError {
    pub open spec fn message_spec(self) -> Seq<char> {
        match self {
            GenError::UnresolvedType => "unresolved type expression"@,
            GenError::MalformedGrammar(Malformed::UnknownFeature) => "malformed grammar: unknown feature gate"@,
            GenError::MalformedGrammar(Malformed::DuplicateNode) => "malformed grammar: duplicate node name"@,
            GenError::MalformedGrammar(Malformed::UnresolvedReference) => "malformed grammar: reference to a missing node"@,
            GenError::MalformedGrammar(Malformed::UnboxedCycle) => "malformed grammar: node contains itself without indirection"@,
            GenError::UnsupportedSchemaEntity => "unsupported schema entity"@,
            GenError::EmitterError(_) => "emitter error: dangling reference in a node"@,
        }
    }

    /// A one-line human-readable description of the error.
    pub fn message(&self) -> (r: String)
        ensures
            r@ == self.message_spec(),
    {
        match self {
            GenError::UnresolvedType => String::from_str("unresolved type expression"),
            GenError::MalformedGrammar(Malformed::UnknownFeature) => String::from_str(
                "malformed grammar: unknown feature gate",
            ),
            GenError::MalformedGrammar(Malformed::DuplicateNode) => String::from_str(
                "malformed grammar: duplicate node name",
            ),
            GenError::MalformedGrammar(Malformed::UnresolvedReference) => String::from_str(
                "malformed grammar: reference to a missing node",
            ),
            GenError::MalformedGrammar(Malformed::UnboxedCycle) => String::from_str(
                "malformed grammar: node contains itself without indirection",
            ),
            GenError::UnsupportedSchemaEntity => String::from_str("unsupported schema entity"),
            GenError::EmitterError(_) => String::from_str("emitter error: dangling reference in a node"),
        }
    }
}

} // verus!
