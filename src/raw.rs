//! Raw declaration records, as a front end hands them over.
use vstd::prelude::*;

verus! {

/// A raw type expression: a path, possibly applied to one or two arguments.
pub enum RawType {
    /// A bare name such as `Expr` or `Ident`.
    Path(String),
    /// A name applied to one argument, such as `Option<Expr>`.
    Apply1(String, Box<RawType>),
    /// A name applied to two arguments, such as `Punctuated<Expr, Comma>`.
    Apply2(String, Box<RawType>, Box<RawType>),
}

/// A named field with its raw type and an optional feature gate.
pub struct RawField {
    pub name: String,
    pub ty: RawType,
    pub gate: Option<String>,
}

/// The payload of a raw variant.
pub enum RawPayload {
    Unit,
    Single(RawType),
    Fields(Vec<RawField>),
}

/// A named variant with its payload and an optional feature gate.
pub struct RawVariant {
    pub name: String,
    pub payload: RawPayload,
    pub gate: Option<String>,
}

/// The body of a raw declaration.
pub enum RawBody {
    Struct(Vec<RawField>),
    Enum(Vec<RawVariant>),
}

/// One raw node declaration.
pub struct RawDecl {
    pub name: String,
    pub body: RawBody,
    pub gate: Option<String>,
    /// Marks a node with no interesting children (a token marker).
    pub leaf_like: bool,
}

/// What a build is run against: the leaf type names, the declared features,
/// the enabled features and the version stamped into the schema.
pub struct BuildConfig {
    pub leaves: Vec<String>,
    pub features: Vec<String>,
    pub enabled: Vec<String>,
    pub version: String,
}

} // verus!
