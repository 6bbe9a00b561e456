//! The type reference resolver: from a raw type expression to a `TypeRef`.
use vstd::prelude::*;
use vstd::string::*;
use crate::error::{GenError, Malformed};
use crate::model::TypeRef;
use crate::raw::RawType;

verus! {

/// The first index at which `names` holds `n`.
pub open spec fn name_index(names: Seq<String>, n: Seq<char>) -> Option<nat>
    decreases names.len(),
{
    if names.len() == 0 {
        None
    } else {
        match name_index(names.drop_last(), n) {
            Some(k) => Some(k),
            None => if names.last()@ == n {
                Some((names.len() - 1) as nat)
            } else {
                None
            },
        }
    }
}

pub proof fn lemma_name_index_found(names: Seq<String>, n: Seq<char>)
    ensures
        name_index(names, n) is Some <==> exists|j: int| 0 <= j < names.len() && names[j]@ == n,
        name_index(names, n) matches Some(k) ==> k < names.len() && names[k as int]@ == n,
    decreases names.len(),
{
    if names.len() > 0 {
        lemma_name_index_found(names.drop_last(), n);
        if name_index(names, n) is None {
            assert forall|j: int| 0 <= j < names.len() implies names[j]@ != n by {
                if j < names.len() - 1 {
                    assert(names.drop_last()[j] == names[j]);
                }
            }
        } else {
            let k = name_index(names, n)->0;
            if name_index(names.drop_last(), n) is Some {
                assert(names.drop_last()[k as int] == names[k as int]);
            }
        }
    }
}

proof fn lemma_name_index_prefix(names: Seq<String>, n: Seq<char>, j: int)
    requires
        0 <= j <= names.len(),
        name_index(names.take(j), n) is Some,
    ensures
        name_index(names, n) == name_index(names.take(j), n),
    decreases names.len(),
{
    if j < names.len() {
        assert(names.drop_last().take(j) =~= names.take(j));
        lemma_name_index_prefix(names.drop_last(), n, j);
    } else {
        assert(names.take(j) =~= names);
    }
}

/// Looks `n` up in `names`.
pub fn find_name(names: &Vec<String>, n: &String) -> (r: Option<usize>)
    ensures
        match r {
            Some(k) => name_index(names@, n@) == Some(k as nat),
            None => name_index(names@, n@) is None,
        },
{
    let mut i: usize = 0;
    while i < names.len()
        invariant
            0 <= i <= names@.len(),
            name_index(names@.take(i as int), n@) is None,
        decreases names@.len() - i,
    {
        assert(names@.take(i as int + 1).drop_last() =~= names@.take(i as int));
        if names[i] == *n {
            proof {
                lemma_name_index_prefix(names@, n@, i as int + 1);
            }
            return Some(i);
        }
        i = i + 1;
    }
    assert(names@.take(i as int) =~= names@);
    None
}

/// Whether `s` spells the word `w`.
pub fn is_word(s: &String, w: &str) -> (r: bool)
    ensures
        r == (s@ == w@),
{
    let a = s.as_str();
    let n = a.unicode_len();
    if n != w.unicode_len() {
        return false;
    }
    let mut i: usize = 0;
    while i < n
        invariant
            n == a@.len(),
            n == w@.len(),
            a@ == s@,
            0 <= i <= n,
            forall|j: int| 0 <= j < i ==> a@[j] == w@[j],
        decreases n - i,
    {
        if a.get_char(i) != w.get_char(i) {
            return false;
        }
        i = i + 1;
    }
    assert(a@ =~= w@);
    true
}

/// The wrapper heads applied to one argument.
pub open spec fn is_unary_head(h: Seq<char>) -> bool {
    h == "Option"@ || h == "Vec"@ || h == "Box"@
}

/// The raw expression has a known wrapper shape at every level.
pub open spec fn shape_ok(t: RawType) -> bool
    decreases t,
{
    match t {
        RawType::Path(_) => true,
        RawType::Apply1(h, a) => is_unary_head(h@) && shape_ok(*a),
        RawType::Apply2(h, a, b) => h@ == "Punctuated"@ && shape_ok(*a) && (*b) is Path,
    }
}

/// Every name in the expression is a leaf or a node of `nodes`; a separator is a leaf.
pub open spec fn names_ok(t: RawType, leaves: Seq<String>, nodes: Seq<String>) -> bool
    decreases t,
{
    match t {
        RawType::Path(n) => name_index(leaves, n@) is Some || name_index(nodes, n@) is Some,
        RawType::Apply1(_, a) => names_ok(*a, leaves, nodes),
        RawType::Apply2(_, a, b) => names_ok(*a, leaves, nodes) && match *b {
            RawType::Path(s) => name_index(leaves, s@) is Some,
            _ => false,
        },
    }
}

/// The reference that a well-shaped, well-named expression resolves to. A name
/// that is a leaf resolves to the leaf.
pub open spec fn resolved(t: RawType, leaves: Seq<String>, nodes: Seq<String>) -> TypeRef
    decreases t,
{
    match t {
        RawType::Path(n) => match name_index(leaves, n@) {
            Some(k) => TypeRef::Leaf(k as usize),
            None => TypeRef::Node(name_index(nodes, n@).unwrap_or(0) as usize),
        },
        RawType::Apply1(h, a) => {
            let inner = Box::new(resolved(*a, leaves, nodes));
            if h@ == "Option"@ {
                TypeRef::Optional(inner)
            } else if h@ == "Vec"@ {
                TypeRef::Sequence(inner)
            } else {
                TypeRef::Boxed(inner)
            }
        },
        RawType::Apply2(_, a, b) => TypeRef::Separated(
            Box::new(resolved(*a, leaves, nodes)),
            match *b {
                RawType::Path(s) => name_index(leaves, s@).unwrap_or(0) as usize,
                _ => 0,
            },
        ),
    }
}

/// What resolving `t` against leaf names and node names gives.
pub open spec fn resolve_spec(t: RawType, leaves: Seq<String>, nodes: Seq<String>) -> Result<
    TypeRef,
    GenError,
> {
    if !shape_ok(t) {
        Err(GenError::UnresolvedType)
    } else if !names_ok(t, leaves, nodes) {
        Err(GenError::MalformedGrammar(Malformed::UnresolvedReference))
    } else {
        Ok(resolved(t, leaves, nodes))
    }
}

/// Checks the wrapper shapes of `t`.
pub fn check_shape(t: &RawType) -> (r: bool)
    ensures
        r == shape_ok(*t),
    decreases t,
{
    match t {
        RawType::Path(_) => true,
        RawType::Apply1(h, a) => (is_word(h, "Option") || is_word(h, "Vec") || is_word(h, "Box"))
            && check_shape(a),
        RawType::Apply2(h, a, b) => is_word(h, "Punctuated") && check_shape(a) && match &**b {
            RawType::Path(_) => true,
            _ => false,
        },
    }
}

fn resolve_names(t: &RawType, leaves: &Vec<String>, nodes: &Vec<String>) -> (r: Option<TypeRef>)
    requires
        shape_ok(*t),
    ensures
        match r {
            Some(x) => names_ok(*t, leaves@, nodes@) && x == resolved(*t, leaves@, nodes@),
            None => !names_ok(*t, leaves@, nodes@),
        },
    decreases t,
{
    match t {
        RawType::Path(n) => match find_name(leaves, n) {
            Some(k) => Some(TypeRef::Leaf(k)),
            None => match find_name(nodes, n) {
                Some(k) => Some(TypeRef::Node(k)),
                None => None,
            },
        },
        RawType::Apply1(h, a) => {
            let inner = resolve_names(a, leaves, nodes)?;
            if is_word(h, "Option") {
                Some(TypeRef::Optional(Box::new(inner)))
            } else if is_word(h, "Vec") {
                Some(TypeRef::Sequence(Box::new(inner)))
            } else {
                Some(TypeRef::Boxed(Box::new(inner)))
            }
        },
        RawType::Apply2(_, a, b) => {
            let inner = resolve_names(a, leaves, nodes)?;
            match &**b {
                RawType::Path(s) => match find_name(leaves, s) {
                    Some(k) => Some(TypeRef::Separated(Box::new(inner), k)),
                    None => None,
                },
                _ => None,
            }
        },
    }
}

/// Resolves a raw type expression: wrappers are unwrapped down to a bare name,
/// which is classified as a leaf (by `leaves`) or as a node (by `nodes`).
pub fn resolve_type(t: &RawType, leaves: &Vec<String>, nodes: &Vec<String>) -> (r: Result<
    TypeRef,
    GenError,
>)
    ensures
        r == resolve_spec(*t, leaves@, nodes@),
{
    if !check_shape(t) {
        return Err(GenError::UnresolvedType);
    }
    match resolve_names(t, leaves, nodes) {
        Some(x) => Ok(x),
        None => Err(GenError::MalformedGrammar(Malformed::UnresolvedReference)),
    }
}

/// Checks that every name in `t` is a leaf or a node of `nodes`, and every
/// separator a leaf.
pub fn check_names(t: &RawType, leaves: &Vec<String>, nodes: &Vec<String>) -> (r: bool)
    ensures
        r == names_ok(*t, leaves@, nodes@),
    decreases t,
{
    match t {
        RawType::Path(n) => find_name(leaves, n).is_some() || find_name(nodes, n).is_some(),
        RawType::Apply1(_, a) => check_names(a, leaves, nodes),
        RawType::Apply2(_, a, b) => check_names(a, leaves, nodes) && match &**b {
            RawType::Path(s) => find_name(leaves, s).is_some(),
            _ => false,
        },
    }
}

} // verus!
