//! The grammar model builder.
use vstd::prelude::*;
use crate::error::{GenError, Malformed};
use crate::filter::{
    as_ints, decl_mask, decls_mask, field_mask, fields_mask, kept, kept_indices, lemma_kept, variant_mask,
    variants_mask, check_decl_gates, decl_gates_known,
};
use crate::cycle::{find_unboxed_cycle, has_unboxed_cycle};
use crate::laws::lemma_cycle_determined;
use crate::model::{fields_in_range, node_in_range, payload_in_range, ref_in_range, Body, Field, Grammar, Node, Payload, Variant};
use crate::raw::{BuildConfig, RawBody, RawDecl, RawField, RawPayload, RawType, RawVariant};
use crate::resolve::{
    check_names, check_shape, lemma_name_index_found, names_ok, resolve_type, resolved, shape_ok,
};

verus! {

pub open spec fn fields_shapes_ok(fs: Seq<RawField>) -> bool {
    forall|k: int| 0 <= k < fs.len() ==> shape_ok(#[trigger] fs[k].ty)
}

pub open spec fn payload_shapes_ok(p: RawPayload) -> bool {
    match p {
        RawPayload::Unit => true,
        RawPayload::Single(t) => shape_ok(t),
        RawPayload::Fields(fs) => fields_shapes_ok(fs@),
    }
}

pub open spec fn variants_shapes_ok(vs: Seq<RawVariant>) -> bool {
    forall|k: int| 0 <= k < vs.len() ==> payload_shapes_ok(#[trigger] vs[k].payload)
}

/// Every type expression of the declaration, gated or not, has a known shape.
pub open spec fn decl_shapes_ok(d: RawDecl) -> bool {
    match d.body {
        RawBody::Struct(fs) => fields_shapes_ok(fs@),
        RawBody::Enum(vs) => variants_shapes_ok(vs@),
    }
}

/// No two declarations share a name.
pub open spec fn no_duplicates(ds: Seq<RawDecl>) -> bool {
    forall|i: int, j: int| 0 <= i < j < ds.len() ==> ds[i].name@ != ds[j].name@
}

/// The names of the declarations that the enabled features keep, in order.
pub open spec fn eligible_names(ds: Seq<RawDecl>, enabled: Seq<String>) -> Seq<String> {
    let idx = kept(decl_mask(ds, enabled));
    Seq::new(idx.len(), |i: int| ds[idx[i] as int].name)
}

pub open spec fn fields_names_ok(
    fs: Seq<RawField>,
    enabled: Seq<String>,
    leaves: Seq<String>,
    names: Seq<String>,
) -> bool {
    let idx = kept(field_mask(fs, enabled));
    forall|k: int| 0 <= k < idx.len() ==> names_ok(fs[#[trigger] idx[k] as int].ty, leaves, names)
}

pub open spec fn payload_names_ok(
    p: RawPayload,
    enabled: Seq<String>,
    leaves: Seq<String>,
    names: Seq<String>,
) -> bool {
    match p {
        RawPayload::Unit => true,
        RawPayload::Single(t) => names_ok(t, leaves, names),
        RawPayload::Fields(fs) => fields_names_ok(fs@, enabled, leaves, names),
    }
}

pub open spec fn variants_names_ok(
    vs: Seq<RawVariant>,
    enabled: Seq<String>,
    leaves: Seq<String>,
    names: Seq<String>,
) -> bool {
    let idx = kept(variant_mask(vs, enabled));
    forall|k: int|
        0 <= k < idx.len() ==> payload_names_ok(
            vs[#[trigger] idx[k] as int].payload,
            enabled,
            leaves,
            names,
        )
}

/// Every kept type expression of the declaration names a leaf or a kept node.
pub open spec fn decl_names_ok(
    d: RawDecl,
    enabled: Seq<String>,
    leaves: Seq<String>,
    names: Seq<String>,
) -> bool {
    match d.body {
        RawBody::Struct(fs) => fields_names_ok(fs@, enabled, leaves, names),
        RawBody::Enum(vs) => variants_names_ok(vs@, enabled, leaves, names),
    }
}

/// `fs` holds the kept raw fields, in order, with their resolved types.
pub open spec fn fields_match(
    raw: Seq<RawField>,
    enabled: Seq<String>,
    leaves: Seq<String>,
    names: Seq<String>,
    fs: Seq<Field>,
) -> bool {
    let idx = kept(field_mask(raw, enabled));
    &&& fs.len() == idx.len()
    &&& forall|k: int|
        0 <= k < fs.len() ==> (#[trigger] fs[k]).name == raw[idx[k] as int].name && fs[k].ty
            == resolved(raw[idx[k] as int].ty, leaves, names)
}

pub open spec fn payload_matches(
    raw: RawPayload,
    enabled: Seq<String>,
    leaves: Seq<String>,
    names: Seq<String>,
    p: Payload,
) -> bool {
    match (raw, p) {
        (RawPayload::Unit, Payload::Unit) => true,
        (RawPayload::Single(t), Payload::Single(x)) => x == resolved(t, leaves, names),
        (RawPayload::Fields(rf), Payload::Fields(fs)) => fields_match(
            rf@,
            enabled,
            leaves,
            names,
            fs@,
        ),
        _ => false,
    }
}

/// `vs` holds the kept raw variants, in order, with their resolved payloads.
pub open spec fn variants_match(
    raw: Seq<RawVariant>,
    enabled: Seq<String>,
    leaves: Seq<String>,
    names: Seq<String>,
    vs: Seq<Variant>,
) -> bool {
    let idx = kept(variant_mask(raw, enabled));
    &&& vs.len() == idx.len()
    &&& forall|k: int|
        0 <= k < vs.len() ==> (#[trigger] vs[k]).name == raw[idx[k] as int].name
            && payload_matches(raw[idx[k] as int].payload, enabled, leaves, names, vs[k].payload)
}

/// `n` is the model node of declaration `d`.
pub open spec fn node_matches(
    d: RawDecl,
    enabled: Seq<String>,
    leaves: Seq<String>,
    names: Seq<String>,
    n: Node,
) -> bool {
    &&& n.name == d.name
    &&& n.leaf_like == d.leaf_like
    &&& match (d.body, n.body) {
        (RawBody::Struct(rf), Body::Struct(fs)) => fields_match(rf@, enabled, leaves, names, fs@),
        (RawBody::Enum(rv), Body::Enum(vs)) => variants_match(rv@, enabled, leaves, names, vs@),
        _ => false,
    }
}

/// `g` is the model of the declarations under the configuration: one node per
/// kept declaration, in declaration order.
pub open spec fn model_of(ds: Seq<RawDecl>, cfg: BuildConfig, g: Grammar) -> bool {
    let enabled = cfg.enabled@;
    let idx = kept(decl_mask(ds, enabled));
    let names = eligible_names(ds, enabled);
    &&& g.leaves@ == cfg.leaves@
    &&& g.nodes@.len() == idx.len()
    &&& forall|i: int|
        0 <= i < g.nodes@.len() ==> node_matches(
            ds[idx[i] as int],
            enabled,
            cfg.leaves@,
            names,
            #[trigger] g.nodes@[i],
        )
}

pub proof fn lemma_resolved_in_range(t: RawType, leaves: Seq<String>, names: Seq<String>)
    requires
        names_ok(t, leaves, names),
    ensures
        ref_in_range(resolved(t, leaves, names), names.len(), leaves.len()),
    decreases t,
{
    match t {
        RawType::Path(n) => {
            lemma_name_index_found(leaves, n@);
            lemma_name_index_found(names, n@);
        },
        RawType::Apply1(_, a) => lemma_resolved_in_range(*a, leaves, names),
        RawType::Apply2(_, a, b) => {
            lemma_resolved_in_range(*a, leaves, names);
            match *b {
                RawType::Path(s) => lemma_name_index_found(leaves, s@),
                _ => {},
            }
        },
    }
}

fn check_fields_shapes(fs: &Vec<RawField>) -> (r: bool)
    ensures
        r == fields_shapes_ok(fs@),
{
    let mut i: usize = 0;
    while i < fs.len()
        invariant
            0 <= i <= fs@.len(),
            forall|k: int| 0 <= k < i ==> shape_ok(#[trigger] fs@[k].ty),
        decreases fs@.len() - i,
    {
        if !check_shape(&fs[i].ty) {
            return false;
        }
        i = i + 1;
    }
    true
}

fn check_payload_shapes(p: &RawPayload) -> (r: bool)
    ensures
        r == payload_shapes_ok(*p),
{
    match p {
        RawPayload::Unit => true,
        RawPayload::Single(t) => check_shape(t),
        RawPayload::Fields(fs) => check_fields_shapes(fs),
    }
}

fn check_variants_shapes(vs: &Vec<RawVariant>) -> (r: bool)
    ensures
        r == variants_shapes_ok(vs@),
{
    let mut i: usize = 0;
    while i < vs.len()
        invariant
            0 <= i <= vs@.len(),
            forall|k: int| 0 <= k < i ==> payload_shapes_ok(#[trigger] vs@[k].payload),
        decreases vs@.len() - i,
    {
        if !check_payload_shapes(&vs[i].payload) {
            return false;
        }
        i = i + 1;
    }
    true
}

/// Whether every type expression of the declaration has a known shape.
pub fn check_decl_shapes(d: &RawDecl) -> (r: bool)
    ensures
        r == decl_shapes_ok(*d),
{
    match &d.body {
        RawBody::Struct(fs) => check_fields_shapes(fs),
        RawBody::Enum(vs) => check_variants_shapes(vs),
    }
}

/// Whether two declarations share a name.
pub fn has_duplicate(ds: &Vec<RawDecl>) -> (r: bool)
    ensures
        r == !no_duplicates(ds@),
{
    let mut j: usize = 0;
    while j < ds.len()
        invariant
            0 <= j <= ds@.len(),
            forall|a: int, b: int| 0 <= a < b < j ==> ds@[a].name@ != ds@[b].name@,
        decreases ds@.len() - j,
    {
        let mut i: usize = 0;
        while i < j
            invariant
                0 <= i <= j < ds@.len(),
                forall|a: int, b: int| 0 <= a < b < j ==> ds@[a].name@ != ds@[b].name@,
                forall|a: int| 0 <= a < i ==> ds@[a].name@ != ds@[j as int].name@,
            decreases j - i,
        {
            if ds[i].name == ds[j].name {
                return true;
            }
            i = i + 1;
        }
        j = j + 1;
    }
    false
}

fn resolve_fields(
    raw: &Vec<RawField>,
    enabled: &Vec<String>,
    leaves: &Vec<String>,
    names: &Vec<String>,
) -> (r: Option<Vec<Field>>)
    requires
        fields_shapes_ok(raw@),
    ensures
        match r {
            Some(fs) => fields_names_ok(raw@, enabled@, leaves@, names@) && fields_match(
                raw@,
                enabled@,
                leaves@,
                names@,
                fs@,
            ),
            None => !fields_names_ok(raw@, enabled@, leaves@, names@),
        },
{
    let mask = fields_mask(raw, enabled);
    let idx = kept_indices(&mask);
    let mut out: Vec<Field> = Vec::new();
    let mut k: usize = 0;
    while k < idx.len()
        invariant
            as_ints(idx@) == kept(field_mask(raw@, enabled@)),
            mask@ == field_mask(raw@, enabled@),
            forall|j: int| 0 <= j < idx@.len() ==> (#[trigger] idx@[j]) < raw@.len(),
            fields_shapes_ok(raw@),
            0 <= k <= idx@.len(),
            out@.len() == k,
            forall|j: int|
                0 <= j < k ==> names_ok(raw@[#[trigger] idx@[j] as int].ty, leaves@, names@),
            forall|j: int|
                0 <= j < k ==> (#[trigger] out@[j]).name == raw@[idx@[j] as int].name && out@[j].ty
                    == resolved(raw@[idx@[j] as int].ty, leaves@, names@),
        decreases idx@.len() - k,
    {
        let i = idx[k];
        assert(shape_ok(raw@[i as int].ty));
        match resolve_type(&raw[i].ty, leaves, names) {
            Ok(t) => {
                out.push(Field { name: raw[i].name.clone(), ty: t });
            },
            Err(_) => {
                assert(as_ints(idx@)[k as int] == idx@[k as int] as int);
                assert(!names_ok(
                    raw@[kept(field_mask(raw@, enabled@))[k as int]].ty,
                    leaves@,
                    names@,
                ));
                return None;
            },
        }
        k = k + 1;
    }
    Some(out)
}

fn resolve_payload(
    raw: &RawPayload,
    enabled: &Vec<String>,
    leaves: &Vec<String>,
    names: &Vec<String>,
) -> (r: Option<Payload>)
    requires
        payload_shapes_ok(*raw),
    ensures
        match r {
            Some(p) => payload_names_ok(*raw, enabled@, leaves@, names@) && payload_matches(
                *raw,
                enabled@,
                leaves@,
                names@,
                p,
            ),
            None => !payload_names_ok(*raw, enabled@, leaves@, names@),
        },
{
    match raw {
        RawPayload::Unit => Some(Payload::Unit),
        RawPayload::Single(t) => match resolve_type(t, leaves, names) {
            Ok(x) => Some(Payload::Single(x)),
            Err(_) => None,
        },
        RawPayload::Fields(fs) => match resolve_fields(fs, enabled, leaves, names) {
            Some(x) => Some(Payload::Fields(x)),
            None => None,
        },
    }
}

fn resolve_variants(
    raw: &Vec<RawVariant>,
    enabled: &Vec<String>,
    leaves: &Vec<String>,
    names: &Vec<String>,
) -> (r: Option<Vec<Variant>>)
    requires
        variants_shapes_ok(raw@),
    ensures
        match r {
            Some(vs) => variants_names_ok(raw@, enabled@, leaves@, names@) && variants_match(
                raw@,
                enabled@,
                leaves@,
                names@,
                vs@,
            ),
            None => !variants_names_ok(raw@, enabled@, leaves@, names@),
        },
{
    let mask = variants_mask(raw, enabled);
    let idx = kept_indices(&mask);
    let mut out: Vec<Variant> = Vec::new();
    let mut k: usize = 0;
    while k < idx.len()
        invariant
            as_ints(idx@) == kept(variant_mask(raw@, enabled@)),
            mask@ == variant_mask(raw@, enabled@),
            forall|j: int| 0 <= j < idx@.len() ==> (#[trigger] idx@[j]) < raw@.len(),
            variants_shapes_ok(raw@),
            0 <= k <= idx@.len(),
            out@.len() == k,
            forall|j: int|
                0 <= j < k ==> payload_names_ok(
                    raw@[#[trigger] idx@[j] as int].payload,
                    enabled@,
                    leaves@,
                    names@,
                ),
            forall|j: int|
                0 <= j < k ==> (#[trigger] out@[j]).name == raw@[idx@[j] as int].name
                    && payload_matches(
                    raw@[idx@[j] as int].payload,
                    enabled@,
                    leaves@,
                    names@,
                    out@[j].payload,
                ),
        decreases idx@.len() - k,
    {
        let i = idx[k];
        assert(payload_shapes_ok(raw@[i as int].payload));
        match resolve_payload(&raw[i].payload, enabled, leaves, names) {
            Some(p) => {
                out.push(Variant { name: raw[i].name.clone(), payload: p });
            },
            None => {
                assert(as_ints(idx@)[k as int] == idx@[k as int] as int);
                assert(!payload_names_ok(
                    raw@[kept(variant_mask(raw@, enabled@))[k as int]].payload,
                    enabled@,
                    leaves@,
                    names@,
                ));
                return None;
            },
        }
        k = k + 1;
    }
    Some(out)
}

/// Resolves one declaration into its model node, keeping only the enabled
/// fields and variants.
pub fn build_node(
    d: &RawDecl,
    enabled: &Vec<String>,
    leaves: &Vec<String>,
    names: &Vec<String>,
) -> (r: Option<Node>)
    requires
        decl_shapes_ok(*d),
    ensures
        match r {
            Some(n) => decl_names_ok(*d, enabled@, leaves@, names@) && node_matches(
                *d,
                enabled@,
                leaves@,
                names@,
                n,
            ),
            None => !decl_names_ok(*d, enabled@, leaves@, names@),
        },
{
    let body = match &d.body {
        RawBody::Struct(fs) => Body::Struct(resolve_fields(fs, enabled, leaves, names)?),
        RawBody::Enum(vs) => Body::Enum(resolve_variants(vs, enabled, leaves, names)?),
    };
    Some(Node { name: d.name.clone(), body, leaf_like: d.leaf_like })
}

proof fn lemma_fields_in_range(
    raw: Seq<RawField>,
    enabled: Seq<String>,
    leaves: Seq<String>,
    names: Seq<String>,
    fs: Seq<Field>,
)
    requires
        fields_names_ok(raw, enabled, leaves, names),
        fields_match(raw, enabled, leaves, names, fs),
    ensures
        fields_in_range(fs, names.len(), leaves.len()),
{
    let idx = kept(field_mask(raw, enabled));
    lemma_kept(field_mask(raw, enabled));
    assert forall|k: int| 0 <= k < fs.len() implies ref_in_range(
        #[trigger] fs[k].ty,
        names.len(),
        leaves.len(),
    ) by {
        assert(names_ok(raw[idx[k] as int].ty, leaves, names));
        lemma_resolved_in_range(raw[idx[k] as int].ty, leaves, names);
    }
}

pub proof fn lemma_node_in_range(
    d: RawDecl,
    enabled: Seq<String>,
    leaves: Seq<String>,
    names: Seq<String>,
    n: Node,
)
    requires
        decl_names_ok(d, enabled, leaves, names),
        node_matches(d, enabled, leaves, names, n),
    ensures
        node_in_range(n, names.len(), leaves.len()),
{
    match (d.body, n.body) {
        (RawBody::Struct(rf), Body::Struct(fs)) => {
            lemma_fields_in_range(rf@, enabled, leaves, names, fs@);
        },
        (RawBody::Enum(rv), Body::Enum(vs)) => {
            let idx = kept(variant_mask(rv@, enabled));
            lemma_kept(variant_mask(rv@, enabled));
            assert forall|k: int| 0 <= k < vs@.len() implies payload_in_range(
                #[trigger] vs@[k].payload,
                names.len(),
                leaves.len(),
            ) by {
                let rp = rv@[idx[k] as int].payload;
                assert(payload_names_ok(rp, enabled, leaves, names));
                assert(payload_matches(rp, enabled, leaves, names, vs@[k].payload));
                match (rp, vs@[k].payload) {
                    (RawPayload::Single(t), Payload::Single(_)) => {
                        lemma_resolved_in_range(t, leaves, names);
                    },
                    (RawPayload::Fields(rf), Payload::Fields(fs)) => {
                        lemma_fields_in_range(rf@, enabled, leaves, names, fs@);
                    },
                    _ => {},
                }
            }
        },
        _ => {},
    }
}

/// The names of all declarations, kept or not, in order.
pub open spec fn declared_names(ds: Seq<RawDecl>) -> Seq<String> {
    Seq::new(ds.len(), |i: int| ds[i].name)
}

pub open spec fn fields_declared_ok(fs: Seq<RawField>, leaves: Seq<String>, names: Seq<String>) -> bool {
    forall|k: int| 0 <= k < fs.len() ==> names_ok(#[trigger] fs[k].ty, leaves, names)
}

pub open spec fn payload_declared_ok(p: RawPayload, leaves: Seq<String>, names: Seq<String>) -> bool {
    match p {
        RawPayload::Unit => true,
        RawPayload::Single(t) => names_ok(t, leaves, names),
        RawPayload::Fields(fs) => fields_declared_ok(fs@, leaves, names),
    }
}

pub open spec fn variants_declared_ok(vs: Seq<RawVariant>, leaves: Seq<String>, names: Seq<String>) -> bool {
    forall|k: int| 0 <= k < vs.len() ==> payload_declared_ok(#[trigger] vs[k].payload, leaves, names)
}

/// Every type expression of the declaration, gated or not, names a leaf or a
/// declared node.
pub open spec fn decl_declared_ok(d: RawDecl, leaves: Seq<String>, names: Seq<String>) -> bool {
    match d.body {
        RawBody::Struct(fs) => fields_declared_ok(fs@, leaves, names),
        RawBody::Enum(vs) => variants_declared_ok(vs@, leaves, names),
    }
}

fn check_fields_declared(fs: &Vec<RawField>, leaves: &Vec<String>, names: &Vec<String>) -> (r: bool)
    ensures
        r == fields_declared_ok(fs@, leaves@, names@),
{
    let mut i: usize = 0;
    while i < fs.len()
        invariant
            0 <= i <= fs@.len(),
            forall|k: int| 0 <= k < i ==> names_ok(#[trigger] fs@[k].ty, leaves@, names@),
        decreases fs@.len() - i,
    {
        if !check_names(&fs[i].ty, leaves, names) {
            return false;
        }
        i = i + 1;
    }
    true
}

fn check_payload_declared(p: &RawPayload, leaves: &Vec<String>, names: &Vec<String>) -> (r: bool)
    ensures
        r == payload_declared_ok(*p, leaves@, names@),
{
    match p {
        RawPayload::Unit => true,
        RawPayload::Single(t) => check_names(t, leaves, names),
        RawPayload::Fields(fs) => check_fields_declared(fs, leaves, names),
    }
}

fn check_variants_declared(vs: &Vec<RawVariant>, leaves: &Vec<String>, names: &Vec<String>) -> (r: bool)
    ensures
        r == variants_declared_ok(vs@, leaves@, names@),
{
    let mut i: usize = 0;
    while i < vs.len()
        invariant
            0 <= i <= vs@.len(),
            forall|k: int| 0 <= k < i ==> payload_declared_ok(#[trigger] vs@[k].payload, leaves@, names@),
        decreases vs@.len() - i,
    {
        if !check_payload_declared(&vs[i].payload, leaves, names) {
            return false;
        }
        i = i + 1;
    }
    true
}

/// Whether every type expression of the declaration, gated or not, names a
/// leaf or a declared node.
pub fn check_decl_declared(d: &RawDecl, leaves: &Vec<String>, names: &Vec<String>) -> (r: bool)
    ensures
        r == decl_declared_ok(*d, leaves@, names@),
{
    match &d.body {
        RawBody::Struct(fs) => check_fields_declared(fs, leaves, names),
        RawBody::Enum(vs) => check_variants_declared(vs, leaves, names),
    }
}

/// What a build fails with before its cycle check, if anything: an unknown
/// feature gate, then a duplicate name, then an unknown wrapper shape, then a
/// reference, gated or not, that names neither a leaf nor a declared node,
/// then a kept reference to a node that the features exclude.
pub open spec fn precheck(ds: Seq<RawDecl>, cfg: BuildConfig) -> Option<GenError> {
    let enabled = cfg.enabled@;
    let idx = kept(decl_mask(ds, enabled));
    if !(forall|i: int| 0 <= i < ds.len() ==> decl_gates_known(#[trigger] ds[i], cfg.features@)) {
        Some(GenError::MalformedGrammar(Malformed::UnknownFeature))
    } else if !no_duplicates(ds) {
        Some(GenError::MalformedGrammar(Malformed::DuplicateNode))
    } else if !(forall|i: int| 0 <= i < ds.len() ==> decl_shapes_ok(#[trigger] ds[i])) {
        Some(GenError::UnresolvedType)
    } else if !(forall|i: int|
        0 <= i < ds.len() ==> decl_declared_ok(#[trigger] ds[i], cfg.leaves@, declared_names(ds))) {
        Some(GenError::MalformedGrammar(Malformed::UnresolvedReference))
    } else if !(forall|i: int|
        0 <= i < idx.len() ==> decl_names_ok(
            ds[#[trigger] idx[i] as int],
            enabled,
            cfg.leaves@,
            eligible_names(ds, enabled),
        )) {
        Some(GenError::MalformedGrammar(Malformed::UnresolvedReference))
    } else {
        None
    }
}

fn copy_names(v: &Vec<String>) -> (r: Vec<String>)
    ensures
        r@ == v@,
{
    let mut out: Vec<String> = Vec::new();
    let mut i: usize = 0;
    while i < v.len()
        invariant
            0 <= i <= v@.len(),
            out@ =~= v@.take(i as int),
        decreases v@.len() - i,
    {
        out.push(v[i].clone());
        i = i + 1;
    }
    assert(out@ =~= v@);
    out
}

/// Builds the grammar model: checks the feature gates, registers every name,
/// checks every type expression's shape, keeps the enabled declarations,
/// fields and variants, resolves their references against the kept names, and
/// rejects a node that contains itself inline.
pub fn build_model(ds: &Vec<RawDecl>, cfg: &BuildConfig) -> (r: Result<Grammar, GenError>)
    ensures
        match r {
            Ok(g) => {
                &&& precheck(ds@, *cfg) is None
                &&& model_of(ds@, *cfg, g)
                &&& g.closed()
                &&& !has_unboxed_cycle(g)
            },
            Err(e) => precheck(ds@, *cfg) == Some(e) || (precheck(ds@, *cfg) is None && e
                == GenError::MalformedGrammar(Malformed::UnboxedCycle) && (exists|g: Grammar|
                model_of(ds@, *cfg, g)) && forall|g: Grammar|
                model_of(ds@, *cfg, g) ==> has_unboxed_cycle(g)),
        },
{
    let mut i: usize = 0;
    while i < ds.len()
        invariant
            0 <= i <= ds@.len(),
            forall|j: int| 0 <= j < i ==> decl_gates_known(#[trigger] ds@[j], cfg.features@),
        decreases ds@.len() - i,
    {
        if !check_decl_gates(&ds[i], &cfg.features) {
            return Err(GenError::MalformedGrammar(Malformed::UnknownFeature));
        }
        i = i + 1;
    }
    if has_duplicate(ds) {
        return Err(GenError::MalformedGrammar(Malformed::DuplicateNode));
    }
    let mut i: usize = 0;
    while i < ds.len()
        invariant
            forall|j: int| 0 <= j < ds@.len() ==> decl_gates_known(#[trigger] ds@[j], cfg.features@),
            no_duplicates(ds@),
            0 <= i <= ds@.len(),
            forall|j: int| 0 <= j < i ==> decl_shapes_ok(#[trigger] ds@[j]),
        decreases ds@.len() - i,
    {
        if !check_decl_shapes(&ds[i]) {
            assert(!decl_shapes_ok(ds@[i as int]));
            return Err(GenError::UnresolvedType);
        }
        i = i + 1;
    }
    let mut declared: Vec<String> = Vec::new();
    let mut i: usize = 0;
    while i < ds.len()
        invariant
            0 <= i <= ds@.len(),
            declared@ =~= declared_names(ds@).take(i as int),
        decreases ds@.len() - i,
    {
        declared.push(ds[i].name.clone());
        i = i + 1;
    }
    assert(declared@ =~= declared_names(ds@));
    let mut i: usize = 0;
    while i < ds.len()
        invariant
            forall|j: int| 0 <= j < ds@.len() ==> decl_gates_known(#[trigger] ds@[j], cfg.features@),
            no_duplicates(ds@),
            forall|j: int| 0 <= j < ds@.len() ==> decl_shapes_ok(#[trigger] ds@[j]),
            declared@ == declared_names(ds@),
            0 <= i <= ds@.len(),
            forall|j: int| 0 <= j < i ==> decl_declared_ok(#[trigger] ds@[j], cfg.leaves@, declared@),
        decreases ds@.len() - i,
    {
        if !check_decl_declared(&ds[i], &cfg.leaves, &declared) {
            assert(!decl_declared_ok(ds@[i as int], cfg.leaves@, declared@));
            return Err(GenError::MalformedGrammar(Malformed::UnresolvedReference));
        }
        i = i + 1;
    }
    let mask = decls_mask(ds, &cfg.enabled);
    let idx = kept_indices(&mask);
    let ghost enabled = cfg.enabled@;
    let ghost names_spec = eligible_names(ds@, enabled);
    let mut names: Vec<String> = Vec::new();
    let mut k: usize = 0;
    while k < idx.len()
        invariant
            as_ints(idx@) == kept(decl_mask(ds@, enabled)),
            enabled == cfg.enabled@,
            forall|j: int| 0 <= j < idx@.len() ==> (#[trigger] idx@[j]) < ds@.len(),
            0 <= k <= idx@.len(),
            names@ =~= names_spec.take(k as int),
            names_spec == eligible_names(ds@, enabled),
        decreases idx@.len() - k,
    {
        names.push(ds[idx[k]].name.clone());
        k = k + 1;
    }
    assert(names@ =~= names_spec);
    let mut nodes: Vec<Node> = Vec::new();
    let mut k: usize = 0;
    while k < idx.len()
        invariant
            as_ints(idx@) == kept(decl_mask(ds@, enabled)),
            enabled == cfg.enabled@,
            forall|j: int| 0 <= j < idx@.len() ==> (#[trigger] idx@[j]) < ds@.len(),
            forall|j: int| 0 <= j < ds@.len() ==> decl_gates_known(#[trigger] ds@[j], cfg.features@),
            no_duplicates(ds@),
            forall|j: int| 0 <= j < ds@.len() ==> decl_shapes_ok(#[trigger] ds@[j]),
            forall|j: int|
                0 <= j < ds@.len() ==> decl_declared_ok(
                    #[trigger] ds@[j],
                    cfg.leaves@,
                    declared_names(ds@),
                ),
            names@ == eligible_names(ds@, enabled),
            0 <= k <= idx@.len(),
            nodes@.len() == k,
            forall|j: int|
                0 <= j < k ==> decl_names_ok(
                    ds@[#[trigger] idx@[j] as int],
                    enabled,
                    cfg.leaves@,
                    names@,
                ),
            forall|j: int|
                0 <= j < k ==> node_matches(
                    ds@[idx@[j] as int],
                    enabled,
                    cfg.leaves@,
                    names@,
                    #[trigger] nodes@[j],
                ),
        decreases idx@.len() - k,
    {
        let d = &ds[idx[k]];
        assert(decl_shapes_ok(ds@[idx@[k as int] as int]));
        match build_node(d, &cfg.enabled, &cfg.leaves, &names) {
            Some(n) => nodes.push(n),
            None => {
                assert(as_ints(idx@)[k as int] == idx@[k as int] as int);
                assert(!decl_names_ok(
                    ds@[kept(decl_mask(ds@, enabled))[k as int]],
                    enabled,
                    cfg.leaves@,
                    names@,
                ));
                return Err(GenError::MalformedGrammar(Malformed::UnresolvedReference));
            },
        }
        k = k + 1;
    }
    let g = Grammar { nodes, leaves: copy_names(&cfg.leaves) };
    assert(precheck(ds@, *cfg) is None);
    assert(model_of(ds@, *cfg, g));
    proof {
        assert forall|i: int| 0 <= i < g.nodes@.len() implies node_in_range(
            #[trigger] g.nodes@[i],
            g.nodes@.len(),
            g.leaves@.len(),
        ) by {
            lemma_node_in_range(
                ds@[idx@[i] as int],
                enabled,
                cfg.leaves@,
                names@,
                g.nodes@[i],
            );
        }
    }
    if find_unboxed_cycle(&g) {
        assert forall|h: Grammar| model_of(ds@, *cfg, h) implies has_unboxed_cycle(h) by {
            lemma_cycle_determined(ds@, *cfg, g, h);
        }
        return Err(GenError::MalformedGrammar(Malformed::UnboxedCycle));
    }
    Ok(g)
}

} // verus!
