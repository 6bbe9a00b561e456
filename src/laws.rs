//! Properties that relate the builder, the exporter and the emitters.
use vstd::prelude::*;
use crate::builder::{
    decl_names_ok, eligible_names, lemma_node_in_range, model_of, node_matches, payload_matches,
    precheck,
};
use crate::cycle::{direct_target, fields_hold, has_unboxed_cycle, holds_inline, payload_holds, reach, step};
use crate::emit::{
    arm_text, artifact_text, arms_text, deref_prefix, field_text, fields_arm, fields_text, fold_expr,
    header, trivial_body,
    method_text, methods_text, node_name, pattern_names, single_arm, struct_body, visit_step, Flavor,
};
use crate::filter::{decl_mask, gate_in, kept, lemma_kept, variant_mask};
use crate::model::{
    fields_in_range, node_in_range, payload_in_range, ref_in_range, Body, Field, Grammar, Node,
    Payload, TypeRef, Variant,
};
use crate::raw::{BuildConfig, RawBody, RawDecl};
use crate::schema::{
    exportable, fields_repr, node_repr, representable, variant_repr,
    fields_json, node_json, nodes_json, payload_json, schema_text, type_json, variant_json,
    variants_json,
};

verus! {

/// Two field lists with the same names and the same types, position by position.
pub open spec fn same_fields(a: Seq<Field>, b: Seq<Field>) -> bool {
    &&& a.len() == b.len()
    &&& forall|k: int| 0 <= k < a.len() ==> (#[trigger] a[k]).name@ == b[k].name@ && a[k].ty == b[k].ty
}

pub open spec fn payload_agree(a: Payload, b: Payload) -> bool {
    match (a, b) {
        (Payload::Unit, Payload::Unit) => true,
        (Payload::Single(s), Payload::Single(t)) => s == t,
        (Payload::Fields(x), Payload::Fields(y)) => same_fields(x@, y@),
        _ => false,
    }
}

pub open spec fn variants_agree(a: Seq<Variant>, b: Seq<Variant>) -> bool {
    &&& a.len() == b.len()
    &&& forall|k: int|
        0 <= k < a.len() ==> (#[trigger] a[k]).name@ == b[k].name@ && payload_agree(
            a[k].payload,
            b[k].payload,
        )
}

pub open spec fn node_agree(a: Node, b: Node) -> bool {
    &&& a.name@ == b.name@
    &&& a.leaf_like == b.leaf_like
    &&& match (a.body, b.body) {
        (Body::Struct(x), Body::Struct(y)) => same_fields(x@, y@),
        (Body::Enum(x), Body::Enum(y)) => variants_agree(x@, y@),
        _ => false,
    }
}

/// Two models with the same nodes, names, fields, variants and references.
pub open spec fn agree(g1: Grammar, g2: Grammar) -> bool {
    &&& g1.nodes@.len() == g2.nodes@.len()
    &&& g1.leaves@ == g2.leaves@
    &&& forall|i: int| 0 <= i < g1.nodes@.len() ==> node_agree(#[trigger] g1.nodes@[i], g2.nodes@[i])
}

/// Any two models of the same declarations under the same configuration agree.
pub proof fn lemma_models_agree(ds: Seq<RawDecl>, cfg: BuildConfig, g1: Grammar, g2: Grammar)
    requires
        model_of(ds, cfg, g1),
        model_of(ds, cfg, g2),
    ensures
        agree(g1, g2),
{
    let enabled = cfg.enabled@;
    let idx = kept(decl_mask(ds, enabled));
    let names = eligible_names(ds, enabled);
    assert forall|i: int| 0 <= i < g1.nodes@.len() implies node_agree(
        #[trigger] g1.nodes@[i],
        g2.nodes@[i],
    ) by {
        let d = ds[idx[i]];
        assert(node_matches(d, enabled, cfg.leaves@, names, g1.nodes@[i]));
        assert(node_matches(d, enabled, cfg.leaves@, names, g2.nodes@[i]));
        match (d.body, g1.nodes@[i].body, g2.nodes@[i].body) {
            (RawBody::Enum(rv), Body::Enum(v1), Body::Enum(v2)) => {
                let vidx = kept(variant_mask(rv@, enabled));
                assert forall|k: int| 0 <= k < v1@.len() implies (#[trigger] v1@[k]).name@
                    == v2@[k].name@ && payload_agree(v1@[k].payload, v2@[k].payload) by {
                    let rp = rv@[vidx[k]].payload;
                    assert(payload_matches(rp, enabled, cfg.leaves@, names, v1@[k].payload));
                    assert(payload_matches(rp, enabled, cfg.leaves@, names, v2@[k].payload));
                }
            },
            _ => {},
        }
    }
}

proof fn lemma_type_json_agree(g1: Grammar, g2: Grammar, t: TypeRef)
    requires
        agree(g1, g2),
        ref_in_range(t, g1.nodes@.len(), g1.leaves@.len()),
    ensures
        type_json(g1, t) == type_json(g2, t),
    decreases t,
{
    match t {
        TypeRef::Node(k) => {
            assert(node_agree(g1.nodes@[k as int], g2.nodes@[k as int]));
        },
        TypeRef::Optional(b) => lemma_type_json_agree(g1, g2, *b),
        TypeRef::Sequence(b) => lemma_type_json_agree(g1, g2, *b),
        TypeRef::Boxed(b) => lemma_type_json_agree(g1, g2, *b),
        TypeRef::Separated(b, _) => lemma_type_json_agree(g1, g2, *b),
        _ => {},
    }
}

proof fn lemma_fields_json_agree(g1: Grammar, g2: Grammar, a: Seq<Field>, b: Seq<Field>)
    requires
        agree(g1, g2),
        same_fields(a, b),
        fields_in_range(a, g1.nodes@.len(), g1.leaves@.len()),
    ensures
        fields_json(g1, a) == fields_json(g2, b),
    decreases a.len(),
{
    if a.len() > 0 {
        let k = a.len() - 1;
        assert(same_fields(a.drop_last(), b.drop_last())) by {
            assert forall|j: int| 0 <= j < a.drop_last().len() implies (#[trigger] a.drop_last()[j]).name@
                == b.drop_last()[j].name@ && a.drop_last()[j].ty == b.drop_last()[j].ty by {
                assert(a[j].name@ == b[j].name@);
            }
        }
        assert(fields_in_range(a.drop_last(), g1.nodes@.len(), g1.leaves@.len())) by {
            assert forall|j: int| 0 <= j < a.drop_last().len() implies ref_in_range(
                #[trigger] a.drop_last()[j].ty,
                g1.nodes@.len(),
                g1.leaves@.len(),
            ) by {
                assert(ref_in_range(a[j].ty, g1.nodes@.len(), g1.leaves@.len()));
            }
        }
        lemma_fields_json_agree(g1, g2, a.drop_last(), b.drop_last());
        assert(a[k].name@ == b[k].name@);
        assert(ref_in_range(a[k].ty, g1.nodes@.len(), g1.leaves@.len()));
        lemma_type_json_agree(g1, g2, a[k].ty);
    }
}

proof fn lemma_variants_json_agree(g1: Grammar, g2: Grammar, a: Seq<Variant>, b: Seq<Variant>)
    requires
        agree(g1, g2),
        variants_agree(a, b),
        forall|i: int|
            0 <= i < a.len() ==> payload_in_range(
                #[trigger] a[i].payload,
                g1.nodes@.len(),
                g1.leaves@.len(),
            ),
    ensures
        variants_json(g1, a) == variants_json(g2, b),
    decreases a.len(),
{
    if a.len() > 0 {
        let k = a.len() - 1;
        assert(variants_agree(a.drop_last(), b.drop_last())) by {
            assert forall|j: int| 0 <= j < a.drop_last().len() implies (#[trigger] a.drop_last()[j]).name@
                == b.drop_last()[j].name@ && payload_agree(
                a.drop_last()[j].payload,
                b.drop_last()[j].payload,
            ) by {
                assert(a[j].name@ == b[j].name@);
            }
        }
        assert forall|i: int| 0 <= i < a.drop_last().len() implies payload_in_range(
            #[trigger] a.drop_last()[i].payload,
            g1.nodes@.len(),
            g1.leaves@.len(),
        ) by {
            assert(payload_in_range(a[i].payload, g1.nodes@.len(), g1.leaves@.len()));
        }
        lemma_variants_json_agree(g1, g2, a.drop_last(), b.drop_last());
        assert(a[k].name@ == b[k].name@);
        assert(payload_in_range(a[k].payload, g1.nodes@.len(), g1.leaves@.len()));
        assert(payload_agree(a[k].payload, b[k].payload));
        match (a[k].payload, b[k].payload) {
            (Payload::Single(s), Payload::Single(_)) => lemma_type_json_agree(g1, g2, s),
            (Payload::Fields(x), Payload::Fields(y)) => lemma_fields_json_agree(g1, g2, x@, y@),
            _ => {},
        }
        assert(payload_json(g1, a[k].payload) == payload_json(g2, b[k].payload));
        assert(variant_json(g1, a[k]) == variant_json(g2, b[k]));
    }
}

proof fn lemma_nodes_json_agree(g1: Grammar, g2: Grammar, a: Seq<Node>, b: Seq<Node>)
    requires
        agree(g1, g2),
        a.len() == b.len(),
        forall|i: int| 0 <= i < a.len() ==> node_agree(#[trigger] a[i], b[i]),
        forall|i: int|
            0 <= i < a.len() ==> node_in_range(#[trigger] a[i], g1.nodes@.len(), g1.leaves@.len()),
    ensures
        nodes_json(g1, a) == nodes_json(g2, b),
    decreases a.len(),
{
    if a.len() > 0 {
        let k = a.len() - 1;
        assert forall|i: int| 0 <= i < a.drop_last().len() implies node_agree(
            #[trigger] a.drop_last()[i],
            b.drop_last()[i],
        ) by {
            assert(node_agree(a[i], b[i]));
        }
        assert forall|i: int| 0 <= i < a.drop_last().len() implies node_in_range(
            #[trigger] a.drop_last()[i],
            g1.nodes@.len(),
            g1.leaves@.len(),
        ) by {
            assert(node_in_range(a[i], g1.nodes@.len(), g1.leaves@.len()));
        }
        lemma_nodes_json_agree(g1, g2, a.drop_last(), b.drop_last());
        assert(node_agree(a[k], b[k]));
        assert(node_in_range(a[k], g1.nodes@.len(), g1.leaves@.len()));
        match (a[k].body, b[k].body) {
            (Body::Struct(x), Body::Struct(y)) => lemma_fields_json_agree(g1, g2, x@, y@),
            (Body::Enum(x), Body::Enum(y)) => lemma_variants_json_agree(g1, g2, x@, y@),
            _ => {},
        }
        assert(node_json(g1, a[k]) == node_json(g2, b[k]));
        if a.len() == 1 {
            assert(a[0] == a[k] && b[0] == b[k]);
        }
    }
}

/// Every model of declarations that pass the builder's checks is closed: each
/// reference names one of its nodes or leaves.
pub proof fn lemma_model_closed(ds: Seq<RawDecl>, cfg: BuildConfig, g: Grammar)
    requires
        precheck(ds, cfg) is None,
        model_of(ds, cfg, g),
    ensures
        g.closed(),
{
    let enabled = cfg.enabled@;
    let idx = kept(decl_mask(ds, enabled));
    let names = eligible_names(ds, enabled);
    assert forall|i: int| 0 <= i < g.nodes@.len() implies node_in_range(
        #[trigger] g.nodes@[i],
        g.nodes@.len(),
        g.leaves@.len(),
    ) by {
        assert(decl_names_ok(ds[idx[i]], enabled, cfg.leaves@, names));
        lemma_node_in_range(ds[idx[i]], enabled, cfg.leaves@, names, g.nodes@[i]);
    }
}

/// Building twice from the same declarations and configuration gives the same
/// schema document.
pub proof fn lemma_schema_stable(
    ds: Seq<RawDecl>,
    cfg: BuildConfig,
    g1: Grammar,
    g2: Grammar,
    version: Seq<char>,
)
    requires
        precheck(ds, cfg) is None,
        model_of(ds, cfg, g1),
        model_of(ds, cfg, g2),
    ensures
        schema_text(g1, version) == schema_text(g2, version),
{
    lemma_models_agree(ds, cfg, g1, g2);
    lemma_model_closed(ds, cfg, g1);
    lemma_nodes_json_agree(g1, g2, g1.nodes@, g2.nodes@);
}

/// For an enum node, the generated method of every flavor is, unless the node
/// is leaf-like, a single dispatch with one arm per variant of the model node,
/// in order, and for a leaf-like node the trivial body with no arm at all;
/// those variants are exactly the declaration's variants whose gate is open,
/// in declaration order: none is missing and none that the features exclude
/// is present.
pub proof fn lemma_dispatch_exhaustive(
    ds: Seq<RawDecl>,
    cfg: BuildConfig,
    g: Grammar,
    i: int,
    fl: Flavor,
)
    requires
        model_of(ds, cfg, g),
        0 <= i < g.nodes@.len(),
        g.nodes@[i].body is Enum,
    ensures
        ({
            let enabled = cfg.enabled@;
            let n = g.nodes@[i];
            let d = ds[kept(decl_mask(ds, enabled))[i]];
            let vs = n.body->Enum_0@;
            let rv = d.body->Enum_0@;
            let idx = kept(variant_mask(rv, enabled));
            &&& d.body is Enum
            &&& !n.leaf_like ==> method_text(fl, g, n) == header(fl, n.name@) + "match node {\n"@
                + arms_text(fl, g, n.name@, vs) + "}\n"@ + "}\n"@
            &&& n.leaf_like ==> method_text(fl, g, n) == header(fl, n.name@) + trivial_body(
                fl,
                n.name@,
            ) + "}\n"@
            &&& vs.len() == idx.len()
            &&& forall|k: int|
                0 <= k < vs.len() ==> (#[trigger] vs[k]).name == rv[idx[k]].name && gate_in(
                    rv[idx[k]].gate,
                    enabled,
                )
            &&& forall|j: int|
                0 <= j < rv.len() && gate_in(#[trigger] rv[j].gate, enabled) ==> exists|k: int|
                    0 <= k < vs.len() && idx[k] == j
            &&& forall|k: int, l: int| 0 <= k < l < vs.len() ==> #[trigger] idx[k] < #[trigger] idx[l]
        }),
{
    let enabled = cfg.enabled@;
    let n = g.nodes@[i];
    let d = ds[kept(decl_mask(ds, enabled))[i]];
    assert(node_matches(d, enabled, cfg.leaves@, eligible_names(ds, enabled), n));
    let vs = n.body->Enum_0@;
    let rv = d.body->Enum_0@;
    let mask = variant_mask(rv, enabled);
    lemma_kept(mask);
    let idx = kept(mask);
    assert forall|k: int| 0 <= k < vs.len() implies (#[trigger] vs[k]).name == rv[idx[k]].name
        && gate_in(rv[idx[k]].gate, enabled) by {
        assert(mask[idx[k]]);
    }
    assert forall|j: int| 0 <= j < rv.len() && gate_in(#[trigger] rv[j].gate, enabled) implies exists|k: int|
        0 <= k < vs.len() && idx[k] == j by {
        assert(mask[j]);
    }
    if !n.leaf_like {
        assert(method_text(fl, g, n) =~= header(fl, n.name@) + "match node {\n"@ + arms_text(
            fl,
            g,
            n.name@,
            vs,
        ) + "}\n"@ + "}\n"@);
    }
}

/// In the read-only visitor, a struct field whose type is a sequence of optional
/// boxed `X` is visited by a loop over every element, a test that skips absent
/// elements, and one dereference of the box before dispatching to `X`.
pub proof fn lemma_visit_nested(g: Grammar, f: Field, x: usize)
    requires
        f.ty == TypeRef::Sequence(
            Box::new(TypeRef::Optional(Box::new(TypeRef::Boxed(Box::new(TypeRef::Node(x)))))),
        ),
    ensures
        field_text(Flavor::Visit, g, f, "&node."@) == "for it in &node."@ + f.name@ + " {\n"@
            + "if let Some(it) = it {\n"@ + "v.visit_"@ + node_name(g, x) + "(&**it);\n"@ + "}\n"@
            + "}\n"@,
{
    let e = "&node."@ + f.name@;
    let inner = TypeRef::Optional(Box::new(TypeRef::Boxed(Box::new(TypeRef::Node(x)))));
    let boxed = TypeRef::Boxed(Box::new(TypeRef::Node(x)));
    assert(visit_step(false, g, TypeRef::Node(x), "&**"@ + "it"@) == "v."@ + "visit_"@ + node_name(g, x)
        + "("@ + ("&**"@ + "it"@) + ");\n"@);
    assert(visit_step(false, g, boxed, "it"@) == visit_step(
        false,
        g,
        TypeRef::Node(x),
        "&**"@ + "it"@,
    ));
    assert(visit_step(false, g, inner, "it"@) == "if let Some(it) = "@ + "it"@ + " {\n"@
        + visit_step(false, g, boxed, "it"@) + "}\n"@);
    assert(visit_step(false, g, f.ty, e) == "for it in "@ + e + " {\n"@ + visit_step(
        false,
        g,
        inner,
        "it"@,
    ) + "}\n"@);
    reveal_strlit("&**it");
    reveal_strlit("&**");
    reveal_strlit("it");
    reveal_strlit("(&**it);\n");
    reveal_strlit("(");
    reveal_strlit(");\n");
    reveal_strlit("v.visit_");
    reveal_strlit("v.");
    reveal_strlit("visit_");
    reveal_strlit("if let Some(it) = it {\n");
    reveal_strlit("if let Some(it) = ");
    reveal_strlit(" {\n");
    reveal_strlit("for it in &node.");
    reveal_strlit("for it in ");
    reveal_strlit("&node.");
    assert(field_text(Flavor::Visit, g, f, "&node."@) =~= "for it in &node."@ + f.name@ + " {\n"@
        + "if let Some(it) = it {\n"@ + "v.visit_"@ + node_name(g, x) + "(&**it);\n"@ + "}\n"@
        + "}\n"@);
}

/// A value of the generated tree types, as the rebuilder sees it. Lists (the
/// elements of a sequence, the fields of a record) are `Cons` chains ending in
/// `Nil`; a leaf value is opaque.
pub enum TreeValue {
    Atom(int),
    Absent,
    Present(Box<TreeValue>),
    Boxed(Box<TreeValue>),
    Nil,
    Cons(Box<TreeValue>, Box<TreeValue>),
    Record(Box<TreeValue>),
    Tagged(nat, Box<TreeValue>),
}

/// The constructs that a generated rebuild expression is made of.
pub enum FoldOp {
    /// `f.fold_N(e)`: the rebuild method of node `N`.
    Call(usize),
    /// `e`: the value passed through.
    Keep,
    /// `(e).map(|it| ..)`: the inner construct on a present value.
    MapPresent(Box<FoldOp>),
    /// `(e).into_iter().map(|it| ..).collect()`: the inner construct on each element.
    MapEach(Box<FoldOp>),
    /// `Box::new(.. *e ..)`: the inner construct on the boxed value, boxed again.
    Rebox(Box<FoldOp>),
}

/// The construct that rebuilds a value of type `t`.
pub open spec fn fold_op(t: TypeRef) -> FoldOp
    decreases t,
{
    match t {
        TypeRef::Node(k) => FoldOp::Call(k),
        TypeRef::Leaf(_) => FoldOp::Keep,
        TypeRef::Optional(b) => FoldOp::MapPresent(Box::new(fold_op(*b))),
        TypeRef::Sequence(b) => FoldOp::MapEach(Box::new(fold_op(*b))),
        TypeRef::Boxed(b) => FoldOp::Rebox(Box::new(fold_op(*b))),
        TypeRef::Separated(b, _) => FoldOp::MapEach(Box::new(fold_op(*b))),
    }
}

/// The text of construct `op` applied to expression `e`.
pub open spec fn render_op(g: Grammar, op: FoldOp, e: Seq<char>) -> Seq<char>
    decreases op,
{
    match op {
        FoldOp::Call(k) => "f.fold_"@ + node_name(g, k) + "("@ + e + ")"@,
        FoldOp::Keep => e,
        FoldOp::MapPresent(o) => "("@ + e + ").map(|it| "@ + render_op(g, *o, "it"@) + ")"@,
        FoldOp::MapEach(o) => "("@ + e + ").into_iter().map(|it| "@ + render_op(g, *o, "it"@)
            + ").collect()"@,
        FoldOp::Rebox(o) => "Box::new("@ + render_op(g, *o, "*"@ + e) + ")"@,
    }
}

/// The generated rebuild expression of every type is the text of its construct.
pub proof fn lemma_fold_expr_renders(g: Grammar, t: TypeRef, e: Seq<char>)
    ensures
        fold_expr(g, t, e) == render_op(g, fold_op(t), e),
    decreases t,
{
    match t {
        TypeRef::Optional(b) => lemma_fold_expr_renders(g, *b, "it"@),
        TypeRef::Sequence(b) => lemma_fold_expr_renders(g, *b, "it"@),
        TypeRef::Boxed(b) => lemma_fold_expr_renders(g, *b, "*"@ + e),
        TypeRef::Separated(b, _) => lemma_fold_expr_renders(g, *b, "it"@),
        _ => {},
    }
}

/// What construct `op` does to value `v` when every rebuild method is the
/// generated default: `map` leaves an absent value absent, a sequence is
/// rebuilt element by element, and a value of another shape than the
/// construct expects is left as it is.
pub open spec fn apply_op(g: Grammar, op: FoldOp, v: TreeValue) -> TreeValue
    decreases v, 1nat,
{
    match op {
        FoldOp::Call(k) => rebuild_node(g, k, v),
        FoldOp::Keep => v,
        FoldOp::MapPresent(o) => match v {
            TreeValue::Present(x) => TreeValue::Present(Box::new(apply_op(g, *o, *x))),
            _ => v,
        },
        FoldOp::MapEach(o) => apply_each(g, *o, v),
        FoldOp::Rebox(o) => match v {
            TreeValue::Boxed(x) => TreeValue::Boxed(Box::new(apply_op(g, *o, *x))),
            _ => v,
        },
    }
}

pub open spec fn apply_each(g: Grammar, op: FoldOp, v: TreeValue) -> TreeValue
    decreases v, 0nat,
{
    match v {
        TreeValue::Cons(h, tl) => TreeValue::Cons(
            Box::new(apply_op(g, op, *h)),
            Box::new(apply_each(g, op, *tl)),
        ),
        _ => v,
    }
}

/// The default rebuild of a record: field `i` by the construct of its type, as
/// the generated `name: expr,` lines do.
pub open spec fn rebuild_fields(g: Grammar, fs: Seq<Field>, i: int, v: TreeValue) -> TreeValue
    decreases v, 0nat,
{
    match v {
        TreeValue::Cons(h, tl) => TreeValue::Cons(
            Box::new(if 0 <= i < fs.len() {
                apply_op(g, fold_op(fs[i].ty), *h)
            } else {
                *h
            }),
            Box::new(rebuild_fields(g, fs, i + 1, *tl)),
        ),
        _ => v,
    }
}

pub open spec fn rebuild_payload(g: Grammar, p: Payload, v: TreeValue) -> TreeValue
    decreases v, 2nat,
{
    match p {
        Payload::Unit => v,
        Payload::Single(t) => apply_op(g, fold_op(t), v),
        Payload::Fields(fs) => rebuild_fields(g, fs@, 0, v),
    }
}

/// The generated default rebuild method of node `k`: a leaf-like node is
/// returned as it is (`node`), a struct rebuilt field by field, an enum
/// rebuilt as the same variant with its payload rebuilt.
pub open spec fn rebuild_node(g: Grammar, k: usize, v: TreeValue) -> TreeValue
    decreases v, 0nat,
{
    if k >= g.nodes@.len() || g.nodes@[k as int].leaf_like {
        v
    } else {
        match g.nodes@[k as int].body {
            Body::Struct(fs) => match v {
                TreeValue::Record(xs) => TreeValue::Record(Box::new(rebuild_fields(g, fs@, 0, *xs))),
                _ => v,
            },
            Body::Enum(vs) => match v {
                TreeValue::Tagged(j, p) => if j < vs@.len() {
                    TreeValue::Tagged(j, Box::new(rebuild_payload(g, vs@[j as int].payload, *p)))
                } else {
                    v
                },
                _ => v,
            },
        }
    }
}

proof fn lemma_apply_each_identity(g: Grammar, op: FoldOp, v: TreeValue)
    ensures
        apply_each(g, op, v) == v,
    decreases v, 0nat,
{
    if let TreeValue::Cons(h, tl) = v {
        lemma_apply_identity(g, op, *h);
        lemma_apply_each_identity(g, op, *tl);
    }
}

proof fn lemma_rebuild_fields_identity(g: Grammar, fs: Seq<Field>, i: int, v: TreeValue)
    ensures
        rebuild_fields(g, fs, i, v) == v,
    decreases v, 0nat,
{
    if let TreeValue::Cons(h, tl) = v {
        if 0 <= i < fs.len() {
            lemma_apply_identity(g, fold_op(fs[i].ty), *h);
        }
        lemma_rebuild_fields_identity(g, fs, i + 1, *tl);
    }
}

proof fn lemma_rebuild_payload_identity(g: Grammar, p: Payload, v: TreeValue)
    ensures
        rebuild_payload(g, p, v) == v,
    decreases v, 2nat,
{
    match p {
        Payload::Unit => {},
        Payload::Single(t) => lemma_apply_identity(g, fold_op(t), v),
        Payload::Fields(fs) => lemma_rebuild_fields_identity(g, fs@, 0, v),
    }
}

proof fn lemma_rebuild_node_identity(g: Grammar, k: usize, v: TreeValue)
    ensures
        rebuild_node(g, k, v) == v,
    decreases v, 0nat,
{
    if k < g.nodes@.len() && !g.nodes@[k as int].leaf_like {
        match g.nodes@[k as int].body {
            Body::Struct(fs) => {
                if let TreeValue::Record(xs) = v {
                    lemma_rebuild_fields_identity(g, fs@, 0, *xs);
                }
            },
            Body::Enum(vs) => {
                if let TreeValue::Tagged(j, p) = v {
                    if j < vs@.len() {
                        lemma_rebuild_payload_identity(g, vs@[j as int].payload, *p);
                    }
                }
            },
        }
    }
}

proof fn lemma_apply_identity(g: Grammar, op: FoldOp, v: TreeValue)
    ensures
        apply_op(g, op, v) == v,
    decreases v, 1nat,
{
    match op {
        FoldOp::Call(k) => lemma_rebuild_node_identity(g, k, v),
        FoldOp::MapPresent(o) => {
            if let TreeValue::Present(x) = v {
                lemma_apply_identity(g, *o, *x);
            }
        },
        FoldOp::MapEach(o) => lemma_apply_each_identity(g, *o, v),
        FoldOp::Rebox(o) => {
            if let TreeValue::Boxed(x) = v {
                lemma_apply_identity(g, *o, *x);
            }
        },
        FoldOp::Keep => {},
    }
}

/// With every rebuild method left at its generated default, the rebuild
/// expression generated for a value of type `t` (the text of `fold_op(t)`)
/// gives back the same value, and the default rebuild method of every node
/// gives back the node value it is handed, with the same variant.
pub proof fn lemma_rebuild_identity(g: Grammar, t: TypeRef, k: usize, v: TreeValue, e: Seq<char>)
    ensures
        fold_expr(g, t, e) == render_op(g, fold_op(t), e),
        apply_op(g, fold_op(t), v) == v,
        rebuild_node(g, k, v) == v,
{
    lemma_fold_expr_renders(g, t, e);
    lemma_apply_identity(g, fold_op(t), v);
    lemma_rebuild_node_identity(g, k, v);
}

proof fn lemma_holds_inline_agree(a: Node, b: Node, k: usize)
    requires
        node_agree(a, b),
    ensures
        holds_inline(a, k) == holds_inline(b, k),
{
    match (a.body, b.body) {
        (Body::Struct(x), Body::Struct(y)) => {
            if fields_hold(x@, k) {
                let j = choose|j: int| 0 <= j < x@.len() && direct_target(#[trigger] x@[j].ty) == Some(k);
                assert(x@[j].ty == y@[j].ty);
            }
            if fields_hold(y@, k) {
                let j = choose|j: int| 0 <= j < y@.len() && direct_target(#[trigger] y@[j].ty) == Some(k);
                assert(x@[j].ty == y@[j].ty);
            }
        },
        (Body::Enum(x), Body::Enum(y)) => {
            assert forall|j: int| 0 <= j < x@.len() implies payload_holds(#[trigger] x@[j].payload, k)
                == payload_holds(y@[j].payload, k) by {
                assert(payload_agree(x@[j].payload, y@[j].payload));
                match (x@[j].payload, y@[j].payload) {
                    (Payload::Fields(p), Payload::Fields(q)) => {
                        if fields_hold(p@, k) {
                            let i = choose|i: int|
                                0 <= i < p@.len() && direct_target(#[trigger] p@[i].ty) == Some(k);
                            assert(p@[i].ty == q@[i].ty);
                        }
                        if fields_hold(q@, k) {
                            let i = choose|i: int|
                                0 <= i < q@.len() && direct_target(#[trigger] q@[i].ty) == Some(k);
                            assert(p@[i].ty == q@[i].ty);
                        }
                    },
                    _ => {},
                }
            }
            if exists|j: int| 0 <= j < x@.len() && payload_holds(#[trigger] x@[j].payload, k) {
                let j = choose|j: int| 0 <= j < x@.len() && payload_holds(#[trigger] x@[j].payload, k);
                assert(payload_holds(y@[j].payload, k));
            }
            if exists|j: int| 0 <= j < y@.len() && payload_holds(#[trigger] y@[j].payload, k) {
                let j = choose|j: int| 0 <= j < y@.len() && payload_holds(#[trigger] y@[j].payload, k);
                assert(payload_holds(x@[j].payload, k));
            }
        },
        _ => {},
    }
}

proof fn lemma_reach_agree(g1: Grammar, g2: Grammar, s: int, k: nat)
    requires
        agree(g1, g2),
        0 <= s < g1.nodes@.len(),
    ensures
        reach(g1, s, k) == reach(g2, s, k),
    decreases k,
{
    let n = g1.nodes@.len();
    if k == 0 {
        assert forall|b: int| 0 <= b < n implies #[trigger] holds_inline(g1.nodes@[s], b as usize)
            == holds_inline(g2.nodes@[s], b as usize) by {
            lemma_holds_inline_agree(g1.nodes@[s], g2.nodes@[s], b as usize);
        }
        assert(reach(g1, s, k) =~= reach(g2, s, k));
    } else {
        lemma_reach_agree(g1, g2, s, (k - 1) as nat);
        let m = reach(g1, s, (k - 1) as nat);
        assert forall|b: int| 0 <= b < n implies #[trigger] step(g1, m)[b] == step(g2, m)[b] by {
            assert forall|a: int| 0 <= a < n implies holds_inline(#[trigger] g1.nodes@[a], b as usize)
                == holds_inline(g2.nodes@[a], b as usize) by {
                lemma_holds_inline_agree(g1.nodes@[a], g2.nodes@[a], b as usize);
            }
            if exists|a: int| 0 <= a < n && m[a] && holds_inline(#[trigger] g1.nodes@[a], b as usize) {
                let a = choose|a: int|
                    0 <= a < n && m[a] && holds_inline(#[trigger] g1.nodes@[a], b as usize);
                assert(holds_inline(g2.nodes@[a], b as usize));
            }
            if exists|a: int| 0 <= a < n && m[a] && holds_inline(#[trigger] g2.nodes@[a], b as usize) {
                let a = choose|a: int|
                    0 <= a < n && m[a] && holds_inline(#[trigger] g2.nodes@[a], b as usize);
                assert(holds_inline(g1.nodes@[a], b as usize));
            }
        }
        assert(step(g1, m) =~= step(g2, m));
    }
}

/// Whether a node contains itself inline is decided by the declarations and
/// the configuration: all their models agree on it.
pub proof fn lemma_cycle_determined(ds: Seq<RawDecl>, cfg: BuildConfig, g1: Grammar, g2: Grammar)
    requires
        model_of(ds, cfg, g1),
        model_of(ds, cfg, g2),
    ensures
        has_unboxed_cycle(g1) == has_unboxed_cycle(g2),
{
    lemma_models_agree(ds, cfg, g1, g2);
    let n = g1.nodes@.len();
    if has_unboxed_cycle(g1) {
        let s = choose|s: int| 0 <= s < n && #[trigger] reach(g1, s, (n - 1) as nat)[s];
        lemma_reach_agree(g1, g2, s, (n - 1) as nat);
        assert(reach(g2, s, (n - 1) as nat)[s]);
    }
    if has_unboxed_cycle(g2) {
        let s = choose|s: int| 0 <= s < n && #[trigger] reach(g2, s, (n - 1) as nat)[s];
        lemma_reach_agree(g1, g2, s, (n - 1) as nat);
        assert(reach(g1, s, (n - 1) as nat)[s]);
    }
}

proof fn lemma_visit_step_agree(g1: Grammar, g2: Grammar, m: bool, t: TypeRef, e: Seq<char>)
    requires
        agree(g1, g2),
        ref_in_range(t, g1.nodes@.len(), g1.leaves@.len()),
    ensures
        visit_step(m, g1, t, e) == visit_step(m, g2, t, e),
    decreases t,
{
    match t {
        TypeRef::Node(k) => {
            assert(node_agree(g1.nodes@[k as int], g2.nodes@[k as int]));
        },
        TypeRef::Optional(b) => lemma_visit_step_agree(g1, g2, m, *b, "it"@),
        TypeRef::Sequence(b) => lemma_visit_step_agree(g1, g2, m, *b, "it"@),
        TypeRef::Boxed(b) => lemma_visit_step_agree(g1, g2, m, *b, deref_prefix(m) + e),
        TypeRef::Separated(b, _) => lemma_visit_step_agree(g1, g2, m, *b, "it"@),
        _ => {},
    }
}

proof fn lemma_fold_expr_agree(g1: Grammar, g2: Grammar, t: TypeRef, e: Seq<char>)
    requires
        agree(g1, g2),
        ref_in_range(t, g1.nodes@.len(), g1.leaves@.len()),
    ensures
        fold_expr(g1, t, e) == fold_expr(g2, t, e),
    decreases t,
{
    match t {
        TypeRef::Node(k) => {
            assert(node_agree(g1.nodes@[k as int], g2.nodes@[k as int]));
        },
        TypeRef::Optional(b) => lemma_fold_expr_agree(g1, g2, *b, "it"@),
        TypeRef::Sequence(b) => lemma_fold_expr_agree(g1, g2, *b, "it"@),
        TypeRef::Boxed(b) => lemma_fold_expr_agree(g1, g2, *b, "*"@ + e),
        TypeRef::Separated(b, _) => lemma_fold_expr_agree(g1, g2, *b, "it"@),
        _ => {},
    }
}

proof fn lemma_same_fields_drop_last(g: Grammar, a: Seq<Field>, b: Seq<Field>)
    requires
        a.len() > 0,
        same_fields(a, b),
        fields_in_range(a, g.nodes@.len(), g.leaves@.len()),
    ensures
        same_fields(a.drop_last(), b.drop_last()),
        fields_in_range(a.drop_last(), g.nodes@.len(), g.leaves@.len()),
        a.last().name@ == b.last().name@,
        a.last().ty == b.last().ty,
        ref_in_range(a.last().ty, g.nodes@.len(), g.leaves@.len()),
{
    assert forall|j: int| 0 <= j < a.drop_last().len() implies (#[trigger] a.drop_last()[j]).name@
        == b.drop_last()[j].name@ && a.drop_last()[j].ty == b.drop_last()[j].ty by {
        assert(a[j].name@ == b[j].name@);
    }
    assert forall|j: int| 0 <= j < a.drop_last().len() implies ref_in_range(
        #[trigger] a.drop_last()[j].ty,
        g.nodes@.len(),
        g.leaves@.len(),
    ) by {
        assert(ref_in_range(a[j].ty, g.nodes@.len(), g.leaves@.len()));
    }
    assert(a[a.len() - 1].name@ == b[a.len() - 1].name@);
    assert(ref_in_range(a[a.len() - 1].ty, g.nodes@.len(), g.leaves@.len()));
}

proof fn lemma_fields_text_agree(
    fl: Flavor,
    g1: Grammar,
    g2: Grammar,
    a: Seq<Field>,
    b: Seq<Field>,
    prefix: Seq<char>,
)
    requires
        agree(g1, g2),
        same_fields(a, b),
        fields_in_range(a, g1.nodes@.len(), g1.leaves@.len()),
    ensures
        fields_text(fl, g1, a, prefix) == fields_text(fl, g2, b, prefix),
        pattern_names(a) == pattern_names(b),
    decreases a.len(),
{
    if a.len() > 0 {
        lemma_same_fields_drop_last(g1, a, b);
        lemma_fields_text_agree(fl, g1, g2, a.drop_last(), b.drop_last(), prefix);
        let e = prefix + a.last().name@;
        lemma_visit_step_agree(g1, g2, false, a.last().ty, e);
        lemma_visit_step_agree(g1, g2, true, a.last().ty, e);
        lemma_fold_expr_agree(g1, g2, a.last().ty, e);
        assert(field_text(fl, g1, a.last(), prefix) == field_text(fl, g2, b.last(), prefix));
    }
}

proof fn lemma_arms_text_agree(
    fl: Flavor,
    g1: Grammar,
    g2: Grammar,
    name: Seq<char>,
    a: Seq<Variant>,
    b: Seq<Variant>,
)
    requires
        agree(g1, g2),
        variants_agree(a, b),
        forall|i: int|
            0 <= i < a.len() ==> payload_in_range(
                #[trigger] a[i].payload,
                g1.nodes@.len(),
                g1.leaves@.len(),
            ),
    ensures
        arms_text(fl, g1, name, a) == arms_text(fl, g2, name, b),
    decreases a.len(),
{
    if a.len() > 0 {
        let k = a.len() - 1;
        assert(variants_agree(a.drop_last(), b.drop_last())) by {
            assert forall|j: int| 0 <= j < a.drop_last().len() implies (#[trigger] a.drop_last()[j]).name@
                == b.drop_last()[j].name@ && payload_agree(
                a.drop_last()[j].payload,
                b.drop_last()[j].payload,
            ) by {
                assert(a[j].name@ == b[j].name@);
            }
        }
        assert forall|i: int| 0 <= i < a.drop_last().len() implies payload_in_range(
            #[trigger] a.drop_last()[i].payload,
            g1.nodes@.len(),
            g1.leaves@.len(),
        ) by {
            assert(payload_in_range(a[i].payload, g1.nodes@.len(), g1.leaves@.len()));
        }
        lemma_arms_text_agree(fl, g1, g2, name, a.drop_last(), b.drop_last());
        assert(a[k].name@ == b[k].name@);
        assert(payload_in_range(a[k].payload, g1.nodes@.len(), g1.leaves@.len()));
        assert(payload_agree(a[k].payload, b[k].payload));
        match (a[k].payload, b[k].payload) {
            (Payload::Single(t), Payload::Single(_)) => {
                lemma_visit_step_agree(g1, g2, false, t, "it"@);
                lemma_visit_step_agree(g1, g2, true, t, "it"@);
                lemma_fold_expr_agree(g1, g2, t, "it"@);
                assert(single_arm(fl, g1, name, a[k].name@, t) == single_arm(
                    fl,
                    g2,
                    name,
                    b[k].name@,
                    t,
                ));
            },
            (Payload::Fields(x), Payload::Fields(y)) => {
                lemma_fields_text_agree(fl, g1, g2, x@, y@, ""@);
                assert(fields_arm(fl, g1, name, a[k].name@, x@) == fields_arm(
                    fl,
                    g2,
                    name,
                    b[k].name@,
                    y@,
                ));
            },
            _ => {},
        }
        assert(arm_text(fl, g1, name, a[k]) == arm_text(fl, g2, name, b[k]));
    }
}

proof fn lemma_methods_text_agree(fl: Flavor, g1: Grammar, g2: Grammar, a: Seq<Node>, b: Seq<Node>)
    requires
        agree(g1, g2),
        a.len() == b.len(),
        forall|i: int| 0 <= i < a.len() ==> node_agree(#[trigger] a[i], b[i]),
        forall|i: int|
            0 <= i < a.len() ==> node_in_range(#[trigger] a[i], g1.nodes@.len(), g1.leaves@.len()),
    ensures
        methods_text(fl, g1, a) == methods_text(fl, g2, b),
    decreases a.len(),
{
    if a.len() > 0 {
        let k = a.len() - 1;
        assert forall|i: int| 0 <= i < a.drop_last().len() implies node_agree(
            #[trigger] a.drop_last()[i],
            b.drop_last()[i],
        ) by {
            assert(node_agree(a[i], b[i]));
        }
        assert forall|i: int| 0 <= i < a.drop_last().len() implies node_in_range(
            #[trigger] a.drop_last()[i],
            g1.nodes@.len(),
            g1.leaves@.len(),
        ) by {
            assert(node_in_range(a[i], g1.nodes@.len(), g1.leaves@.len()));
        }
        lemma_methods_text_agree(fl, g1, g2, a.drop_last(), b.drop_last());
        assert(node_agree(a[k], b[k]));
        assert(node_in_range(a[k], g1.nodes@.len(), g1.leaves@.len()));
        match (a[k].body, b[k].body) {
            (Body::Struct(x), Body::Struct(y)) => {
                lemma_fields_text_agree(fl, g1, g2, x@, y@, crate::emit::struct_prefix(fl));
                assert(struct_body(fl, g1, a[k].name@, x@) == struct_body(fl, g2, b[k].name@, y@));
            },
            (Body::Enum(x), Body::Enum(y)) => {
                lemma_arms_text_agree(fl, g1, g2, a[k].name@, x@, y@);
            },
            _ => {},
        }
        assert(method_text(fl, g1, a[k]) == method_text(fl, g2, b[k]));
    }
}

/// Building twice from the same declarations and configuration gives the same
/// traversal artifact, for every flavor.
pub proof fn lemma_artifact_stable(ds: Seq<RawDecl>, cfg: BuildConfig, g1: Grammar, g2: Grammar, fl: Flavor)
    requires
        precheck(ds, cfg) is None,
        model_of(ds, cfg, g1),
        model_of(ds, cfg, g2),
    ensures
        artifact_text(fl, g1) == artifact_text(fl, g2),
{
    lemma_models_agree(ds, cfg, g1, g2);
    lemma_model_closed(ds, cfg, g1);
    lemma_methods_text_agree(fl, g1, g2, g1.nodes@, g2.nodes@);
}

proof fn lemma_fields_repr_agree(a: Seq<Field>, b: Seq<Field>)
    requires
        same_fields(a, b),
    ensures
        fields_repr(a) == fields_repr(b),
{
    if fields_repr(a) {
        assert forall|k: int| 0 <= k < b.len() implies representable(#[trigger] b[k].name@) by {
            assert(a[k].name@ == b[k].name@);
        }
    }
    if fields_repr(b) {
        assert forall|k: int| 0 <= k < a.len() implies representable(#[trigger] a[k].name@) by {
            assert(a[k].name@ == b[k].name@);
        }
    }
}

proof fn lemma_node_repr_agree(a: Node, b: Node)
    requires
        node_agree(a, b),
    ensures
        node_repr(a) == node_repr(b),
{
    match (a.body, b.body) {
        (Body::Struct(x), Body::Struct(y)) => lemma_fields_repr_agree(x@, y@),
        (Body::Enum(x), Body::Enum(y)) => {
            assert forall|k: int| 0 <= k < x@.len() implies variant_repr(#[trigger] x@[k])
                == variant_repr(y@[k]) by {
                assert(payload_agree(x@[k].payload, y@[k].payload));
                match (x@[k].payload, y@[k].payload) {
                    (Payload::Fields(p), Payload::Fields(q)) => lemma_fields_repr_agree(p@, q@),
                    _ => {},
                }
            }
            if forall|k: int| 0 <= k < x@.len() ==> variant_repr(#[trigger] x@[k]) {
                assert forall|k: int| 0 <= k < y@.len() implies variant_repr(#[trigger] y@[k]) by {
                    assert(variant_repr(x@[k]));
                }
            }
            if forall|k: int| 0 <= k < y@.len() ==> variant_repr(#[trigger] y@[k]) {
                assert forall|k: int| 0 <= k < x@.len() implies variant_repr(#[trigger] x@[k]) by {
                    assert(variant_repr(y@[k]));
                }
            }
        },
        _ => {},
    }
}

/// Whether the model can be written in the schema is decided by the
/// declarations, the configuration and the version.
pub proof fn lemma_exportable_determined(
    ds: Seq<RawDecl>,
    cfg: BuildConfig,
    g1: Grammar,
    g2: Grammar,
    version: Seq<char>,
)
    requires
        precheck(ds, cfg) is None,
        model_of(ds, cfg, g1),
        model_of(ds, cfg, g2),
    ensures
        exportable(g1, version) == exportable(g2, version),
{
    lemma_models_agree(ds, cfg, g1, g2);
    lemma_model_closed(ds, cfg, g1);
    lemma_model_closed(ds, cfg, g2);
    let n = g1.nodes@.len();
    assert forall|i: int| 0 <= i < n implies #[trigger] node_repr(g1.nodes@[i]) == node_repr(
        g2.nodes@[i],
    ) by {
        lemma_node_repr_agree(g1.nodes@[i], g2.nodes@[i]);
    }
    if forall|i: int| 0 <= i < n ==> node_repr(#[trigger] g1.nodes@[i]) {
        assert forall|i: int| 0 <= i < n implies node_repr(#[trigger] g2.nodes@[i]) by {
            assert(node_repr(g1.nodes@[i]));
        }
    }
    if forall|i: int| 0 <= i < n ==> node_repr(#[trigger] g2.nodes@[i]) {
        assert forall|i: int| 0 <= i < n implies node_repr(#[trigger] g1.nodes@[i]) by {
            assert(node_repr(g2.nodes@[i]));
        }
    }
}

} // verus!
