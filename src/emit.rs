//! The traversal emitters: one generated method per node, for each flavor.
//!
//! All four flavors share one recursion shape over type references; they
//! differ in how a child is reached (by reference, by mutable reference, by
//! value) and in what is done with it (visited, rebuilt, printed).
use vstd::prelude::*;
use vstd::string::*;
use crate::error::GenError;
use crate::model::{
    fields_in_range, node_in_range, payload_in_range, ref_in_range, Body, Field, Grammar, Node,
    Payload, TypeRef, Variant,
};

verus! {

/// The kind of traversal code to generate.
#[derive(Debug, Clone, Copy, PartialEq, Eq, Structural)]
pub enum Flavor {
    /// Read-only visitor.
    Visit,
    /// Visitor through exclusive mutable references.
    VisitMut,
    /// Transforming rebuilder that consumes and rebuilds each value.
    Fold,
    /// Structured debug printer.
    Debug,
}

pub open spec fn node_name(g: Grammar, k: usize) -> Seq<char> {
    g.nodes@[k as int].name@
}

pub open spec fn visit_prefix(mutable: bool) -> Seq<char> {
    if mutable {
        "visit_mut_"@
    } else {
        "visit_"@
    }
}

pub open spec fn deref_prefix(mutable: bool) -> Seq<char> {
    if mutable {
        "&mut **"@
    } else {
        "&**"@
    }
}

/// The statements that visit the value of expression `e` (a reference) of type `t`:
/// a node is dispatched, a leaf goes to the leaf hook, an optional value is
/// visited when present, a sequence element by element, and an indirection is
/// dereferenced once.
pub open spec fn visit_step(mutable: bool, g: Grammar, t: TypeRef, e: Seq<char>) -> Seq<char>
    decreases t,
{
    match t {
        TypeRef::Node(k) => "v."@ + visit_prefix(mutable) + node_name(g, k) + "("@ + e + ");\n"@,
        TypeRef::Leaf(_) => "v.visit_leaf("@ + e + ");\n"@,
        TypeRef::Optional(b) => "if let Some(it) = "@ + e + " {\n"@ + visit_step(
            mutable,
            g,
            *b,
            "it"@,
        ) + "}\n"@,
        TypeRef::Sequence(b) => "for it in "@ + e + " {\n"@ + visit_step(mutable, g, *b, "it"@)
            + "}\n"@,
        TypeRef::Boxed(b) => visit_step(mutable, g, *b, deref_prefix(mutable) + e),
        TypeRef::Separated(b, _) => "for it in "@ + e + " {\n"@ + visit_step(
            mutable,
            g,
            *b,
            "it"@,
        ) + "}\n"@,
    }
}

/// The expression that rebuilds the value of expression `e` (owned) of type `t`.
pub open spec fn fold_expr(g: Grammar, t: TypeRef, e: Seq<char>) -> Seq<char>
    decreases t,
{
    match t {
        TypeRef::Node(k) => "f.fold_"@ + node_name(g, k) + "("@ + e + ")"@,
        TypeRef::Leaf(_) => e,
        TypeRef::Optional(b) => "("@ + e + ").map(|it| "@ + fold_expr(g, *b, "it"@) + ")"@,
        TypeRef::Sequence(b) => "("@ + e + ").into_iter().map(|it| "@ + fold_expr(g, *b, "it"@)
            + ").collect()"@,
        TypeRef::Boxed(b) => "Box::new("@ + fold_expr(g, *b, "*"@ + e) + ")"@,
        TypeRef::Separated(b, _) => "("@ + e + ").into_iter().map(|it| "@ + fold_expr(
            g,
            *b,
            "it"@,
        ) + ").collect()"@,
    }
}

/// What one field contributes, its value being at `prefix` followed by its name.
pub open spec fn field_text(fl: Flavor, g: Grammar, f: Field, prefix: Seq<char>) -> Seq<char> {
    match fl {
        Flavor::Visit => visit_step(false, g, f.ty, prefix + f.name@),
        Flavor::VisitMut => visit_step(true, g, f.ty, prefix + f.name@),
        Flavor::Fold => f.name@ + ": "@ + fold_expr(g, f.ty, prefix + f.name@) + ",\n"@,
        Flavor::Debug => "d.field(\""@ + f.name@ + "\", "@ + prefix + f.name@ + ");\n"@,
    }
}

/// The fields' contributions in declaration order.
pub open spec fn fields_text(fl: Flavor, g: Grammar, fs: Seq<Field>, prefix: Seq<char>) -> Seq<
    char,
>
    decreases fs.len(),
{
    if fs.len() == 0 {
        Seq::empty()
    } else {
        fields_text(fl, g, fs.drop_last(), prefix) + field_text(fl, g, fs.last(), prefix)
    }
}

/// The binding list of a struct-like variant pattern: each name followed by `, `.
pub open spec fn pattern_names(fs: Seq<Field>) -> Seq<char>
    decreases fs.len(),
{
    if fs.len() == 0 {
        Seq::empty()
    } else {
        pattern_names(fs.drop_last()) + fs.last().name@ + ", "@
    }
}

pub open spec fn struct_prefix(fl: Flavor) -> Seq<char> {
    match fl {
        Flavor::VisitMut => "&mut node."@,
        Flavor::Fold => "node."@,
        _ => "&node."@,
    }
}

pub open spec fn header(fl: Flavor, name: Seq<char>) -> Seq<char> {
    match fl {
        Flavor::Visit => "pub fn visit_"@ + name + "<V: Visit + ?Sized>(v: &mut V, node: &"@ + name
            + ") {\n"@,
        Flavor::VisitMut => "pub fn visit_mut_"@ + name
            + "<V: VisitMut + ?Sized>(v: &mut V, node: &mut "@ + name + ") {\n"@,
        Flavor::Fold => "pub fn fold_"@ + name + "<F: Fold + ?Sized>(f: &mut F, node: "@ + name
            + ") -> "@ + name + " {\n"@,
        Flavor::Debug => "pub fn debug_"@ + name + "(node: &"@ + name
            + ", f: &mut Formatter) -> fmt::Result {\n"@,
    }
}

/// The body of the method of a leaf-like node: no traversal at all.
pub open spec fn trivial_body(fl: Flavor, name: Seq<char>) -> Seq<char> {
    match fl {
        Flavor::Fold => "node\n"@,
        Flavor::Debug => "f.write_str(\""@ + name + "\")\n"@,
        _ => Seq::empty(),
    }
}

pub open spec fn struct_body(fl: Flavor, g: Grammar, name: Seq<char>, fs: Seq<Field>) -> Seq<
    char,
> {
    let inner = fields_text(fl, g, fs, struct_prefix(fl));
    match fl {
        Flavor::Fold => name + " {\n"@ + inner + "}\n"@,
        Flavor::Debug => "let mut d = f.debug_struct(\""@ + name + "\");\n"@ + inner
            + "d.finish()\n"@,
        _ => inner,
    }
}

pub open spec fn unit_arm(fl: Flavor, name: Seq<char>, vname: Seq<char>) -> Seq<char> {
    match fl {
        Flavor::Fold => name + "::"@ + vname + ",\n"@,
        Flavor::Debug => "f.write_str(\""@ + vname + "\"),\n"@,
        _ => "{}\n"@,
    }
}

pub open spec fn single_arm(
    fl: Flavor,
    g: Grammar,
    name: Seq<char>,
    vname: Seq<char>,
    t: TypeRef,
) -> Seq<char> {
    match fl {
        Flavor::Visit => "{\n"@ + visit_step(false, g, t, "it"@) + "}\n"@,
        Flavor::VisitMut => "{\n"@ + visit_step(true, g, t, "it"@) + "}\n"@,
        Flavor::Fold => name + "::"@ + vname + "("@ + fold_expr(g, t, "it"@) + "),\n"@,
        Flavor::Debug => "{\nlet mut d = f.debug_tuple(\""@ + vname
            + "\");\nd.field(it);\nd.finish()\n}\n"@,
    }
}

pub open spec fn fields_arm(
    fl: Flavor,
    g: Grammar,
    name: Seq<char>,
    vname: Seq<char>,
    fs: Seq<Field>,
) -> Seq<char> {
    let inner = fields_text(fl, g, fs, ""@);
    match fl {
        Flavor::Fold => name + "::"@ + vname + " {\n"@ + inner + "},\n"@,
        Flavor::Debug => "{\nlet mut d = f.debug_struct(\""@ + vname + "\");\n"@ + inner
            + "d.finish()\n}\n"@,
        _ => "{\n"@ + inner + "}\n"@,
    }
}

/// The match arm of one variant: its pattern, then what is done with its payload.
pub open spec fn arm_text(fl: Flavor, g: Grammar, name: Seq<char>, v: Variant) -> Seq<char> {
    match v.payload {
        Payload::Unit => name + "::"@ + v.name@ + " => "@ + unit_arm(fl, name, v.name@),
        Payload::Single(t) => name + "::"@ + v.name@ + "(it) => "@ + single_arm(
            fl,
            g,
            name,
            v.name@,
            t,
        ),
        Payload::Fields(fs) => name + "::"@ + v.name@ + " { "@ + pattern_names(fs@) + "} => "@
            + fields_arm(fl, g, name, v.name@, fs@),
    }
}

/// One arm per variant, in declaration order.
pub open spec fn arms_text(fl: Flavor, g: Grammar, name: Seq<char>, vs: Seq<Variant>) -> Seq<char>
    decreases vs.len(),
{
    if vs.len() == 0 {
        Seq::empty()
    } else {
        arms_text(fl, g, name, vs.drop_last()) + arm_text(fl, g, name, vs.last())
    }
}

/// The generated method of node `n`.
pub open spec fn method_text(fl: Flavor, g: Grammar, n: Node) -> Seq<char> {
    header(fl, n.name@) + if n.leaf_like {
        trivial_body(fl, n.name@)
    } else {
        match n.body {
            Body::Struct(fs) => struct_body(fl, g, n.name@, fs@),
            Body::Enum(vs) => "match node {\n"@ + arms_text(fl, g, n.name@, vs@) + "}\n"@,
        }
    } + "}\n"@
}

/// The methods of the nodes in order.
pub open spec fn methods_text(fl: Flavor, g: Grammar, ns: Seq<Node>) -> Seq<char>
    decreases ns.len(),
{
    if ns.len() == 0 {
        Seq::empty()
    } else {
        methods_text(fl, g, ns.drop_last()) + method_text(fl, g, ns.last())
    }
}

/// The generated artifact of one flavor: one method per node of the model.
pub open spec fn artifact_text(fl: Flavor, g: Grammar) -> Seq<char> {
    methods_text(fl, g, g.nodes@)
}

fn push_visit_step(out: &mut String, mutable: bool, g: &Grammar, t: &TypeRef, e: &String)
    requires
        ref_in_range(*t, g.nodes@.len(), g.leaves@.len()),
    ensures
        final(out)@ == old(out)@ + visit_step(mutable, *g, *t, e@),
    decreases t,
{
    let ghost start = out@;
    match t {
        TypeRef::Node(k) => {
            out.append("v.");
            if mutable {
                out.append("visit_mut_");
            } else {
                out.append("visit_");
            }
            out.append(g.nodes[*k].name.as_str());
            out.append("(");
            out.append(e.as_str());
            out.append(");\n");
            assert(out@ =~= start + visit_step(mutable, *g, *t, e@));
        },
        TypeRef::Leaf(_) => {
            out.append("v.visit_leaf(");
            out.append(e.as_str());
            out.append(");\n");
            assert(out@ =~= start + visit_step(mutable, *g, *t, e@));
        },
        TypeRef::Optional(b) => {
            out.append("if let Some(it) = ");
            out.append(e.as_str());
            out.append(" {\n");
            let it = String::from_str("it");
            push_visit_step(out, mutable, g, b, &it);
            out.append("}\n");
            assert(out@ =~= start + visit_step(mutable, *g, *t, e@));
        },
        TypeRef::Sequence(b) => {
            out.append("for it in ");
            out.append(e.as_str());
            out.append(" {\n");
            let it = String::from_str("it");
            push_visit_step(out, mutable, g, b, &it);
            out.append("}\n");
            assert(out@ =~= start + visit_step(mutable, *g, *t, e@));
        },
        TypeRef::Boxed(b) => {
            let mut inner = if mutable {
                String::from_str("&mut **")
            } else {
                String::from_str("&**")
            };
            assert(inner@ == deref_prefix(mutable));
            inner.append(e.as_str());
            push_visit_step(out, mutable, g, b, &inner);
        },
        TypeRef::Separated(b, _) => {
            out.append("for it in ");
            out.append(e.as_str());
            out.append(" {\n");
            let it = String::from_str("it");
            push_visit_step(out, mutable, g, b, &it);
            out.append("}\n");
            assert(out@ =~= start + visit_step(mutable, *g, *t, e@));
        },
    }
}

fn push_fold_expr(out: &mut String, g: &Grammar, t: &TypeRef, e: &String)
    requires
        ref_in_range(*t, g.nodes@.len(), g.leaves@.len()),
    ensures
        final(out)@ == old(out)@ + fold_expr(*g, *t, e@),
    decreases t,
{
    let ghost start = out@;
    match t {
        TypeRef::Node(k) => {
            out.append("f.fold_");
            out.append(g.nodes[*k].name.as_str());
            out.append("(");
            out.append(e.as_str());
            out.append(")");
            assert(out@ =~= start + fold_expr(*g, *t, e@));
        },
        TypeRef::Leaf(_) => {
            out.append(e.as_str());
        },
        TypeRef::Optional(b) => {
            out.append("(");
            out.append(e.as_str());
            out.append(").map(|it| ");
            let it = String::from_str("it");
            push_fold_expr(out, g, b, &it);
            out.append(")");
            assert(out@ =~= start + fold_expr(*g, *t, e@));
        },
        TypeRef::Sequence(b) => {
            out.append("(");
            out.append(e.as_str());
            out.append(").into_iter().map(|it| ");
            let it = String::from_str("it");
            push_fold_expr(out, g, b, &it);
            out.append(").collect()");
            assert(out@ =~= start + fold_expr(*g, *t, e@));
        },
        TypeRef::Boxed(b) => {
            out.append("Box::new(");
            let mut inner = String::from_str("*");
            inner.append(e.as_str());
            push_fold_expr(out, g, b, &inner);
            out.append(")");
            assert(out@ =~= start + fold_expr(*g, *t, e@));
        },
        TypeRef::Separated(b, _) => {
            out.append("(");
            out.append(e.as_str());
            out.append(").into_iter().map(|it| ");
            let it = String::from_str("it");
            push_fold_expr(out, g, b, &it);
            out.append(").collect()");
            assert(out@ =~= start + fold_expr(*g, *t, e@));
        },
    }
}

fn push_field(out: &mut String, fl: Flavor, g: &Grammar, f: &Field, prefix: &str)
    requires
        ref_in_range(f.ty, g.nodes@.len(), g.leaves@.len()),
    ensures
        final(out)@ == old(out)@ + field_text(fl, *g, *f, prefix@),
{
    let ghost start = out@;
    let mut e = String::from_str(prefix);
    e.append(f.name.as_str());
    match fl {
        Flavor::Visit => push_visit_step(out, false, g, &f.ty, &e),
        Flavor::VisitMut => push_visit_step(out, true, g, &f.ty, &e),
        Flavor::Fold => {
            out.append(f.name.as_str());
            out.append(": ");
            push_fold_expr(out, g, &f.ty, &e);
            out.append(",\n");
            assert(out@ =~= start + field_text(fl, *g, *f, prefix@));
        },
        Flavor::Debug => {
            out.append("d.field(\"");
            out.append(f.name.as_str());
            out.append("\", ");
            out.append(e.as_str());
            out.append(");\n");
            assert(out@ =~= start + field_text(fl, *g, *f, prefix@));
        },
    }
}

fn push_fields(out: &mut String, fl: Flavor, g: &Grammar, fs: &Vec<Field>, prefix: &str)
    requires
        fields_in_range(fs@, g.nodes@.len(), g.leaves@.len()),
    ensures
        final(out)@ == old(out)@ + fields_text(fl, *g, fs@, prefix@),
{
    let ghost start = out@;
    let mut i: usize = 0;
    while i < fs.len()
        invariant
            fields_in_range(fs@, g.nodes@.len(), g.leaves@.len()),
            0 <= i <= fs@.len(),
            out@ == start + fields_text(fl, *g, fs@.take(i as int), prefix@),
        decreases fs@.len() - i,
    {
        assert(fs@.take(i as int + 1).drop_last() =~= fs@.take(i as int));
        assert(fs@.take(i as int + 1).last() == fs@[i as int]);
        assert(ref_in_range(fs@[i as int].ty, g.nodes@.len(), g.leaves@.len()));
        push_field(out, fl, g, &fs[i], prefix);
        i = i + 1;
        assert(out@ =~= start + fields_text(fl, *g, fs@.take(i as int), prefix@));
    }
    assert(fs@.take(i as int) =~= fs@);
}

fn push_pattern_names(out: &mut String, fs: &Vec<Field>)
    ensures
        final(out)@ == old(out)@ + pattern_names(fs@),
{
    let ghost start = out@;
    let mut i: usize = 0;
    while i < fs.len()
        invariant
            0 <= i <= fs@.len(),
            out@ == start + pattern_names(fs@.take(i as int)),
        decreases fs@.len() - i,
    {
        assert(fs@.take(i as int + 1).drop_last() =~= fs@.take(i as int));
        assert(fs@.take(i as int + 1).last() == fs@[i as int]);
        out.append(fs[i].name.as_str());
        out.append(", ");
        i = i + 1;
        assert(out@ =~= start + pattern_names(fs@.take(i as int)));
    }
    assert(fs@.take(i as int) =~= fs@);
}

fn push_header(out: &mut String, fl: Flavor, name: &String)
    ensures
        final(out)@ == old(out)@ + header(fl, name@),
{
    let ghost start = out@;
    let n = name.as_str();
    match fl {
        Flavor::Visit => {
            out.append("pub fn visit_");
            out.append(n);
            out.append("<V: Visit + ?Sized>(v: &mut V, node: &");
            out.append(n);
            out.append(") {\n");
        },
        Flavor::VisitMut => {
            out.append("pub fn visit_mut_");
            out.append(n);
            out.append("<V: VisitMut + ?Sized>(v: &mut V, node: &mut ");
            out.append(n);
            out.append(") {\n");
        },
        Flavor::Fold => {
            out.append("pub fn fold_");
            out.append(n);
            out.append("<F: Fold + ?Sized>(f: &mut F, node: ");
            out.append(n);
            out.append(") -> ");
            out.append(n);
            out.append(" {\n");
        },
        Flavor::Debug => {
            out.append("pub fn debug_");
            out.append(n);
            out.append("(node: &");
            out.append(n);
            out.append(", f: &mut Formatter) -> fmt::Result {\n");
        },
    }
    assert(out@ =~= start + header(fl, name@));
}

fn push_single_arm(out: &mut String, fl: Flavor, g: &Grammar, name: &String, vn: &String, t: &TypeRef)
    requires
        ref_in_range(*t, g.nodes@.len(), g.leaves@.len()),
    ensures
        final(out)@ == old(out)@ + single_arm(fl, *g, name@, vn@, *t),
{
    let ghost start = out@;
    let it = String::from_str("it");
    match fl {
        Flavor::Visit => {
            out.append("{\n");
            push_visit_step(out, false, g, t, &it);
            out.append("}\n");
        },
        Flavor::VisitMut => {
            out.append("{\n");
            push_visit_step(out, true, g, t, &it);
            out.append("}\n");
        },
        Flavor::Fold => {
            out.append(name.as_str());
            out.append("::");
            out.append(vn.as_str());
            out.append("(");
            push_fold_expr(out, g, t, &it);
            out.append("),\n");
        },
        Flavor::Debug => {
            out.append("{\nlet mut d = f.debug_tuple(\"");
            out.append(vn.as_str());
            out.append("\");\nd.field(it);\nd.finish()\n}\n");
        },
    }
    assert(out@ =~= start + single_arm(fl, *g, name@, vn@, *t));
}

fn push_fields_arm(
    out: &mut String,
    fl: Flavor,
    g: &Grammar,
    name: &String,
    vn: &String,
    fs: &Vec<Field>,
)
    requires
        fields_in_range(fs@, g.nodes@.len(), g.leaves@.len()),
    ensures
        final(out)@ == old(out)@ + fields_arm(fl, *g, name@, vn@, fs@),
{
    let ghost start = out@;
    match fl {
        Flavor::Fold => {
            out.append(name.as_str());
            out.append("::");
            out.append(vn.as_str());
            out.append(" {\n");
            push_fields(out, fl, g, fs, "");
            out.append("},\n");
        },
        Flavor::Debug => {
            out.append("{\nlet mut d = f.debug_struct(\"");
            out.append(vn.as_str());
            out.append("\");\n");
            push_fields(out, fl, g, fs, "");
            out.append("d.finish()\n}\n");
        },
        _ => {
            out.append("{\n");
            push_fields(out, fl, g, fs, "");
            out.append("}\n");
        },
    }
    assert(out@ =~= start + fields_arm(fl, *g, name@, vn@, fs@));
}

fn push_arm(out: &mut String, fl: Flavor, g: &Grammar, name: &String, v: &Variant)
    requires
        payload_in_range(v.payload, g.nodes@.len(), g.leaves@.len()),
    ensures
        final(out)@ == old(out)@ + arm_text(fl, *g, name@, *v),
{
    let ghost start = out@;
    out.append(name.as_str());
    out.append("::");
    out.append(v.name.as_str());
    let ghost pre = out@;
    match &v.payload {
        Payload::Unit => {
            out.append(" => ");
            match fl {
                Flavor::Fold => {
                    out.append(name.as_str());
                    out.append("::");
                    out.append(v.name.as_str());
                    out.append(",\n");
                },
                Flavor::Debug => {
                    out.append("f.write_str(\"");
                    out.append(v.name.as_str());
                    out.append("\"),\n");
                },
                _ => {
                    out.append("{}\n");
                },
            }
            assert(out@ =~= pre + " => "@ + unit_arm(fl, name@, v.name@));
        },
        Payload::Single(t) => {
            out.append("(it) => ");
            push_single_arm(out, fl, g, name, &v.name, t);
            assert(out@ =~= pre + "(it) => "@ + single_arm(fl, *g, name@, v.name@, *t));
        },
        Payload::Fields(fs) => {
            out.append(" { ");
            push_pattern_names(out, fs);
            out.append("} => ");
            push_fields_arm(out, fl, g, name, &v.name, fs);
            assert(out@ =~= pre + " { "@ + pattern_names(fs@) + "} => "@ + fields_arm(
                fl,
                *g,
                name@,
                v.name@,
                fs@,
            ));
        },
    }
    assert(out@ =~= start + arm_text(fl, *g, name@, *v));
}

fn push_arms(out: &mut String, fl: Flavor, g: &Grammar, name: &String, vs: &Vec<Variant>)
    requires
        forall|i: int|
            0 <= i < vs@.len() ==> payload_in_range(
                #[trigger] vs@[i].payload,
                g.nodes@.len(),
                g.leaves@.len(),
            ),
    ensures
        final(out)@ == old(out)@ + arms_text(fl, *g, name@, vs@),
{
    let ghost start = out@;
    let mut i: usize = 0;
    while i < vs.len()
        invariant
            forall|i: int|
                0 <= i < vs@.len() ==> payload_in_range(
                    #[trigger] vs@[i].payload,
                    g.nodes@.len(),
                    g.leaves@.len(),
                ),
            0 <= i <= vs@.len(),
            out@ == start + arms_text(fl, *g, name@, vs@.take(i as int)),
        decreases vs@.len() - i,
    {
        assert(vs@.take(i as int + 1).drop_last() =~= vs@.take(i as int));
        assert(vs@.take(i as int + 1).last() == vs@[i as int]);
        push_arm(out, fl, g, name, &vs[i]);
        i = i + 1;
        assert(out@ =~= start + arms_text(fl, *g, name@, vs@.take(i as int)));
    }
    assert(vs@.take(i as int) =~= vs@);
}

fn push_struct_body(out: &mut String, fl: Flavor, g: &Grammar, name: &String, fs: &Vec<Field>)
    requires
        fields_in_range(fs@, g.nodes@.len(), g.leaves@.len()),
    ensures
        final(out)@ == old(out)@ + struct_body(fl, *g, name@, fs@),
{
    let ghost start = out@;
    let nm = name.as_str();
    match fl {
        Flavor::Visit => push_fields(out, fl, g, fs, "&node."),
        Flavor::VisitMut => push_fields(out, fl, g, fs, "&mut node."),
        Flavor::Fold => {
            out.append(nm);
            out.append(" {\n");
            push_fields(out, fl, g, fs, "node.");
            out.append("}\n");
        },
        Flavor::Debug => {
            out.append("let mut d = f.debug_struct(\"");
            out.append(nm);
            out.append("\");\n");
            push_fields(out, fl, g, fs, "&node.");
            out.append("d.finish()\n");
        },
    }
    assert(out@ =~= start + struct_body(fl, *g, name@, fs@));
}

fn push_trivial_body(out: &mut String, fl: Flavor, name: &String)
    ensures
        final(out)@ == old(out)@ + trivial_body(fl, name@),
{
    let ghost start = out@;
    match fl {
        Flavor::Fold => out.append("node\n"),
        Flavor::Debug => {
            out.append("f.write_str(\"");
            out.append(name.as_str());
            out.append("\")\n");
        },
        _ => {},
    }
    assert(out@ =~= start + trivial_body(fl, name@));
}

fn push_method(out: &mut String, fl: Flavor, g: &Grammar, n: &Node)
    requires
        node_in_range(*n, g.nodes@.len(), g.leaves@.len()),
    ensures
        final(out)@ == old(out)@ + method_text(fl, *g, *n),
{
    let ghost start = out@;
    push_header(out, fl, &n.name);
    let ghost pre = out@;
    if n.leaf_like {
        push_trivial_body(out, fl, &n.name);
    } else {
        match &n.body {
            Body::Struct(fs) => push_struct_body(out, fl, g, &n.name, fs),
            Body::Enum(vs) => {
                out.append("match node {\n");
                push_arms(out, fl, g, &n.name, vs);
                out.append("}\n");
                assert(out@ =~= pre + "match node {\n"@ + arms_text(fl, *g, n.name@, vs@) + "}\n"@);
            },
        }
    }
    out.append("}\n");
    assert(out@ =~= start + method_text(fl, *g, *n));
}

fn ref_ok(t: &TypeRef, n: usize, l: usize) -> (r: bool)
    ensures
        r == ref_in_range(*t, n as nat, l as nat),
    decreases t,
{
    match t {
        TypeRef::Node(k) => *k < n,
        TypeRef::Leaf(k) => *k < l,
        TypeRef::Optional(b) => ref_ok(b, n, l),
        TypeRef::Sequence(b) => ref_ok(b, n, l),
        TypeRef::Boxed(b) => ref_ok(b, n, l),
        TypeRef::Separated(b, s) => *s < l && ref_ok(b, n, l),
    }
}

fn fields_ok(fs: &Vec<Field>, n: usize, l: usize) -> (r: bool)
    ensures
        r == fields_in_range(fs@, n as nat, l as nat),
{
    let mut i: usize = 0;
    while i < fs.len()
        invariant
            0 <= i <= fs@.len(),
            forall|j: int| 0 <= j < i ==> ref_in_range(#[trigger] fs@[j].ty, n as nat, l as nat),
        decreases fs@.len() - i,
    {
        if !ref_ok(&fs[i].ty, n, l) {
            return false;
        }
        i = i + 1;
    }
    true
}

fn node_ok(nd: &Node, n: usize, l: usize) -> (r: bool)
    ensures
        r == node_in_range(*nd, n as nat, l as nat),
{
    match &nd.body {
        Body::Struct(fs) => fields_ok(fs, n, l),
        Body::Enum(vs) => {
            let mut i: usize = 0;
            while i < vs.len()
                invariant
                    0 <= i <= vs@.len(),
                    nd.body == Body::Enum(*vs),
                    forall|j: int|
                        0 <= j < i ==> payload_in_range(#[trigger] vs@[j].payload, n as nat, l as nat),
                decreases vs@.len() - i,
            {
                let ok = match &vs[i].payload {
                    Payload::Unit => true,
                    Payload::Single(t) => ref_ok(t, n, l),
                    Payload::Fields(fs) => fields_ok(fs, n, l),
                };
                if !ok {
                    assert(!payload_in_range(vs@[i as int].payload, n as nat, l as nat));
                    return false;
                }
                i = i + 1;
            }
            true
        },
    }
}

/// Node `i` is the first node of the model with a reference that names no node
/// or leaf of the model.
pub open spec fn first_dangling(g: Grammar, i: int) -> bool {
    &&& 0 <= i < g.nodes@.len()
    &&& !node_in_range(g.nodes@[i], g.nodes@.len(), g.leaves@.len())
    &&& forall|j: int|
        0 <= j < i ==> node_in_range(#[trigger] g.nodes@[j], g.nodes@.len(), g.leaves@.len())
}

/// The first node of the model with a dangling reference, if any.
pub fn find_dangling(g: &Grammar) -> (r: Option<usize>)
    ensures
        match r {
            Some(i) => first_dangling(*g, i as int),
            None => g.closed(),
        },
{
    let n = g.nodes.len();
    let l = g.leaves.len();
    let mut i: usize = 0;
    while i < n
        invariant
            n == g.nodes@.len(),
            l == g.leaves@.len(),
            0 <= i <= n,
            forall|j: int| 0 <= j < i ==> node_in_range(#[trigger] g.nodes@[j], n as nat, l as nat),
        decreases n - i,
    {
        if !node_ok(&g.nodes[i], n, l) {
            return Some(i);
        }
        i = i + 1;
    }
    None
}

/// Whether every reference in the model names one of its nodes or leaves.
pub fn check_closed(g: &Grammar) -> (r: bool)
    ensures
        r == g.closed(),
{
    match find_dangling(g) {
        Some(i) => {
            assert(!node_in_range(g.nodes@[i as int], g.nodes@.len(), g.leaves@.len()));
            false
        },
        None => true,
    }
}

/// Generates the traversal artifact of one flavor: one method per node of the
/// model, in model order. A model with a dangling reference is an emitter error
/// that names the first node holding one.
pub fn emit(g: &Grammar, fl: Flavor) -> (r: Result<String, GenError>)
    ensures
        match r {
            Ok(s) => g.closed() && s@ == artifact_text(fl, *g),
            Err(e) => !g.closed() && e is EmitterError && first_dangling(*g, e->EmitterError_0 as int),
        },
{
    if let Some(i) = find_dangling(g) {
        assert(!node_in_range(g.nodes@[i as int], g.nodes@.len(), g.leaves@.len()));
        return Err(GenError::EmitterError(i));
    }
    let mut out = String::new();
    let mut i: usize = 0;
    while i < g.nodes.len()
        invariant
            g.closed(),
            0 <= i <= g.nodes@.len(),
            out@ == methods_text(fl, *g, g.nodes@.take(i as int)),
        decreases g.nodes@.len() - i,
    {
        assert(g.nodes@.take(i as int + 1).drop_last() =~= g.nodes@.take(i as int));
        assert(g.nodes@.take(i as int + 1).last() == g.nodes@[i as int]);
        assert(node_in_range(g.nodes@[i as int], g.nodes@.len(), g.leaves@.len()));
        push_method(&mut out, fl, g, &g.nodes[i]);
        i = i + 1;
    }
    assert(g.nodes@.take(i as int) =~= g.nodes@);
    Ok(out)
}

} // verus!
