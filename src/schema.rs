//! The schema exporter: a versioned, deterministic JSON description of the model.
use vstd::prelude::*;
use vstd::string::*;
use crate::emit::check_closed;
use crate::error::GenError;
use crate::model::{
    fields_in_range, node_in_range, payload_in_range, ref_in_range, Body, Field, Grammar, Node,
    Payload, TypeRef, Variant,
};

verus! {

/// A name can be written between quotes as it is: no quote, no backslash, no
/// control character.
pub open spec fn representable(s: Seq<char>) -> bool {
    forall|i: int| 0 <= i < s.len() ==> #[trigger] s[i] != '"' && s[i] != '\\' && (s[i] as u32) >= 32
}

pub open spec fn fields_repr(fs: Seq<Field>) -> bool {
    forall|k: int| 0 <= k < fs.len() ==> representable(#[trigger] fs[k].name@)
}

pub open spec fn variant_repr(v: Variant) -> bool {
    &&& representable(v.name@)
    &&& match v.payload {
        Payload::Fields(fs) => fields_repr(fs@),
        _ => true,
    }
}

pub open spec fn node_repr(n: Node) -> bool {
    &&& representable(n.name@)
    &&& match n.body {
        Body::Struct(fs) => fields_repr(fs@),
        Body::Enum(vs) => forall|k: int| 0 <= k < vs@.len() ==> variant_repr(#[trigger] vs@[k]),
    }
}

/// Every entity of the model, and the version, can be written in the schema.
pub open spec fn exportable(g: Grammar, version: Seq<char>) -> bool {
    &&& g.closed()
    &&& representable(version)
    &&& forall|i: int| 0 <= i < g.nodes@.len() ==> node_repr(#[trigger] g.nodes@[i])
    &&& forall|j: int| 0 <= j < g.leaves@.len() ==> representable(#[trigger] g.leaves@[j]@)
}

pub open spec fn quoted(s: Seq<char>) -> Seq<char> {
    "\""@ + s + "\""@
}

pub open spec fn type_json(g: Grammar, t: TypeRef) -> Seq<char>
    decreases t,
{
    match t {
        TypeRef::Node(k) => "{\"node\":"@ + quoted(g.nodes@[k as int].name@) + "}"@,
        TypeRef::Leaf(k) => "{\"leaf\":"@ + quoted(g.leaves@[k as int]@) + "}"@,
        TypeRef::Optional(b) => "{\"option\":"@ + type_json(g, *b) + "}"@,
        TypeRef::Sequence(b) => "{\"vec\":"@ + type_json(g, *b) + "}"@,
        TypeRef::Boxed(b) => "{\"box\":"@ + type_json(g, *b) + "}"@,
        TypeRef::Separated(b, s) => "{\"punctuated\":"@ + type_json(g, *b) + ",\"punct\":"@
            + quoted(g.leaves@[s as int]@) + "}"@,
    }
}

pub open spec fn field_json(g: Grammar, f: Field) -> Seq<char> {
    "{\"ident\":"@ + quoted(f.name@) + ",\"type\":"@ + type_json(g, f.ty) + "}"@
}

/// The fields' entries, separated by commas.
pub open spec fn fields_json(g: Grammar, fs: Seq<Field>) -> Seq<char>
    decreases fs.len(),
{
    if fs.len() == 0 {
        Seq::empty()
    } else if fs.len() == 1 {
        field_json(g, fs[0])
    } else {
        fields_json(g, fs.drop_last()) + ","@ + field_json(g, fs.last())
    }
}

pub open spec fn payload_json(g: Grammar, p: Payload) -> Seq<char> {
    match p {
        Payload::Unit => "null"@,
        Payload::Single(t) => "{\"type\":"@ + type_json(g, t) + "}"@,
        Payload::Fields(fs) => "{\"fields\":["@ + fields_json(g, fs@) + "]}"@,
    }
}

pub open spec fn variant_json(g: Grammar, v: Variant) -> Seq<char> {
    "{\"ident\":"@ + quoted(v.name@) + ",\"payload\":"@ + payload_json(g, v.payload) + "}"@
}

pub open spec fn variants_json(g: Grammar, vs: Seq<Variant>) -> Seq<char>
    decreases vs.len(),
{
    if vs.len() == 0 {
        Seq::empty()
    } else if vs.len() == 1 {
        variant_json(g, vs[0])
    } else {
        variants_json(g, vs.drop_last()) + ","@ + variant_json(g, vs.last())
    }
}

pub open spec fn bool_json(b: bool) -> Seq<char> {
    if b {
        "true"@
    } else {
        "false"@
    }
}

pub open spec fn node_json(g: Grammar, n: Node) -> Seq<char> {
    "{\"ident\":"@ + quoted(n.name@) + ",\"leaf_like\":"@ + bool_json(n.leaf_like) + match n.body {
        Body::Struct(fs) => ",\"kind\":\"struct\",\"fields\":["@ + fields_json(g, fs@) + "]}"@,
        Body::Enum(vs) => ",\"kind\":\"enum\",\"variants\":["@ + variants_json(g, vs@) + "]}"@,
    }
}

pub open spec fn nodes_json(g: Grammar, ns: Seq<Node>) -> Seq<char>
    decreases ns.len(),
{
    if ns.len() == 0 {
        Seq::empty()
    } else if ns.len() == 1 {
        node_json(g, ns[0])
    } else {
        nodes_json(g, ns.drop_last()) + ","@ + node_json(g, ns.last())
    }
}

/// The schema document of the model, stamped with `version`.
pub open spec fn schema_text(g: Grammar, version: Seq<char>) -> Seq<char> {
    "{\"version\":"@ + quoted(version) + ",\"nodes\":["@ + nodes_json(g, g.nodes@) + "]}\n"@
}

fn push_quoted(out: &mut String, s: &str)
    ensures
        final(out)@ == old(out)@ + quoted(s@),
{
    let ghost start = out@;
    out.append("\"");
    out.append(s);
    out.append("\"");
    assert(out@ =~= start + quoted(s@));
}

fn push_type(out: &mut String, g: &Grammar, t: &TypeRef)
    requires
        ref_in_range(*t, g.nodes@.len(), g.leaves@.len()),
    ensures
        final(out)@ == old(out)@ + type_json(*g, *t),
    decreases t,
{
    let ghost start = out@;
    match t {
        TypeRef::Node(k) => {
            out.append("{\"node\":");
            push_quoted(out, g.nodes[*k].name.as_str());
            out.append("}");
        },
        TypeRef::Leaf(k) => {
            out.append("{\"leaf\":");
            push_quoted(out, g.leaves[*k].as_str());
            out.append("}");
        },
        TypeRef::Optional(b) => {
            out.append("{\"option\":");
            push_type(out, g, b);
            out.append("}");
        },
        TypeRef::Sequence(b) => {
            out.append("{\"vec\":");
            push_type(out, g, b);
            out.append("}");
        },
        TypeRef::Boxed(b) => {
            out.append("{\"box\":");
            push_type(out, g, b);
            out.append("}");
        },
        TypeRef::Separated(b, s) => {
            out.append("{\"punctuated\":");
            push_type(out, g, b);
            out.append(",\"punct\":");
            push_quoted(out, g.leaves[*s].as_str());
            out.append("}");
        },
    }
    assert(out@ =~= start + type_json(*g, *t));
}

fn push_fields_json(out: &mut String, g: &Grammar, fs: &Vec<Field>)
    requires
        fields_in_range(fs@, g.nodes@.len(), g.leaves@.len()),
    ensures
        final(out)@ == old(out)@ + fields_json(*g, fs@),
{
    let ghost start = out@;
    let mut i: usize = 0;
    while i < fs.len()
        invariant
            fields_in_range(fs@, g.nodes@.len(), g.leaves@.len()),
            0 <= i <= fs@.len(),
            out@ == start + fields_json(*g, fs@.take(i as int)),
        decreases fs@.len() - i,
    {
        assert(fs@.take(i as int + 1).drop_last() =~= fs@.take(i as int));
        assert(fs@.take(i as int + 1).last() == fs@[i as int]);
        assert(ref_in_range(fs@[i as int].ty, g.nodes@.len(), g.leaves@.len()));
        if i > 0 {
            out.append(",");
        }
        out.append("{\"ident\":");
        push_quoted(out, fs[i].name.as_str());
        out.append(",\"type\":");
        push_type(out, g, &fs[i].ty);
        out.append("}");
        i = i + 1;
        assert(out@ =~= start + fields_json(*g, fs@.take(i as int)));
    }
    assert(fs@.take(i as int) =~= fs@);
}

fn push_payload(out: &mut String, g: &Grammar, p: &Payload)
    requires
        payload_in_range(*p, g.nodes@.len(), g.leaves@.len()),
    ensures
        final(out)@ == old(out)@ + payload_json(*g, *p),
{
    let ghost start = out@;
    match p {
        Payload::Unit => out.append("null"),
        Payload::Single(t) => {
            out.append("{\"type\":");
            push_type(out, g, t);
            out.append("}");
        },
        Payload::Fields(fs) => {
            out.append("{\"fields\":[");
            push_fields_json(out, g, fs);
            out.append("]}");
        },
    }
    assert(out@ =~= start + payload_json(*g, *p));
}

fn push_variants_json(out: &mut String, g: &Grammar, vs: &Vec<Variant>)
    requires
        forall|i: int|
            0 <= i < vs@.len() ==> payload_in_range(
                #[trigger] vs@[i].payload,
                g.nodes@.len(),
                g.leaves@.len(),
            ),
    ensures
        final(out)@ == old(out)@ + variants_json(*g, vs@),
{
    let ghost start = out@;
    let mut i: usize = 0;
    while i < vs.len()
        invariant
            forall|i: int|
                0 <= i < vs@.len() ==> payload_in_range(
                    #[trigger] vs@[i].payload,
                    g.nodes@.len(),
                    g.leaves@.len(),
                ),
            0 <= i <= vs@.len(),
            out@ == start + variants_json(*g, vs@.take(i as int)),
        decreases vs@.len() - i,
    {
        assert(vs@.take(i as int + 1).drop_last() =~= vs@.take(i as int));
        assert(vs@.take(i as int + 1).last() == vs@[i as int]);
        if i > 0 {
            out.append(",");
        }
        out.append("{\"ident\":");
        push_quoted(out, vs[i].name.as_str());
        out.append(",\"payload\":");
        push_payload(out, g, &vs[i].payload);
        out.append("}");
        i = i + 1;
        assert(out@ =~= start + variants_json(*g, vs@.take(i as int)));
    }
    assert(vs@.take(i as int) =~= vs@);
}

fn push_node_json(out: &mut String, g: &Grammar, n: &Node)
    requires
        node_in_range(*n, g.nodes@.len(), g.leaves@.len()),
    ensures
        final(out)@ == old(out)@ + node_json(*g, *n),
{
    let ghost start = out@;
    out.append("{\"ident\":");
    push_quoted(out, n.name.as_str());
    out.append(",\"leaf_like\":");
    if n.leaf_like {
        out.append("true");
    } else {
        out.append("false");
    }
    let ghost pre = out@;
    assert(pre =~= start + "{\"ident\":"@ + quoted(n.name@) + ",\"leaf_like\":"@ + bool_json(
        n.leaf_like,
    ));
    match &n.body {
        Body::Struct(fs) => {
            out.append(",\"kind\":\"struct\",\"fields\":[");
            push_fields_json(out, g, fs);
            out.append("]}");
            assert(out@ =~= pre + ",\"kind\":\"struct\",\"fields\":["@ + fields_json(*g, fs@) + "]}"@);
        },
        Body::Enum(vs) => {
            out.append(",\"kind\":\"enum\",\"variants\":[");
            push_variants_json(out, g, vs);
            out.append("]}");
            assert(out@ =~= pre + ",\"kind\":\"enum\",\"variants\":["@ + variants_json(*g, vs@) + "]}"@);
        },
    }
    assert(out@ =~= start + node_json(*g, *n));
}

/// Whether a name can be written between quotes as it is.
pub fn is_representable(s: &String) -> (r: bool)
    ensures
        r == representable(s@),
{
    let a = s.as_str();
    let n = a.unicode_len();
    let mut i: usize = 0;
    while i < n
        invariant
            n == a@.len(),
            a@ == s@,
            0 <= i <= n,
            forall|j: int|
                0 <= j < i ==> #[trigger] a@[j] != '"' && a@[j] != '\\' && (a@[j] as u32) >= 32,
        decreases n - i,
    {
        let c = a.get_char(i);
        if c == '"' || c == '\\' || (c as u32) < 32 {
            return false;
        }
        i = i + 1;
    }
    true
}

fn fields_representable(fs: &Vec<Field>) -> (r: bool)
    ensures
        r == fields_repr(fs@),
{
    let mut i: usize = 0;
    while i < fs.len()
        invariant
            0 <= i <= fs@.len(),
            forall|k: int| 0 <= k < i ==> representable(#[trigger] fs@[k].name@),
        decreases fs@.len() - i,
    {
        if !is_representable(&fs[i].name) {
            return false;
        }
        i = i + 1;
    }
    true
}

fn variant_representable(v: &Variant) -> (r: bool)
    ensures
        r == variant_repr(*v),
{
    is_representable(&v.name) && match &v.payload {
        Payload::Fields(fs) => fields_representable(fs),
        _ => true,
    }
}

fn variants_representable(vs: &Vec<Variant>) -> (r: bool)
    ensures
        r == forall|k: int| 0 <= k < vs@.len() ==> variant_repr(#[trigger] vs@[k]),
{
    let mut i: usize = 0;
    while i < vs.len()
        invariant
            0 <= i <= vs@.len(),
            forall|k: int| 0 <= k < i ==> variant_repr(#[trigger] vs@[k]),
        decreases vs@.len() - i,
    {
        if !variant_representable(&vs[i]) {
            return false;
        }
        i = i + 1;
    }
    true
}

fn node_representable(n: &Node) -> (r: bool)
    ensures
        r == node_repr(*n),
{
    is_representable(&n.name) && match &n.body {
        Body::Struct(fs) => fields_representable(fs),
        Body::Enum(vs) => variants_representable(vs),
    }
}

/// Whether the model and the version can be written in the schema.
pub fn check_exportable(g: &Grammar, version: &String) -> (r: bool)
    ensures
        r == exportable(*g, version@),
{
    if !check_closed(g) || !is_representable(version) {
        return false;
    }
    let mut i: usize = 0;
    while i < g.nodes.len()
        invariant
            0 <= i <= g.nodes@.len(),
            forall|k: int| 0 <= k < i ==> node_repr(#[trigger] g.nodes@[k]),
        decreases g.nodes@.len() - i,
    {
        if !node_representable(&g.nodes[i]) {
            return false;
        }
        i = i + 1;
    }
    let mut j: usize = 0;
    while j < g.leaves.len()
        invariant
            0 <= j <= g.leaves@.len(),
            forall|k: int| 0 <= k < j ==> representable(#[trigger] g.leaves@[k]@),
        decreases g.leaves@.len() - j,
    {
        if !is_representable(&g.leaves[j]) {
            return false;
        }
        j = j + 1;
    }
    true
}

/// Writes the schema document of the model, stamped with `version`. A model
/// with a dangling reference or a name that cannot be written is refused.
pub fn export_schema(g: &Grammar, version: &String) -> (r: Result<String, GenError>)
    ensures
        match r {
            Ok(s) => exportable(*g, version@) && s@ == schema_text(*g, version@),
            Err(e) => !exportable(*g, version@) && e == GenError::UnsupportedSchemaEntity,
        },
{
    if !check_exportable(g, version) {
        return Err(GenError::UnsupportedSchemaEntity);
    }
    let mut out = String::new();
    out.append("{\"version\":");
    push_quoted(&mut out, version.as_str());
    out.append(",\"nodes\":[");
    let ghost start = out@;
    let mut i: usize = 0;
    while i < g.nodes.len()
        invariant
            g.closed(),
            0 <= i <= g.nodes@.len(),
            out@ == start + nodes_json(*g, g.nodes@.take(i as int)),
        decreases g.nodes@.len() - i,
    {
        assert(g.nodes@.take(i as int + 1).drop_last() =~= g.nodes@.take(i as int));
        assert(g.nodes@.take(i as int + 1).last() == g.nodes@[i as int]);
        assert(node_in_range(g.nodes@[i as int], g.nodes@.len(), g.leaves@.len()));
        if i > 0 {
            out.append(",");
        }
        push_node_json(&mut out, g, &g.nodes[i]);
        i = i + 1;
        assert(out@ =~= start + nodes_json(*g, g.nodes@.take(i as int)));
    }
    assert(g.nodes@.take(i as int) =~= g.nodes@);
    out.append("]}\n");
    assert(out@ =~= schema_text(*g, version@));
    Ok(out)
}

} // verus!
