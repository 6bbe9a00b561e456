//! Detection of nodes that contain themselves by value.
use vstd::prelude::*;
use crate::model::{Body, Field, Grammar, Node, Payload, TypeRef, Variant};

verus! {

/// The node that a reference holds by value: `Optional` keeps a value inline,
/// while `Boxed`, `Sequence` and `Separated` put it behind an indirection.
pub open spec fn direct_target(t: TypeRef) -> Option<usize>
    decreases t,
{
    match t {
        TypeRef::Node(k) => Some(k),
        TypeRef::Optional(b) => direct_target(*b),
        _ => None,
    }
}

pub open spec fn fields_hold(fs: Seq<Field>, b: usize) -> bool {
    exists|k: int| 0 <= k < fs.len() && direct_target(#[trigger] fs[k].ty) == Some(b)
}

pub open spec fn payload_holds(p: Payload, b: usize) -> bool {
    match p {
        Payload::Unit => false,
        Payload::Single(t) => direct_target(t) == Some(b),
        Payload::Fields(fs) => fields_hold(fs@, b),
    }
}

/// Node `n` holds a value of node `b` inline.
pub open spec fn holds_inline(n: Node, b: usize) -> bool {
    match n.body {
        Body::Struct(fs) => fields_hold(fs@, b),
        Body::Enum(vs) => exists|k: int| 0 <= k < vs@.len() && payload_holds(#[trigger] vs@[k].payload, b),
    }
}

/// One more step of inline containment from the nodes marked in `m`.
pub open spec fn step(g: Grammar, m: Seq<bool>) -> Seq<bool> {
    Seq::new(
        g.nodes@.len(),
        |b: int|
            m[b] || exists|a: int|
                0 <= a < g.nodes@.len() && m[a] && holds_inline(#[trigger] g.nodes@[a], b as usize),
    )
}

/// The nodes that node `s` contains inline through a chain of at most `k + 1` links.
pub open spec fn reach(g: Grammar, s: int, k: nat) -> Seq<bool>
    decreases k,
{
    if k == 0 {
        Seq::new(g.nodes@.len(), |b: int| holds_inline(g.nodes@[s], b as usize))
    } else {
        step(g, reach(g, s, (k - 1) as nat))
    }
}

/// Some node contains itself inline, through a chain of at most as many
/// links as there are nodes (every cycle has a chain that short).
pub open spec fn has_unboxed_cycle(g: Grammar) -> bool {
    let n = g.nodes@.len();
    exists|s: int| 0 <= s < n && #[trigger] reach(g, s, (n - 1) as nat)[s]
}

fn direct_of(t: &TypeRef) -> (r: Option<usize>)
    ensures
        r == direct_target(*t),
    decreases t,
{
    match t {
        TypeRef::Node(k) => Some(*k),
        TypeRef::Optional(b) => direct_of(b),
        _ => None,
    }
}

fn fields_hold_exec(fs: &Vec<Field>, b: usize) -> (r: bool)
    ensures
        r == fields_hold(fs@, b),
{
    let mut k: usize = 0;
    while k < fs.len()
        invariant
            0 <= k <= fs@.len(),
            forall|j: int| 0 <= j < k ==> direct_target(#[trigger] fs@[j].ty) != Some(b),
        decreases fs@.len() - k,
    {
        if direct_of(&fs[k].ty) == Some(b) {
            return true;
        }
        k = k + 1;
    }
    false
}

fn payload_holds_exec(p: &Payload, b: usize) -> (r: bool)
    ensures
        r == payload_holds(*p, b),
{
    match p {
        Payload::Unit => false,
        Payload::Single(t) => direct_of(t) == Some(b),
        Payload::Fields(fs) => fields_hold_exec(fs, b),
    }
}

fn variants_hold(vs: &Vec<Variant>, b: usize) -> (r: bool)
    ensures
        r == exists|k: int| 0 <= k < vs@.len() && payload_holds(#[trigger] vs@[k].payload, b),
{
    let mut k: usize = 0;
    while k < vs.len()
        invariant
            0 <= k <= vs@.len(),
            forall|j: int| 0 <= j < k ==> !payload_holds(#[trigger] vs@[j].payload, b),
        decreases vs@.len() - k,
    {
        if payload_holds_exec(&vs[k].payload, b) {
            return true;
        }
        k = k + 1;
    }
    false
}

/// Whether node `n` holds a value of node `b` inline.
pub fn holds_inline_exec(n: &Node, b: usize) -> (r: bool)
    ensures
        r == holds_inline(*n, b),
{
    match &n.body {
        Body::Struct(fs) => fields_hold_exec(fs, b),
        Body::Enum(vs) => variants_hold(vs, b),
    }
}

fn first_links(g: &Grammar, s: usize) -> (r: Vec<bool>)
    requires
        s < g.nodes@.len(),
    ensures
        r@ == reach(*g, s as int, 0),
{
    let n = g.nodes.len();
    let mut out: Vec<bool> = Vec::new();
    let mut b: usize = 0;
    while b < n
        invariant
            n == g.nodes@.len(),
            s < n,
            0 <= b <= n,
            out@ =~= reach(*g, s as int, 0).take(b as int),
        decreases n - b,
    {
        out.push(holds_inline_exec(&g.nodes[s], b));
        b = b + 1;
    }
    out
}

fn step_exec(g: &Grammar, m: &Vec<bool>) -> (r: Vec<bool>)
    requires
        m@.len() == g.nodes@.len(),
    ensures
        r@ == step(*g, m@),
{
    let n = g.nodes.len();
    let mut out: Vec<bool> = Vec::new();
    let mut b: usize = 0;
    while b < n
        invariant
            n == g.nodes@.len(),
            m@.len() == n,
            0 <= b <= n,
            out@ =~= step(*g, m@).take(b as int),
        decreases n - b,
    {
        let mut v = m[b];
        let mut a: usize = 0;
        while a < n && !v
            invariant
                n == g.nodes@.len(),
                m@.len() == n,
                0 <= b < n,
                0 <= a <= n,
                v ==> step(*g, m@)[b as int],
                !v ==> !m@[b as int],
                !v ==> forall|x: int|
                    0 <= x < a ==> !(m@[x] && holds_inline(#[trigger] g.nodes@[x], b)),
            decreases n - a,
        {
            if m[a] && holds_inline_exec(&g.nodes[a], b) {
                v = true;
            }
            a = a + 1;
        }
        assert(v == step(*g, m@)[b as int]);
        out.push(v);
        b = b + 1;
    }
    out
}

/// Whether some node of `g` contains itself inline.
pub fn find_unboxed_cycle(g: &Grammar) -> (r: bool)
    ensures
        r == has_unboxed_cycle(*g),
{
    let n = g.nodes.len();
    let mut s: usize = 0;
    while s < n
        invariant
            n == g.nodes@.len(),
            0 <= s <= n,
            forall|x: int| 0 <= x < s ==> !#[trigger] reach(*g, x, (n - 1) as nat)[x],
        decreases n - s,
    {
        let mut m = first_links(g, s);
        let mut k: usize = 0;
        while k + 1 < n
            invariant
                n == g.nodes@.len(),
                s < n,
                0 <= k < n,
                m@ == reach(*g, s as int, k as nat),
            decreases n - k,
        {
            m = step_exec(g, &m);
            k = k + 1;
        }
        if m[s] {
            assert(reach(*g, s as int, (n - 1) as nat)[s as int]);
            return true;
        }
        s = s + 1;
    }
    false
}

} // verus!
