//! The eligibility filter: which declarations, fields and variants a feature set keeps.
use vstd::prelude::*;
use crate::raw::{RawDecl, RawField, RawPayload, RawVariant};
use crate::resolve::{find_name, name_index};

verus! {

/// A gate is open when absent or when it names a feature of `set`.
pub open spec fn gate_in(g: Option<String>, set: Seq<String>) -> bool {
    match g {
        None => true,
        Some(f) => name_index(set, f@) is Some,
    }
}

/// The indices at which `mask` holds, in increasing order.
pub open spec fn kept(mask: Seq<bool>) -> Seq<int>
    decreases mask.len(),
{
    if mask.len() == 0 {
        Seq::empty()
    } else {
        let r = kept(mask.drop_last());
        if mask.last() {
            r.push(mask.len() - 1)
        } else {
            r
        }
    }
}

pub open spec fn decl_mask(ds: Seq<RawDecl>, enabled: Seq<String>) -> Seq<bool> {
    Seq::new(ds.len(), |i: int| gate_in(ds[i].gate, enabled))
}

pub open spec fn field_mask(fs: Seq<RawField>, enabled: Seq<String>) -> Seq<bool> {
    Seq::new(fs.len(), |i: int| gate_in(fs[i].gate, enabled))
}

pub open spec fn variant_mask(vs: Seq<RawVariant>, enabled: Seq<String>) -> Seq<bool> {
    Seq::new(vs.len(), |i: int| gate_in(vs[i].gate, enabled))
}

/// The kept indices are in range, hold in the mask, increase strictly, and
/// every index that holds is kept.
pub proof fn lemma_kept(mask: Seq<bool>)
    ensures
        forall|k: int|
            0 <= k < kept(mask).len() ==> 0 <= (#[trigger] kept(mask)[k]) < mask.len(),
        forall|k: int| 0 <= k < kept(mask).len() ==> mask[#[trigger] kept(mask)[k]],
        forall|k: int, l: int|
            0 <= k < l < kept(mask).len() ==> #[trigger] kept(mask)[k] < #[trigger] kept(mask)[l],
        forall|j: int|
            0 <= j < mask.len() && #[trigger] mask[j] ==> exists|k: int|
                0 <= k < kept(mask).len() && kept(mask)[k] == j,
        kept(mask).len() <= mask.len(),
    decreases mask.len(),
{
    if mask.len() > 0 {
        let m = mask.drop_last();
        lemma_kept(m);
        let r = kept(m);
        assert forall|k: int| 0 <= k < r.len() implies mask[#[trigger] r[k]] by {
            assert(m[r[k]] == mask[r[k]]);
        }
        assert forall|j: int| 0 <= j < mask.len() && #[trigger] mask[j] implies exists|k: int|
            0 <= k < kept(mask).len() && kept(mask)[k] == j by {
            if j < mask.len() - 1 {
                assert(m[j] == mask[j]);
                let k = choose|k: int| 0 <= k < r.len() && r[k] == j;
                assert(kept(mask)[k] == j);
            } else {
                assert(kept(mask) == r.push(mask.len() - 1));
                assert(kept(mask)[r.len() as int] == j);
            }
        }
    }
}

/// The integers that a sequence of indices stands for.
pub open spec fn as_ints(v: Seq<usize>) -> Seq<int> {
    v.map_values(|x: usize| x as int)
}

/// The indices at which `mask` holds.
pub fn kept_indices(mask: &Vec<bool>) -> (r: Vec<usize>)
    ensures
        as_ints(r@) == kept(mask@),
        forall|k: int| 0 <= k < r@.len() ==> (#[trigger] r@[k]) < mask@.len(),
{
    let mut out: Vec<usize> = Vec::new();
    let mut i: usize = 0;
    while i < mask.len()
        invariant
            0 <= i <= mask@.len(),
            as_ints(out@) =~= kept(mask@.take(i as int)),
        decreases mask@.len() - i,
    {
        assert(mask@.take(i as int + 1).drop_last() =~= mask@.take(i as int));
        if mask[i] {
            out.push(i);
        }
        i = i + 1;
    }
    assert(mask@.take(i as int) =~= mask@);
    proof {
        lemma_kept(mask@);
        assert forall|k: int| 0 <= k < out@.len() implies (#[trigger] out@[k]) < mask@.len() by {
            assert(as_ints(out@)[k] == out@[k] as int);
        }
    }
    out
}

/// Whether a gate is open for `set`.
pub fn gate_open(g: &Option<String>, set: &Vec<String>) -> (r: bool)
    ensures
        r == gate_in(*g, set@),
{
    match g {
        None => true,
        Some(f) => find_name(set, f).is_some(),
    }
}

pub fn decls_mask(ds: &Vec<RawDecl>, enabled: &Vec<String>) -> (r: Vec<bool>)
    ensures
        r@ == decl_mask(ds@, enabled@),
{
    let mut out: Vec<bool> = Vec::new();
    let mut i: usize = 0;
    while i < ds.len()
        invariant
            0 <= i <= ds@.len(),
            out@ =~= decl_mask(ds@, enabled@).take(i as int),
        decreases ds@.len() - i,
    {
        out.push(gate_open(&ds[i].gate, enabled));
        i = i + 1;
    }
    out
}

pub fn fields_mask(fs: &Vec<RawField>, enabled: &Vec<String>) -> (r: Vec<bool>)
    ensures
        r@ == field_mask(fs@, enabled@),
{
    let mut out: Vec<bool> = Vec::new();
    let mut i: usize = 0;
    while i < fs.len()
        invariant
            0 <= i <= fs@.len(),
            out@ =~= field_mask(fs@, enabled@).take(i as int),
        decreases fs@.len() - i,
    {
        out.push(gate_open(&fs[i].gate, enabled));
        i = i + 1;
    }
    out
}

pub fn variants_mask(vs: &Vec<RawVariant>, enabled: &Vec<String>) -> (r: Vec<bool>)
    ensures
        r@ == variant_mask(vs@, enabled@),
{
    let mut out: Vec<bool> = Vec::new();
    let mut i: usize = 0;
    while i < vs.len()
        invariant
            0 <= i <= vs@.len(),
            out@ =~= variant_mask(vs@, enabled@).take(i as int),
        decreases vs@.len() - i,
    {
        out.push(gate_open(&vs[i].gate, enabled));
        i = i + 1;
    }
    out
}

/// Every gate on the fields names a declared feature.
pub open spec fn field_gates_known(fs: Seq<RawField>, features: Seq<String>) -> bool {
    forall|k: int| 0 <= k < fs.len() ==> gate_in(#[trigger] fs[k].gate, features)
}

pub open spec fn payload_gates_known(p: RawPayload, features: Seq<String>) -> bool {
    match p {
        RawPayload::Fields(fs) => field_gates_known(fs@, features),
        _ => true,
    }
}

/// Every gate in the declaration names a declared feature.
pub open spec fn decl_gates_known(d: RawDecl, features: Seq<String>) -> bool {
    &&& gate_in(d.gate, features)
    &&& match d.body {
        crate::raw::RawBody::Struct(fs) => field_gates_known(fs@, features),
        crate::raw::RawBody::Enum(vs) => variant_gates_known(vs@, features),
    }
}

pub open spec fn variant_gates_known(vs: Seq<RawVariant>, features: Seq<String>) -> bool {
    forall|k: int|
        0 <= k < vs.len() ==> gate_in(#[trigger] vs[k].gate, features) && payload_gates_known(
            vs[k].payload,
            features,
        )
}

fn check_field_gates(fs: &Vec<RawField>, features: &Vec<String>) -> (r: bool)
    ensures
        r == field_gates_known(fs@, features@),
{
    let mut i: usize = 0;
    while i < fs.len()
        invariant
            0 <= i <= fs@.len(),
            field_gates_known(fs@.take(i as int), features@),
        decreases fs@.len() - i,
    {
        if !gate_open(&fs[i].gate, features) {
            assert(!gate_in(fs@[i as int].gate, features@));
            return false;
        }
        assert(fs@.take(i as int + 1)[i as int] == fs@[i as int]);
        i = i + 1;
    }
    assert(fs@.take(i as int) =~= fs@);
    true
}

/// Whether every gate in the declaration names a declared feature.
pub fn check_decl_gates(d: &RawDecl, features: &Vec<String>) -> (r: bool)
    ensures
        r == decl_gates_known(*d, features@),
{
    if !gate_open(&d.gate, features) {
        return false;
    }
    match &d.body {
        crate::raw::RawBody::Struct(fs) => check_field_gates(fs, features),
        crate::raw::RawBody::Enum(vs) => check_variant_gates(vs, features),
    }
}

fn check_variant_gates(vs: &Vec<RawVariant>, features: &Vec<String>) -> (r: bool)
    ensures
        r == variant_gates_known(vs@, features@),
{
    let mut i: usize = 0;
    while i < vs.len()
        invariant
            0 <= i <= vs@.len(),
            forall|k: int|
                0 <= k < i ==> gate_in(#[trigger] vs@[k].gate, features@) && payload_gates_known(
                    vs@[k].payload,
                    features@,
                ),
        decreases vs@.len() - i,
    {
        if !gate_open(&vs[i].gate, features) {
            assert(!gate_in(vs@[i as int].gate, features@));
            return false;
        }
        let ok = match &vs[i].payload {
            RawPayload::Fields(fs) => check_field_gates(fs, features),
            _ => true,
        };
        if !ok {
            assert(!payload_gates_known(vs@[i as int].payload, features@));
            return false;
        }
        i = i + 1;
    }
    true
}

} // verus!
