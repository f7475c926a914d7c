//! Opaque wire handles: the "values" the circuit computes with.
//!
//! A [`Target`] names one wire of the constraint arena; it carries no field
//! element, only the wire's position.  Extension-field values are pairs of
//! wires (the circuit works over the quadratic extension), and digests are
//! quadruples.

use vstd::prelude::*;

verus! {

/// Degree of the extension field the combination and folding steps work in.
pub const EXT_DEGREE: usize = 2;

/// Number of base-field elements in one digest.
pub const NUM_HASH_OUT_ELTS: usize = 4;

/// A handle to one wire of the constraint arena.
#[derive(Clone, Copy, PartialEq, Eq, Structural, Debug)]
pub struct Target {
    pub index: usize,
}

/// A wire constrained (by the gadget that produced it) to hold 0 or 1.
#[derive(Clone, Copy, PartialEq, Eq, Structural, Debug)]
pub struct BoolTarget {
    pub target: Target,
}

/// A value of the quadratic extension field: one wire per coefficient.
#[derive(Clone, Copy, PartialEq, Eq, Structural, Debug)]
pub struct ExtTarget {
    pub c0: Target,
    pub c1: Target,
}

/// A hash digest: four base-field wires.
#[derive(Clone, Copy, PartialEq, Eq, Structural, Debug)]
pub struct HashOutTarget {
    pub e0: Target,
    pub e1: Target,
    pub e2: Target,
    pub e3: Target,
}

/// The handle lives in an arena of `n` wires.
pub open spec fn target_ok(t: Target, n: nat) -> bool {
    t.index < n
}

pub open spec fn bool_ok(b: BoolTarget, n: nat) -> bool {
    target_ok(b.target, n)
}

pub open spec fn ext_ok(e: ExtTarget, n: nat) -> bool {
    target_ok(e.c0, n) && target_ok(e.c1, n)
}

pub open spec fn hash_ok(h: HashOutTarget, n: nat) -> bool {
    target_ok(h.e0, n) && target_ok(h.e1, n) && target_ok(h.e2, n) && target_ok(h.e3, n)
}

pub open spec fn targets_ok(s: Seq<Target>, n: nat) -> bool {
    forall|i: int| 0 <= i < s.len() ==> target_ok(#[trigger] s[i], n)
}

pub open spec fn bools_ok(s: Seq<BoolTarget>, n: nat) -> bool {
    forall|i: int| 0 <= i < s.len() ==> bool_ok(#[trigger] s[i], n)
}

pub open spec fn exts_ok(s: Seq<ExtTarget>, n: nat) -> bool {
    forall|i: int| 0 <= i < s.len() ==> ext_ok(#[trigger] s[i], n)
}

pub open spec fn hashes_ok(s: Seq<HashOutTarget>, n: nat) -> bool {
    forall|i: int| 0 <= i < s.len() ==> hash_ok(#[trigger] s[i], n)
}

/// An element-wise copy of a vector of plain handles.
pub fn copy_vec<T: Copy>(v: &Vec<T>) -> (r: Vec<T>)
    ensures
        r@ == v@,
{
    let mut r: Vec<T> = Vec::new();
    let mut i: usize = 0;
    while i < v.len()
        invariant
            i <= v.len(),
            r@ == v@.subrange(0, i as int),
        decreases v.len() - i,
    {
        let x = v[i];
        r.push(x);
        proof {
            assert(r@ =~= v@.subrange(0, i + 1));
        }
        i = i + 1;
    }
    proof {
        assert(r@ =~= v@);
    }
    r
}

/// The contiguous piece `v[from..to]`, as its own vector.
pub fn subrange_vec<T: Copy>(v: &Vec<T>, from: usize, to: usize) -> (r: Vec<T>)
    requires
        from <= to <= v@.len(),
    ensures
        r@ == v@.subrange(from as int, to as int),
{
    let mut r: Vec<T> = Vec::new();
    let mut i: usize = from;
    while i < to
        invariant
            from <= i <= to <= v@.len(),
            r@ == v@.subrange(from as int, i as int),
        decreases to - i,
    {
        let x = v[i];
        r.push(x);
        proof {
            assert(r@ =~= v@.subrange(from as int, i + 1));
        }
        i = i + 1;
    }
    r
}

/// The wires of a list of extension values, coefficients in order.
pub fn flatten_ext_vec(v: &Vec<ExtTarget>) -> (r: Vec<Target>)
    ensures
        r@.len() == 2 * v@.len(),
        forall|i: int|
            0 <= i < v@.len() ==> r@[2 * i] == (#[trigger] v@[i]).c0 && r@[2 * i + 1] == v@[i].c1,
{
    let mut r: Vec<Target> = Vec::new();
    let mut i: usize = 0;
    while i < v.len()
        invariant
            i <= v@.len(),
            r@.len() == 2 * i,
            forall|j: int|
                0 <= j < i ==> r@[2 * j] == (#[trigger] v@[j]).c0 && r@[2 * j + 1] == v@[j].c1,
        decreases v@.len() - i,
    {
        let e = v[i];
        r.push(e.c0);
        r.push(e.c1);
        i = i + 1;
    }
    r
}

/// The sequence of handles with its order turned around.
pub fn reversed_vec<T: Copy>(v: &Vec<T>) -> (r: Vec<T>)
    ensures
        r@.len() == v@.len(),
        forall|i: int| 0 <= i < v@.len() ==> r@[i] == v@[v@.len() - 1 - i],
{
    let mut r: Vec<T> = Vec::new();
    let mut i: usize = v.len();
    while i > 0
        invariant
            i <= v.len(),
            r@.len() == v@.len() - i,
            forall|j: int| 0 <= j < r@.len() ==> r@[j] == v@[v@.len() - 1 - j],
        decreases i,
    {
        i = i - 1;
        let x = v[i];
        r.push(x);
    }
    r
}

} // verus!
