//! The constraints a verification emits.
//!
//! Each variant records one relation the surrounding proof system must make
//! hold between wires.  A dishonest proof does not abort the construction:
//! it yields a constraint set that no wire assignment satisfies.

use vstd::prelude::*;

use crate::target::{BoolTarget, ExtTarget, HashOutTarget, Target};

verus! {

/// One emitted constraint over wires of the arena.
#[derive(Clone, Debug, PartialEq, Eq)]
pub enum Constraint {
    /// `out` holds the written field element.
    Constant { value: u64, out: Target },
    /// `out == a * b`.
    Mul { a: Target, b: Target, out: Target },
    /// `out == input * (bit ? factor : 1)`, `factor` a circuit-time constant.
    CondMulConst { bit: BoolTarget, factor: u64, input: Target, out: Target },
    /// `out == sum of bits[i] * 2^i`; each listed wire is 0 or 1.
    WeightedSum { bits: Vec<BoolTarget>, out: Target },
    /// `bits` (low first) recompose to `input` modulo the field order; each
    /// bit wire is 0 or 1.  The decomposition is deliberately non-canonical.
    BitDecompose { input: Target, bits: Vec<BoolTarget> },
    /// `out == a - b`, in the extension field.
    SubExt { a: ExtTarget, b: ExtTarget, out: ExtTarget },
    /// `out == a * b + addend`, in the extension field.
    MulAddExt { a: ExtTarget, b: ExtTarget, addend: ExtTarget, out: ExtTarget },
    /// `out == numerator / denominator + addend`, in the extension field;
    /// the denominator is constrained away from zero.
    DivAddExt { numerator: ExtTarget, denominator: ExtTarget, addend: ExtTarget, out: ExtTarget },
    /// `out == base ^ exponent`, `exponent` a circuit-time constant.
    ExpExt { base: ExtTarget, exponent: u64, out: ExtTarget },
    /// `out` is the degree `< 2^arity_bits` interpolant of `evals` on the
    /// coset starting at `coset_start`, evaluated at `point`.
    InterpolateEval {
        arity_bits: usize,
        coset_start: Target,
        evals: Vec<ExtTarget>,
        point: ExtTarget,
        out: ExtTarget,
    },
    /// `list[index] == claimed`: a constrained multiplexer over extension
    /// values.
    RandomAccessExt { index: Target, claimed: ExtTarget, list: Vec<ExtTarget> },
    /// `out` is the hash of the listed wires (a leaf of a Merkle tree).
    HashLeaf { inputs: Vec<Target>, out: HashOutTarget },
    /// `out` is the two-to-one hash of `current` and `sibling`, in the
    /// order chosen by `swap` (left child when the index bit is 0).
    HashPair { swap: BoolTarget, current: HashOutTarget, sibling: HashOutTarget, out: HashOutTarget },
    /// `cap[index] == claimed`: a constrained multiplexer over the digests
    /// of a Merkle cap.
    CapSelect { index: Target, claimed: HashOutTarget, cap: Vec<HashOutTarget> },
    /// `out` is the transcript's pseudo-random challenge after observing
    /// `inputs`, the `round`-th value drawn from this transcript.
    Challenge { inputs: Vec<Target>, round: usize, out: Target },
    /// `out` is the transcript state after observing `inputs`, materialized
    /// as a digest, at draw number `round`.
    TranscriptHash { inputs: Vec<Target>, round: usize, out: HashOutTarget },
    /// `out` is the hash of the listed wires, squeezed to one element.
    HashMany { inputs: Vec<Target>, out: Target },
    /// `input`, read as a 64-bit string, has at least `zeros` leading zero
    /// bits.
    LeadingZeros { input: Target, zeros: u32 },
    /// `a == b`, in the extension field.
    ConnectExt { a: ExtTarget, b: ExtTarget },
}

/// The wire a constant constraint defines (a placeholder elsewhere).
pub open spec fn const_out(c: Constraint) -> Target {
    match c {
        Constraint::Constant { out, .. } => out,
        _ => Target { index: 0 },
    }
}

/// The extension value a multiply-add constraint defines.
pub open spec fn mul_add_out(c: Constraint) -> ExtTarget {
    match c {
        Constraint::MulAddExt { out, .. } => out,
        _ => ExtTarget { c0: Target { index: 0 }, c1: Target { index: 0 } },
    }
}

/// The extension value a subtraction constraint defines.
pub open spec fn sub_out(c: Constraint) -> ExtTarget {
    match c {
        Constraint::SubExt { out, .. } => out,
        _ => ExtTarget { c0: Target { index: 0 }, c1: Target { index: 0 } },
    }
}

/// The extension value an exponentiation constraint defines.
pub open spec fn exp_out(c: Constraint) -> ExtTarget {
    match c {
        Constraint::ExpExt { out, .. } => out,
        _ => ExtTarget { c0: Target { index: 0 }, c1: Target { index: 0 } },
    }
}

/// The extension value a divide-and-accumulate constraint defines.
pub open spec fn div_add_out(c: Constraint) -> ExtTarget {
    match c {
        Constraint::DivAddExt { out, .. } => out,
        _ => ExtTarget { c0: Target { index: 0 }, c1: Target { index: 0 } },
    }
}

/// The extension value an interpolate-and-evaluate constraint defines.
pub open spec fn interp_out(c: Constraint) -> ExtTarget {
    match c {
        Constraint::InterpolateEval { out, .. } => out,
        _ => ExtTarget { c0: Target { index: 0 }, c1: Target { index: 0 } },
    }
}

/// The wire a base-field product constraint defines.
pub open spec fn mul_out(c: Constraint) -> Target {
    match c {
        Constraint::Mul { out, .. } => out,
        _ => Target { index: 0 },
    }
}

/// The wire a weighted-sum constraint defines.
pub open spec fn weighted_sum_out(c: Constraint) -> Target {
    match c {
        Constraint::WeightedSum { out, .. } => out,
        _ => Target { index: 0 },
    }
}

/// The digest a hashing constraint defines.
pub open spec fn hash_out_of(c: Constraint) -> HashOutTarget {
    let zero = Target { index: 0 };
    match c {
        Constraint::HashLeaf { out, .. } => out,
        Constraint::HashPair { out, .. } => out,
        Constraint::TranscriptHash { out, .. } => out,
        _ => HashOutTarget { e0: zero, e1: zero, e2: zero, e3: zero },
    }
}

/// `s` is a Horner multiply-add chain with multiplier `base`: entry `j`
/// multiplies the running value (the `start` for the first entry, the
/// previous entry's out after) by `base` and adds `addends` from the last
/// addend down, so the chain computes `addends[0] + base*addends[1] + ...`.
pub open spec fn is_horner_chain(
    s: Seq<Constraint>,
    base: ExtTarget,
    start: ExtTarget,
    addends: Seq<ExtTarget>,
) -> bool
    decreases s.len(),
{
    if s.len() == 0 {
        addends.len() == 0
    } else {
        &&& s.len() == addends.len()
        &&& is_horner_chain(s.drop_last(), base, start, addends.skip(1))
        &&& s.last() matches Constraint::MulAddExt { a, b, addend, out } && b == base && addend
            == addends[0] && a == horner_result(s.drop_last(), start)
    }
}

/// The value a Horner chain leaves: its last out, or the start when empty.
pub open spec fn horner_result(s: Seq<Constraint>, start: ExtTarget) -> ExtTarget {
    if s.len() == 0 {
        start
    } else {
        mul_add_out(s.last())
    }
}

/// `s` is one whole reduction starting from a fresh zero: two zero
/// constants forming the start value, then the Horner chain over `addends`
/// with multiplier `base`, leaving `result`.
pub open spec fn is_fresh_reduction(
    s: Seq<Constraint>,
    base: ExtTarget,
    addends: Seq<ExtTarget>,
    result: ExtTarget,
) -> bool {
    &&& s.len() == 2 + addends.len()
    &&& s[0] matches Constraint::Constant { value, out } && value == 0
    &&& s[1] matches Constraint::Constant { value, out } && value == 0
    &&& is_horner_chain(
        s.skip(2),
        base,
        ExtTarget { c0: const_out(s[0]), c1: const_out(s[1]) },
        addends,
    )
    &&& result == horner_result(
        s.skip(2),
        ExtTarget { c0: const_out(s[0]), c1: const_out(s[1]) },
    )
}

/// Base-field values lifted into the extension with a shared zero high
/// coefficient.
pub open spec fn lifted_values(values: Seq<Target>, zero: Target) -> Seq<ExtTarget> {
    values.map_values(|t: Target| ExtTarget { c0: t, c1: zero })
}

/// As [`is_fresh_reduction`], over base-field values: a zero constant for
/// the shared high coefficient, then the fresh reduction over the lifted
/// values.
pub open spec fn is_base_reduction(
    s: Seq<Constraint>,
    base: ExtTarget,
    values: Seq<Target>,
    result: ExtTarget,
) -> bool {
    &&& s.len() == 3 + values.len()
    &&& s[0] matches Constraint::Constant { value, out } && value == 0
    &&& is_fresh_reduction(s.skip(1), base, lifted_values(values, const_out(s[0])), result)
}

/// `s` multiplies `x` by `base^count`: the exponentiation, a fresh zero
/// addend, and the closing multiply-add whose out is `result`.
pub open spec fn is_power_shift(
    s: Seq<Constraint>,
    base: ExtTarget,
    count: u64,
    x: ExtTarget,
    result: ExtTarget,
) -> bool {
    &&& s.len() == 4
    &&& s[0] matches Constraint::ExpExt { base: b2, exponent, out } && b2 == base && exponent
        == count
    &&& s[1] matches Constraint::Constant { value, out } && value == 0
    &&& s[2] matches Constraint::Constant { value, out } && value == 0
    &&& s[3] matches Constraint::MulAddExt { a, b, addend, out } && a == exp_out(s[0]) && b == x
        && addend == (ExtTarget { c0: const_out(s[1]), c1: const_out(s[2]) }) && out == result
}

/// Number of pseudo-random challenges drawn in `s`.
pub open spec fn count_challenges(s: Seq<Constraint>) -> int
    decreases s.len(),
{
    if s.len() == 0 {
        0
    } else {
        count_challenges(s.drop_last()) + if s.last() is Challenge {
            1int
        } else {
            0int
        }
    }
}

/// Number of Merkle-cap equality checks in `s`.
pub open spec fn count_cap_selects(s: Seq<Constraint>) -> int
    decreases s.len(),
{
    if s.len() == 0 {
        0
    } else {
        count_cap_selects(s.drop_last()) + if s.last() is CapSelect {
            1int
        } else {
            0int
        }
    }
}

/// Number of extension-field equality checks in `s`.
pub open spec fn count_connects(s: Seq<Constraint>) -> int
    decreases s.len(),
{
    if s.len() == 0 {
        0
    } else {
        count_connects(s.drop_last()) + if s.last() is ConnectExt {
            1int
        } else {
            0int
        }
    }
}

/// Number of leading-zeros (proof-of-work) checks in `s`.
pub open spec fn count_leading_zeros(s: Seq<Constraint>) -> int
    decreases s.len(),
{
    if s.len() == 0 {
        0
    } else {
        count_leading_zeros(s.drop_last()) + if s.last() is LeadingZeros {
            1int
        } else {
            0int
        }
    }
}

/// Number of index-bit decompositions in `s`.
pub open spec fn count_decompositions(s: Seq<Constraint>) -> int
    decreases s.len(),
{
    if s.len() == 0 {
        0
    } else {
        count_decompositions(s.drop_last()) + if s.last() is BitDecompose {
            1int
        } else {
            0int
        }
    }
}

/// Every constraint in `s` is plain wire arithmetic: none of the protocol
/// markers (challenge draws, index decompositions, cap checks, the final
/// equality, the proof-of-work check) occurs.
pub open spec fn arithmetic_only(s: Seq<Constraint>) -> bool {
    forall|i: int|
        0 <= i < s.len() ==> {
            let c = #[trigger] s[i];
            &&& !(c is Challenge)
            &&& !(c is TranscriptHash)
            &&& !(c is CapSelect)
            &&& !(c is ConnectExt)
            &&& !(c is LeadingZeros)
            &&& !(c is BitDecompose)
        }
}

pub proof fn lemma_arithmetic_only_counts(s: Seq<Constraint>)
    requires
        arithmetic_only(s),
    ensures
        count_challenges(s) == 0,
        count_cap_selects(s) == 0,
        count_connects(s) == 0,
        count_leading_zeros(s) == 0,
        count_decompositions(s) == 0,
    decreases s.len(),
{
    if s.len() > 0 {
        assert(arithmetic_only(s.drop_last())) by {
            assert(forall|i: int| 0 <= i < s.len() - 1 ==> s.drop_last()[i] == s[i]);
        }
        lemma_arithmetic_only_counts(s.drop_last());
    }
}

/// The five counts of the empty slice.
pub proof fn lemma_counts_empty()
    ensures
        count_challenges(Seq::<Constraint>::empty()) == 0,
        count_cap_selects(Seq::<Constraint>::empty()) == 0,
        count_connects(Seq::<Constraint>::empty()) == 0,
        count_leading_zeros(Seq::<Constraint>::empty()) == 0,
        count_decompositions(Seq::<Constraint>::empty()) == 0,
{
}

/// Appending one constraint raises exactly its own count.
pub proof fn lemma_counts_push(s: Seq<Constraint>, c: Constraint)
    ensures
        count_challenges(s.push(c)) == count_challenges(s) + (if c is Challenge {
            1int
        } else {
            0int
        }),
        count_cap_selects(s.push(c)) == count_cap_selects(s) + (if c is CapSelect {
            1int
        } else {
            0int
        }),
        count_connects(s.push(c)) == count_connects(s) + (if c is ConnectExt {
            1int
        } else {
            0int
        }),
        count_leading_zeros(s.push(c)) == count_leading_zeros(s) + (if c is LeadingZeros {
            1int
        } else {
            0int
        }),
        count_decompositions(s.push(c)) == count_decompositions(s) + (if c is BitDecompose {
            1int
        } else {
            0int
        }),
{
    assert(s.push(c).drop_last() =~= s);
    assert(s.push(c).last() == c);
}

pub proof fn lemma_counts_concat(a: Seq<Constraint>, b: Seq<Constraint>)
    ensures
        count_challenges(a + b) == count_challenges(a) + count_challenges(b),
        count_cap_selects(a + b) == count_cap_selects(a) + count_cap_selects(b),
        count_connects(a + b) == count_connects(a) + count_connects(b),
        count_leading_zeros(a + b) == count_leading_zeros(a) + count_leading_zeros(b),
        count_decompositions(a + b) == count_decompositions(a) + count_decompositions(b),
    decreases b.len(),
{
    if b.len() == 0 {
        assert(a + b =~= a);
    } else {
        lemma_counts_concat(a, b.drop_last());
        assert((a + b).drop_last() =~= a + b.drop_last());
        assert((a + b).last() == b.last());
    }
}

} // verus!
