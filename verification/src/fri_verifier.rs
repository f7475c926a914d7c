//! The in-circuit verifier proper: challenge derivation, proof-of-work
//! check, per-query index handling, Merkle re-authentication, iterative
//! folding, and the final polynomial equality.
//!
//! Structural and configuration failures (a proof shaped wrong for the
//! parameters, a circuit too small for the gates about to be used, an
//! incoherent parameter set) are reported as [`FriError`] before any
//! constraint is emitted.  A dishonest but well-shaped proof raises no
//! error here: it yields an unsatisfiable constraint set.

use vstd::arithmetic::power2::pow2;
use vstd::prelude::*;

use crate::bits::{log2_strict, pow2_usize, rev_bits, reverse_bits};
use crate::builder::CircuitBuilder;
use crate::challenger::{is_challenge_of, RecursiveChallenger};
use crate::config::{
    capability_wire_counts, check_noncanonical_indices, interpolation_high_wires,
    interpolation_low_wires, noncanonical_indices_ok, random_access_routed_wires,
    random_access_wires, CircuitConfig, FriConfig, FriParams,
};
use crate::constraint::{
    arithmetic_only, const_out, count_cap_selects, count_challenges, count_connects,
    count_decompositions, count_leading_zeros, div_add_out, interp_out, is_base_reduction,
    is_fresh_reduction, is_horner_chain, is_power_shift, lemma_arithmetic_only_counts, lemma_counts_concat,
    mul_add_out, sub_out, Constraint,
};
use crate::field::{
    exp_pow2_minus_one, primitive_root_of_unity, COSET_SHIFT, FIELD_ORDER_BITS, TWO_ADICITY,
};
use crate::fri_proof::{
    caps_ok, initial_proof_ok, instance_ok, openings_ok, proof_ok, query_round_ok,
    FriBatchInfoTarget, FriInitialTreeProofTarget, FriInstanceInfoTarget, FriOpeningBatchTarget,
    FriOpeningsTarget, FriPolynomialInfo, FriProofTarget, FriQueryRoundTarget, FriQueryStepTarget,
    MerkleCapTarget,
};
use crate::reducing::ReducingFactorTarget;
use crate::target::{
    bools_ok, ext_ok, exts_ok, flatten_ext_vec, reversed_vec, subrange_vec, target_ok, targets_ok,
    BoolTarget, ExtTarget, Target,
};

verus! {

/// A construction-time failure: the system is misconfigured, independently
/// of whether the proof is honest.
#[derive(Clone, Copy, PartialEq, Eq, Structural, Debug)]
pub enum FriError {
    /// The parameters are incoherent; in particular the folding schedule
    /// must satisfy `sum(reduction_arity_bits) + cap_height == degree_bits
    /// + rate_bits`.
    InvalidParams,
    /// Too many field elements admit a second, non-canonical bit encoding
    /// for the configured rate: the low-bits index decomposition would
    /// erode soundness.
    UnsoundNoncanonicalIndices,
    /// The circuit has fewer wires than the largest gate needs.
    InsufficientWires { needed: u64 },
    /// The circuit has fewer routed wires than the largest gate needs.
    InsufficientRoutedWires { needed: u64 },
    /// The final polynomial's coefficient list has the wrong length.
    WrongFinalPolyLength { expected: usize, got: usize },
    /// The number of query-round proofs does not match the configuration.
    WrongQueryRoundCount { expected: usize, got: usize },
}

/// One more gate row, held at the counter's ceiling.
pub open spec fn saturating_inc(x: usize) -> usize {
    if x < usize::MAX {
        (x + 1) as usize
    } else {
        x
    }
}

/// The largest log-arity of a folding schedule (zero when empty).
pub open spec fn max_arity_spec(s: Seq<usize>) -> int
    decreases s.len(),
{
    if s.len() == 0 {
        0
    } else {
        let rest = max_arity_spec(s.drop_last());
        if s.last() >= rest {
            s.last() as int
        } else {
            rest
        }
    }
}

pub proof fn lemma_max_arity_properties(s: Seq<usize>)
    requires
        s.len() > 0,
    ensures
        exists|i: int| 0 <= i < s.len() && s[i] == max_arity_spec(s),
        forall|i: int| 0 <= i < s.len() ==> #[trigger] s[i] <= max_arity_spec(s),
    decreases s.len(),
{
    if s.len() == 1 {
        assert(s.drop_last().len() == 0);
        assert(max_arity_spec(s.drop_last()) == 0);
        assert(s[0] == s.last());
        assert(s[0] == max_arity_spec(s));
    } else {
        lemma_max_arity_properties(s.drop_last());
        let r = s.drop_last();
        if s.last() >= max_arity_spec(r) {
            assert(s[s.len() - 1] == max_arity_spec(s));
        } else {
            let i = choose|i: int| 0 <= i < r.len() && r[i] == max_arity_spec(r);
            assert(r[i] == s[i]);
            assert(s[i] == max_arity_spec(s));
        }
        assert forall|i: int| 0 <= i < s.len() implies #[trigger] s[i] <= max_arity_spec(s) by {
            if i < s.len() - 1 {
                assert(r[i] == s[i]);
            }
        }
    }
}

/// Total wires the largest gate of the verification needs: the larger of
/// the multiplexer's requirement (sized by the larger of the biggest arity
/// and the cap height) and the chosen interpolation strategy's.
pub open spec fn min_wires_spec(config: CircuitConfig, mab: int) -> int {
    let bits = if mab >= config.fri_config.cap_height as int {
        mab
    } else {
        config.fri_config.cap_height as int
    };
    let ra = random_access_wires(bits);
    let ip = if pow2(mab as nat) as int > config.max_quotient_degree_factor as int {
        interpolation_low_wires(mab)
    } else {
        interpolation_high_wires(mab)
    };
    if ra >= ip {
        ra
    } else {
        ip
    }
}

/// Routed wires the largest gate needs, in the same way.
pub open spec fn min_routed_wires_spec(config: CircuitConfig, mab: int) -> int {
    let bits = if mab >= config.fri_config.cap_height as int {
        mab
    } else {
        config.fri_config.cap_height as int
    };
    let ra = random_access_routed_wires(bits);
    let ip = interpolation_routed_wires_of(mab);
    if ra >= ip {
        ra
    } else {
        ip
    }
}

/// Routed wires of either interpolation strategy (they agree).
pub open spec fn interpolation_routed_wires_of(mab: int) -> int {
    crate::config::interpolation_routed_wires(mab)
}

/// The circuit is large enough for the gates the verifier will emit.
pub open spec fn recursion_capacity_ok(config: CircuitConfig, params: FriParams) -> bool {
    params.reduction_arity_bits@.len() == 0 || {
        let mab = max_arity_spec(params.reduction_arity_bits@);
        &&& config.num_wires >= min_wires_spec(config, mab)
        &&& config.num_routed_wires >= min_routed_wires_spec(config, mab)
    }
}

/// The canonical generator of the order-`2^n_log` subgroup, as a field
/// value.
pub open spec fn root_of_unity_value(n_log: nat) -> int {
    crate::field::pow_sq_spec(
        crate::field::POWER_OF_TWO_GENERATOR,
        (crate::field::TWO_ADICITY - n_log) as nat,
    )
}

/// Its inverse: the generator raised to `2^n_log - 1`.
pub open spec fn root_inverse_value(n_log: nat) -> int {
    crate::field::pow_mod_spec(root_of_unity_value(n_log) as u64, (pow2(n_log) - 1) as nat)
}

/// Somewhere in `s` stands the cap equality check binding this path to the
/// cap with the given digests, at the given cap index.
pub open spec fn has_cap_check(
    s: Seq<Constraint>,
    cap_index: Target,
    digests: Seq<crate::target::HashOutTarget>,
) -> bool {
    exists|k: int|
        0 <= k < s.len() && ((#[trigger] s[k]) matches Constraint::CapSelect {
            index,
            claimed,
            cap,
        } && index == cap_index && cap@ == digests)
}

/// Entry `b` of `outs` is the result of a fresh Horner reduction with
/// multiplier `alpha` over batch `b`'s claimed values; the reductions stand
/// in batch order, one after the other, and nothing else is emitted.
pub open spec fn is_openings_reduction(
    s: Seq<Constraint>,
    alpha: ExtTarget,
    batches: Seq<FriOpeningBatchTarget>,
    outs: Seq<ExtTarget>,
) -> bool
    decreases batches.len(),
{
    if batches.len() == 0 {
        s.len() == 0 && outs.len() == 0
    } else {
        let m = batches.last().values@.len() as int;
        &&& outs.len() == batches.len()
        &&& s.len() >= 2 + m
        &&& is_openings_reduction(
            s.take(s.len() - (2 + m)),
            alpha,
            batches.drop_last(),
            outs.drop_last(),
        )
        &&& is_fresh_reduction(
            s.skip(s.len() - (2 + m)),
            alpha,
            batches.last().values@,
            outs.last(),
        )
    }
}

/// The leaf openings a batch reads: for each of its polynomials, the entry
/// at that polynomial's column of its oracle's leaf — the value
/// `unsalted_eval` returns.  A blinding salt only widens the leaf; it
/// never moves the polynomial columns.
pub open spec fn batch_leaf_values(
    batch: FriBatchInfoTarget,
    itp: FriInitialTreeProofTarget,
) -> Seq<Target> {
    batch.polynomials@.map_values(
        |p: FriPolynomialInfo| itp.evals_proofs@[p.oracle_index as int].0@[p.polynomial_index as int],
    )
}

/// One batch of the initial combination: the `alpha`-reduction of the
/// batch's leaf openings; the numerator, that reduction minus the batch's
/// precomputed reduced opening; the denominator, the lifted query point
/// minus the batch's opening point; the shift of the running sum by the
/// powers the reduction consumed; and the quotient accumulation chaining
/// the shifted sum.
pub open spec fn is_combine_batch(
    s: Seq<Constraint>,
    alpha: ExtTarget,
    x_ext: ExtTarget,
    leaf: Seq<Target>,
    reduced_opening: ExtTarget,
    point: ExtTarget,
    sum_prev: ExtTarget,
) -> bool {
    let m = leaf.len() as int;
    &&& s.len() == 10 + m
    &&& (s[3 + m] matches Constraint::SubExt { a, b, out } && b == reduced_opening
        && is_base_reduction(s.take(3 + m), alpha, leaf, a))
    &&& (s[4 + m] matches Constraint::SubExt { a, b, out } && a == x_ext && b == point)
    &&& is_power_shift(s.subrange(5 + m, 9 + m), alpha, m as u64, sum_prev, mul_add_out(s[8 + m]))
    &&& (s[9 + m] matches Constraint::DivAddExt { numerator, denominator, addend, out }
        && numerator == sub_out(s[3 + m]) && denominator == sub_out(s[4 + m]) && addend
        == mul_add_out(s[8 + m]))
}

/// The whole initial combination: one [`is_combine_batch`] block per batch
/// in declaration order, each chaining the previous block's accumulated
/// sum (the fresh zero `sum0` before the first), and `result` the last
/// block's quotient accumulation — one continued reduction across all
/// batches.
pub open spec fn is_initial_combination(
    s: Seq<Constraint>,
    alpha: ExtTarget,
    x_ext: ExtTarget,
    batches: Seq<FriBatchInfoTarget>,
    itp: FriInitialTreeProofTarget,
    precomputed: Seq<ExtTarget>,
    sum0: ExtTarget,
    result: ExtTarget,
) -> bool
    decreases batches.len(),
{
    if batches.len() == 0 {
        s.len() == 0 && result == sum0 && precomputed.len() == 0
    } else {
        let m = batches.last().polynomials@.len() as int;
        let chunk = 10 + m;
        &&& precomputed.len() == batches.len()
        &&& s.len() >= chunk
        &&& exists|mid: ExtTarget|
            #![trigger is_combine_batch(
                s.skip(s.len() - chunk),
                alpha,
                x_ext,
                batch_leaf_values(batches.last(), itp),
                precomputed.last(),
                batches.last().point,
                mid,
            )]
            is_initial_combination(
                s.take(s.len() - chunk),
                alpha,
                x_ext,
                batches.drop_last(),
                itp,
                precomputed.drop_last(),
                sum0,
                mid,
            ) && is_combine_batch(
                s.skip(s.len() - chunk),
                alpha,
                x_ext,
                batch_leaf_values(batches.last(), itp),
                precomputed.last(),
                batches.last().point,
                mid,
            )
        &&& result == div_add_out(s.last())
    }
}

/// The boolean wires at `n` consecutive arena positions from `base`:
/// how a round addresses a contiguous run of the index's decomposition
/// bits.
pub open spec fn wire_bits(base: int, n: int) -> Seq<BoolTarget> {
    Seq::new(n as nat, |j: int| BoolTarget { target: Target { index: (base + j) as usize } })
}

/// One folding round's checks, standing at `k` in `s`, with the round's
/// low decomposition-bit wires starting at `bits_base`:
/// - the within-coset index recomposition over exactly those low
///   `arity_bits` wires;
/// - the consistency select requiring the previous folded value
///   (`prev_eval`) among the round's claimed coset evaluations at that
///   index;
/// - the coset start: the inverse-root power chain over the reversed low
///   bits, multiplied by the round's incoming domain point `subgroup_in`;
/// - the fold: the interpolant of the bit-reversal-reordered evaluations
///   on that coset, at the round's challenge `beta`, out `fold_out`;
/// - the Merkle re-authentication of the flattened evaluations, ordered
///   by the following (coset-index) bit wires, against the `cap_index`
///   entry of `cap`;
/// - the advance of the domain point by `arity_bits` squarings, to
///   `subgroup_out`.
pub open spec fn is_round_block(
    s: Seq<Constraint>,
    k: int,
    step: FriQueryStepTarget,
    beta: ExtTarget,
    arity_bits: int,
    bits_base: int,
    cap: Seq<crate::target::HashOutTarget>,
    cap_index: Target,
    prev_eval: ExtTarget,
    fold_out: ExtTarget,
    subgroup_in: Target,
    subgroup_out: Target,
) -> bool {
    let ab = arity_bits;
    let sib = step.merkle_proof.siblings@.len() as int;
    &&& 0 <= k
    &&& 0 < ab
    &&& k + 2 * ab + sib + 7 <= s.len()
    &&& (s[k] matches Constraint::WeightedSum { bits, out } && bits@.len() == ab && (forall|
        t2: int,
    |
        0 <= t2 < ab ==> (#[trigger] bits@[t2]).target.index == bits_base + t2))
    &&& (s[k + 1] matches Constraint::RandomAccessExt { index, claimed, list } && index
        == crate::constraint::weighted_sum_out(s[k]) && claimed == prev_eval && list@
        == step.evals@)
    &&& (s[k + 2] matches Constraint::Constant { value, out } && value == 1)
    &&& forall|j: int|
        0 <= j < ab ==> (#[trigger] s[k + 3 + j] matches Constraint::CondMulConst {
            bit,
            factor,
            input,
            out,
        } && bit.target.index == bits_base + (ab - 1 - j) && factor as int
            == crate::field::pow_sq_spec(root_inverse_value(ab as nat) as u64, j as nat))
    &&& (s[k + 3 + ab] matches Constraint::Mul { a, b, out } && b == subgroup_in)
    &&& (s[k + 4 + ab] matches Constraint::InterpolateEval {
        arity_bits: ab2,
        coset_start,
        evals: ev,
        point,
        out,
    } && ab2 == ab && coset_start == crate::constraint::mul_out(s[k + 3 + ab]) && point == beta
        && out == fold_out && ev@.len() == step.evals@.len() && (forall|i2: int|
        0 <= i2 < ev@.len() ==> ev@[i2] == step.evals@[rev_bits(i2, ab as nat)]))
    &&& crate::merkle::is_merkle_check(
        s,
        k + 5 + ab,
        crate::challenger::ext_elements(step.evals@),
        wire_bits(bits_base + ab, sib),
        cap_index,
        cap,
        step.merkle_proof.siblings@,
    )
    &&& forall|j: int|
        0 <= j < ab ==> (#[trigger] s[k + ab + sib + 7 + j] matches Constraint::Mul {
            a,
            b,
            out,
        } && a == b && a == (if j == 0 {
            subgroup_in
        } else {
            crate::constraint::mul_out(s[k + ab + sib + 7 + j - 1])
        }))
    &&& subgroup_out == crate::constraint::mul_out(s[k + 2 * ab + sib + 6])
}

/// The folding recurrence across the first `i` rounds: round `r`'s block
/// works on the decomposition bits above the arities already consumed,
/// checks the previous round's folded value (`first`, the initial
/// combination's output, before round 0) and domain point (`sx_first`),
/// and leaves round `i-1`'s folded value `last` at domain point
/// `sx_last`.
pub open spec fn rounds_chain(
    s: Seq<Constraint>,
    steps: Seq<FriQueryStepTarget>,
    betas: Seq<ExtTarget>,
    arities: Seq<usize>,
    caps: Seq<MerkleCapTarget>,
    cap_index: Target,
    decomp_base: int,
    i: int,
    first: ExtTarget,
    last: ExtTarget,
    sx_first: Target,
    sx_last: Target,
) -> bool
    decreases i,
{
    if i <= 0 {
        last == first && sx_last == sx_first
    } else {
        exists|mid: ExtTarget, sx_mid: Target, k: int|
            #![trigger is_round_block(
                s,
                k,
                steps[i - 1],
                betas[i - 1],
                arities[i - 1] as int,
                decomp_base + crate::config::sum_arities(arities.subrange(0, i - 1)),
                caps[i - 1].digests@,
                cap_index,
                mid,
                last,
                sx_mid,
                sx_last,
            )]
            rounds_chain(
                s,
                steps,
                betas,
                arities,
                caps,
                cap_index,
                decomp_base,
                i - 1,
                first,
                mid,
                sx_first,
                sx_mid,
            ) && is_round_block(
                s,
                k,
                steps[i - 1],
                betas[i - 1],
                arities[i - 1] as int,
                decomp_base + crate::config::sum_arities(arities.subrange(0, i - 1)),
                caps[i - 1].digests@,
                cap_index,
                mid,
                last,
                sx_mid,
                sx_last,
            )
    }
}

/// The derivation of the sampled domain point, standing at `k` in `s`:
/// the coset shift constant, the root-of-unity power chain over the
/// reversed decomposition bits (iterated-square factors of the canonical
/// root), and the closing product, whose out is `sx`.
pub open spec fn is_domain_derivation(
    s: Seq<Constraint>,
    k: int,
    n_log: int,
    bits_base: int,
    sx: Target,
) -> bool {
    &&& 0 <= k
    &&& k + 3 + n_log <= s.len()
    &&& (s[k] matches Constraint::Constant { value, out } && value == COSET_SHIFT)
    &&& (s[k + 1] matches Constraint::Constant { value, out } && value == 1)
    &&& forall|j: int|
        0 <= j < n_log ==> (#[trigger] s[k + 2 + j] matches Constraint::CondMulConst {
            bit,
            factor,
            input,
            out,
        } && bit.target.index == bits_base + (n_log - 1 - j) && factor as int
            == crate::field::pow_sq_spec(root_of_unity_value(n_log as nat) as u64, j as nat))
    &&& (s[k + 2 + n_log] matches Constraint::Mul { a, b, out } && a == const_out(s[k]) && out
        == sx)
}

/// Somewhere in `s` stands the derivation of the domain point `sx`.
pub open spec fn has_domain_derivation(
    s: Seq<Constraint>,
    n_log: int,
    bits_base: int,
    sx: Target,
) -> bool {
    exists|k: int| #[trigger] is_domain_derivation(s, k, n_log, bits_base, sx)
}

/// [`has_cap_check`], [`has_domain_derivation`] and [`rounds_chain`]
/// speak of fixed positions, so they survive appending more constraints.
pub proof fn lemma_checks_extend(
    u: Seq<Constraint>,
    t: Seq<Constraint>,
    ci: Target,
    d: Seq<crate::target::HashOutTarget>,
    steps: Seq<FriQueryStepTarget>,
    betas: Seq<ExtTarget>,
    arities: Seq<usize>,
    caps: Seq<MerkleCapTarget>,
    decomp_base: int,
    i: int,
    first: ExtTarget,
    last: ExtTarget,
    sx_first: Target,
    sx_last: Target,
    n_log: int,
    sx: Target,
)
    requires
        t.len() >= u.len(),
        forall|k: int| 0 <= k < u.len() ==> t[k] == u[k],
        n_log >= 0,
    ensures
        has_cap_check(u, ci, d) ==> has_cap_check(t, ci, d),
        has_domain_derivation(u, n_log, decomp_base, sx) ==> has_domain_derivation(
            t,
            n_log,
            decomp_base,
            sx,
        ),
        rounds_chain(u, steps, betas, arities, caps, ci, decomp_base, i, first, last, sx_first, sx_last)
            ==> rounds_chain(
            t,
            steps,
            betas,
            arities,
            caps,
            ci,
            decomp_base,
            i,
            first,
            last,
            sx_first,
            sx_last,
        ),
    decreases
            if i > 0 {
                i
            } else {
                0
            },
{
    if has_cap_check(u, ci, d) {
        let k = choose|k: int|
            0 <= k < u.len() && ((#[trigger] u[k]) matches Constraint::CapSelect {
                index,
                claimed,
                cap,
            } && index == ci && cap@ == d);
        assert(t[k] == u[k]);
    }
    if has_domain_derivation(u, n_log, decomp_base, sx) {
        let k = choose|k: int| #[trigger] is_domain_derivation(u, k, n_log, decomp_base, sx);
        assert(is_domain_derivation(t, k, n_log, decomp_base, sx)) by {
            assert(t[k] == u[k]);
            assert(t[k + 1] == u[k + 1]);
            assert(forall|j: int| 0 <= j < n_log ==> #[trigger] t[k + 2 + j] == u[k + 2 + j]);
            assert(t[k + 2 + n_log] == u[k + 2 + n_log]);
        }
    }
    if i > 0 && rounds_chain(u, steps, betas, arities, caps, ci, decomp_base, i, first, last, sx_first, sx_last) {
        let bb = decomp_base + crate::config::sum_arities(arities.subrange(0, i - 1));
        let (mid, sx_mid, k) = choose|mid: ExtTarget, sx_mid: Target, k: int|
            rounds_chain(
                u,
                steps,
                betas,
                arities,
                caps,
                ci,
                decomp_base,
                i - 1,
                first,
                mid,
                sx_first,
                sx_mid,
            ) && #[trigger] is_round_block(
                u,
                k,
                steps[i - 1],
                betas[i - 1],
                arities[i - 1] as int,
                bb,
                caps[i - 1].digests@,
                ci,
                mid,
                last,
                sx_mid,
                sx_last,
            );
        lemma_checks_extend(
            u,
            t,
            ci,
            d,
            steps,
            betas,
            arities,
            caps,
            decomp_base,
            i - 1,
            first,
            mid,
            sx_first,
            sx_mid,
            n_log,
            sx,
        );
        let ab = arities[i - 1] as int;
        let sib = steps[i - 1].merkle_proof.siblings@.len() as int;
        assert(is_round_block(
            t,
            k,
            steps[i - 1],
            betas[i - 1],
            ab,
            bb,
            caps[i - 1].digests@,
            ci,
            mid,
            last,
            sx_mid,
            sx_last,
        )) by {
            assert(forall|k2: int| k <= k2 < k + 2 * ab + sib + 7 ==> t[k2] == u[k2]);
            crate::merkle::lemma_merkle_check_extends(
                u,
                t,
                k + 5 + ab,
                crate::challenger::ext_elements(steps[i - 1].evals@),
                wire_bits(bb + ab, sib),
                ci,
                caps[i - 1].digests@,
                steps[i - 1].merkle_proof.siblings@,
            );
        }
    }
}

/// A round block speaks only of fixed positions, so it carries over to
/// any sequence holding the same constraints at an offset.
pub proof fn lemma_round_block_embed(
    seg: Seq<Constraint>,
    t: Seq<Constraint>,
    off: int,
    step: FriQueryStepTarget,
    beta: ExtTarget,
    arity_bits: int,
    bits_base: int,
    cap: Seq<crate::target::HashOutTarget>,
    cap_index: Target,
    prev_eval: ExtTarget,
    fold_out: ExtTarget,
    subgroup_in: Target,
    subgroup_out: Target,
)
    requires
        is_round_block(
            seg,
            0,
            step,
            beta,
            arity_bits,
            bits_base,
            cap,
            cap_index,
            prev_eval,
            fold_out,
            subgroup_in,
            subgroup_out,
        ),
        0 <= off,
        off + seg.len() <= t.len(),
        forall|x: int| 0 <= x < seg.len() ==> t[off + x] == seg[x],
        seg.len() == 2 * arity_bits + step.merkle_proof.siblings@.len() + 7,
    ensures
        is_round_block(
            t,
            off,
            step,
            beta,
            arity_bits,
            bits_base,
            cap,
            cap_index,
            prev_eval,
            fold_out,
            subgroup_in,
            subgroup_out,
        ),
{
    let ab = arity_bits;
    let sib = step.merkle_proof.siblings@.len() as int;
    assert(t[off] == seg[0]);
    assert(t[off + 1] == seg[1]);
    assert(t[off + 2] == seg[2]);
    assert forall|j: int| 0 <= j < ab implies (#[trigger] t[off + 3 + j]
        matches Constraint::CondMulConst { bit, factor, input, out } && bit.target.index
        == bits_base + (ab - 1 - j) && factor as int == crate::field::pow_sq_spec(
        root_inverse_value(ab as nat) as u64,
        j as nat,
    )) by {
        assert(t[off + 3 + j] == seg[3 + j]);
    }
    assert(t[off + 3 + ab] == seg[3 + ab]);
    assert(t[off + 4 + ab] == seg[4 + ab]);
    assert(crate::merkle::is_merkle_check(
        seg.subrange(5 + ab, 7 + ab + sib),
        0,
        crate::challenger::ext_elements(step.evals@),
        wire_bits(bits_base + ab, sib),
        cap_index,
        cap,
        step.merkle_proof.siblings@,
    )) by {
        let g = seg.subrange(5 + ab, 7 + ab + sib);
        assert(g[0] == seg[5 + ab]);
        assert forall|j: int| 0 <= j < sib implies (#[trigger] g[1 + j]
            matches Constraint::HashPair { swap, current, sibling, out } && swap == wire_bits(
            bits_base + ab,
            sib,
        )[j] && sibling == step.merkle_proof.siblings@[j] && current
            == crate::constraint::hash_out_of(g[j])) by {
            assert(g[1 + j] == seg[5 + ab + 1 + j]);
            assert(g[j] == seg[5 + ab + j]);
        }
        assert(g[sib + 1] == seg[5 + ab + sib + 1]);
        assert(g[sib] == seg[5 + ab + sib]);
    }
    assert(forall|x: int| 0 <= x < 7 + ab + sib - (5 + ab) ==> #[trigger] t[off + 5 + ab + x]
        == seg.subrange(5 + ab, 7 + ab + sib)[x]);
    crate::merkle::lemma_merkle_check_embed(
        seg.subrange(5 + ab, 7 + ab + sib),
        t,
        off + 5 + ab,
        crate::challenger::ext_elements(step.evals@),
        wire_bits(bits_base + ab, sib),
        cap_index,
        cap,
        step.merkle_proof.siblings@,
    );
    assert forall|j: int| 0 <= j < ab implies (#[trigger] t[off + ab + sib + 7 + j]
        matches Constraint::Mul { a, b, out } && a == b && a == (if j == 0 {
        subgroup_in
    } else {
        crate::constraint::mul_out(t[off + ab + sib + 7 + j - 1])
    })) by {
        assert(t[off + ab + sib + 7 + j] == seg[ab + sib + 7 + j]);
        if j > 0 {
            assert(t[off + ab + sib + 7 + j - 1] == seg[ab + sib + 7 + j - 1]);
        }
    }
    assert(t[off + 2 * ab + sib + 6] == seg[2 * ab + sib + 6]);
}

/// Somewhere in `s` stands the complete Merkle re-authentication of
/// `leaf` through `siblings` (ordered by `index_bits`) against the
/// `cap_index` entry of `cap`.
pub open spec fn has_merkle_check(
    s: Seq<Constraint>,
    leaf: Seq<Target>,
    index_bits: Seq<BoolTarget>,
    cap_index: Target,
    cap: Seq<crate::target::HashOutTarget>,
    siblings: Seq<crate::target::HashOutTarget>,
) -> bool {
    exists|k: int|
        #[trigger] crate::merkle::is_merkle_check(s, k, leaf, index_bits, cap_index, cap, siblings)
}

/// The left side of an equality constraint.
pub open spec fn connect_lhs(c: Constraint) -> ExtTarget {
    match c {
        Constraint::ConnectExt { a, .. } => a,
        _ => ExtTarget { c0: Target { index: 0 }, c1: Target { index: 0 } },
    }
}

/// The closing check of a query round: just before the final equality,
/// `s` ends with the Horner evaluation of the explicit final-polynomial
/// coefficients at the surviving domain point `sx` (lifted with a fresh
/// zero high coefficient), whose result is `a` — the equality's left side.
pub open spec fn final_poly_check(
    s: Seq<Constraint>,
    coeffs: Seq<ExtTarget>,
    a: ExtTarget,
    sx: Target,
) -> bool {
    is_fresh_reduction(
        s.subrange(s.len() - 4 - coeffs.len(), s.len() - 1).skip(1),
        ExtTarget { c0: sx, c1: const_out(s[s.len() - 4 - coeffs.len()]) },
        coeffs,
        a,
    )
}

/// Somewhere in `s`, the `round`-th transcript draw is a challenge whose
/// recorded history is exactly `history`: the Fiat–Shamir order is read
/// off these clauses, one draw at a time.
pub open spec fn has_challenge_from(s: Seq<Constraint>, history: Seq<Target>, round: int) -> bool {
    exists|k: int|
        0 <= k < s.len() && ((#[trigger] s[k]) matches Constraint::Challenge {
            inputs,
            round: r,
            out,
        } && inputs@ == history && r == round)
}

/// As [`has_challenge_from`], for the transcript digest the proof-of-work
/// check consumes.
pub open spec fn has_transcript_hash_from(
    s: Seq<Constraint>,
    history: Seq<Target>,
    round: int,
) -> bool {
    exists|k: int|
        0 <= k < s.len() && ((#[trigger] s[k]) matches Constraint::TranscriptHash {
            inputs,
            round: r,
            out,
        } && inputs@ == history && r == round)
}

/// Both survive appending more constraints.
pub proof fn lemma_draws_extend(
    u: Seq<Constraint>,
    t: Seq<Constraint>,
    history: Seq<Target>,
    round: int,
)
    requires
        t.len() >= u.len(),
        forall|k: int| 0 <= k < u.len() ==> t[k] == u[k],
    ensures
        has_challenge_from(u, history, round) ==> has_challenge_from(t, history, round),
        has_transcript_hash_from(u, history, round) ==> has_transcript_hash_from(
            t,
            history,
            round,
        ),
{
    if has_challenge_from(u, history, round) {
        let k = choose|k: int|
            0 <= k < u.len() && ((#[trigger] u[k]) matches Constraint::Challenge {
                inputs,
                round: r,
                out,
            } && inputs@ == history && r == round);
        assert(t[k] == u[k]);
    }
    if has_transcript_hash_from(u, history, round) {
        let k = choose|k: int|
            0 <= k < u.len() && ((#[trigger] u[k]) matches Constraint::TranscriptHash {
                inputs,
                round: r,
                out,
            } && inputs@ == history && r == round);
        assert(t[k] == u[k]);
    }
}

/// A cap check found in an embedded segment is found in the whole.
pub proof fn lemma_cap_check_embed(
    seg: Seq<Constraint>,
    t: Seq<Constraint>,
    off: int,
    ci: Target,
    d: Seq<crate::target::HashOutTarget>,
)
    requires
        0 <= off,
        off + seg.len() <= t.len(),
        forall|k: int| 0 <= k < seg.len() ==> t[off + k] == seg[k],
        has_cap_check(seg, ci, d),
    ensures
        has_cap_check(t, ci, d),
{
    let k = choose|k: int|
        0 <= k < seg.len() && ((#[trigger] seg[k]) matches Constraint::CapSelect {
            index,
            claimed,
            cap,
        } && index == ci && cap@ == d);
    assert(t[off + k] == seg[k]);
}

impl CircuitBuilder {
    /// Emits the single interpolate-and-evaluate relation.  Both strategies
    /// constrain the folded value identically — the choice only changes the
    /// row counters — which is exactly why they are
    /// interchangeable wherever both are legal.
    pub(crate) fn interpolate_coset(
        &mut self,
        low_degree_strategy: bool,
        arity_bits: usize,
        coset_start: Target,
        evals: &Vec<ExtTarget>,
        beta: ExtTarget,
    ) -> (r: ExtTarget)
        requires
            target_ok(coset_start, old(self).wire_count()),
            exts_ok(evals@, old(self).wire_count()),
            ext_ok(beta, old(self).wire_count()),
        ensures
            final(self).extends(*old(self)),
            final(self).wire_count() == old(self).wire_count() + 2,
            final(self).appended_since(*old(self)).len() == 1,
            final(self).appended_since(*old(self))[0] matches Constraint::InterpolateEval {
                arity_bits: ab,
                coset_start: cs,
                evals: ev,
                point,
                out,
            } && ab == arity_bits && cs == coset_start && ev@ == evals@ && point == beta && out
                == r,
            arithmetic_only(final(self).appended_since(*old(self))),
            ext_ok(r, final(self).wire_count()),
            low_degree_strategy ==> final(self).low_degree_interp_gates == saturating_inc(
                old(self).low_degree_interp_gates,
            ) && final(self).high_degree_interp_gates == old(self).high_degree_interp_gates,
            !low_degree_strategy ==> final(self).high_degree_interp_gates == saturating_inc(
                old(self).high_degree_interp_gates,
            ) && final(self).low_degree_interp_gates == old(self).low_degree_interp_gates,
    {
        let ev = crate::target::copy_vec(evals);
        let out = self.alloc_derived_ext();
        self.constraints.push(
            Constraint::InterpolateEval { arity_bits, coset_start, evals: ev, point: beta, out },
        );
        if low_degree_strategy {
            if self.low_degree_interp_gates < usize::MAX {
                self.low_degree_interp_gates = self.low_degree_interp_gates + 1;
            }
        } else {
            if self.high_degree_interp_gates < usize::MAX {
                self.high_degree_interp_gates = self.high_degree_interp_gates + 1;
            }
        }
        proof {
            assert(final(self).appended_since(*old(self)) =~= seq![
                Constraint::InterpolateEval {
                    arity_bits,
                    coset_start,
                    evals: ev,
                    point: beta,
                    out,
                },
            ]);
        }
        out
    }

    /// Computes the folded value `P'(x^arity)` from the claimed evaluations
    /// `{P(x g^i)}` on the coset of `x`: the evaluations are reordered by
    /// bit reversal to the canonical coset indexing, the coset's start is
    /// `x * (g^-1)^rev(index within coset)`, and the interpolant is
    /// evaluated at the folding challenge `beta`.  The strategy the size
    /// threshold picks changes only the row counters, never the
    /// emitted relation: both strategies agree on the folded value.
    pub fn compute_evaluation(
        &mut self,
        x: Target,
        x_index_within_coset_bits: &Vec<BoolTarget>,
        arity_bits: usize,
        evals: &Vec<ExtTarget>,
        beta: ExtTarget,
    ) -> (r: ExtTarget)
        requires
            target_ok(x, old(self).wire_count()),
            bools_ok(x_index_within_coset_bits@, old(self).wire_count()),
            x_index_within_coset_bits@.len() == arity_bits,
            arity_bits <= crate::config::MAX_SIZE_BITS,
            evals@.len() == pow2(arity_bits as nat),
            exts_ok(evals@, old(self).wire_count()),
            ext_ok(beta, old(self).wire_count()),
        ensures
            final(self).extends(*old(self)),
            arithmetic_only(final(self).appended_since(*old(self))),
            final(self).appended_since(*old(self)).len() == arity_bits + 3,
            final(self).appended_since(*old(self))[0] == (Constraint::Constant {
                value: 1u64,
                out: Target { index: old(self).wire_count() as usize },
            }),
            forall|j: int|
                0 <= j < arity_bits ==> (#[trigger] final(self).appended_since(*old(self))[j + 1]
                    matches Constraint::CondMulConst { bit, factor, input, out } && bit
                    == x_index_within_coset_bits@[arity_bits - 1 - j] && factor as int
                    == crate::field::pow_sq_spec(
                    root_inverse_value(arity_bits as nat) as u64,
                    j as nat,
                ) && input.index == old(self).wire_count() + j && out.index == old(
                    self,
                ).wire_count() + j + 1),
            final(self).appended_since(*old(self))[arity_bits + 1] matches Constraint::Mul {
                a,
                b,
                out,
            } && a.index == old(self).wire_count() + arity_bits && b == x && out.index == old(
                self,
            ).wire_count() + arity_bits + 1,
            final(self).appended_since(*old(self)).last() matches Constraint::InterpolateEval {
                arity_bits: ab,
                coset_start,
                evals: ev,
                point,
                out,
            } && ab == arity_bits && coset_start.index == old(self).wire_count() + arity_bits + 1
                && point == beta && out == r && ev@.len() == evals@.len() && (forall|i: int|
                0 <= i < ev@.len() ==> ev@[i] == evals@[rev_bits(i, arity_bits as nat)]),
            (pow2(arity_bits as nat) as int > old(self).config.max_quotient_degree_factor as int
                ==> final(self).low_degree_interp_gates == saturating_inc(
                old(self).low_degree_interp_gates,
            ) && final(self).high_degree_interp_gates == old(self).high_degree_interp_gates),
            (pow2(arity_bits as nat) as int <= old(self).config.max_quotient_degree_factor as int
                ==> final(self).high_degree_interp_gates == saturating_inc(
                old(self).high_degree_interp_gates,
            ) && final(self).low_degree_interp_gates == old(self).low_degree_interp_gates),
            ext_ok(r, final(self).wire_count()),
    {
        let ghost b0 = *self;
        let g = primitive_root_of_unity(arity_bits);
        let g_inv = exp_pow2_minus_one(g, arity_bits);
        proof {
            assert(root_of_unity_value(arity_bits as nat) as u64 == g);
            assert(root_inverse_value(arity_bits as nat) as u64 == g_inv);
        }
        let evals_reordered = reverse_index_bits_ext(evals, arity_bits);
        let rev = reversed_vec(x_index_within_coset_bits);
        proof {
            assert(bools_ok(rev@, self.wire_count()));
        }
        let start = self.exp_from_bits_const_base(g_inv, &rev);
        let ghost b1 = *self;
        let coset_start = self.mul(start, x);
        let ghost b2 = *self;
        let arity = pow2_usize(arity_bits);
        let low = arity > self.config.max_quotient_degree_factor;
        proof {
            assert(b0.wires@.len() <= self.wires@.len());
            assert forall|i: int| 0 <= i < evals_reordered@.len() implies ext_ok(
                #[trigger] evals_reordered@[i],
                self.wire_count(),
            ) by {
                crate::bits::lemma_rev_bits_bound(i, arity_bits as nat);
                assert(ext_ok(evals@[rev_bits(i, arity_bits as nat)], b0.wire_count()));
            }
        }
        let r = self.interpolate_coset(low, arity_bits, coset_start, &evals_reordered, beta);
        proof {
            CircuitBuilder::lemma_extends_transitive(b0, b1, b2);
            CircuitBuilder::lemma_extends_transitive(b0, b2, *self);
            let t = self.appended_since(b0);
            let u = b2.appended_since(b0);
            let v = self.appended_since(b2);
            assert(t.len() == arity_bits + 3);
            assert(t.last() == v[0]);
            let u1 = b1.appended_since(b0);
            assert(t[0] == u1[0]);
            assert forall|j: int| 0 <= j < arity_bits implies (#[trigger] t[j + 1]
                matches Constraint::CondMulConst { bit, factor, input, out } && bit
                == x_index_within_coset_bits@[arity_bits - 1 - j] && factor as int
                == crate::field::pow_sq_spec(
                root_inverse_value(arity_bits as nat) as u64,
                j as nat,
            ) && input.index == b0.wire_count() + j && out.index == b0.wire_count() + j + 1) by {
                assert(t[j + 1] == u1[j + 1]);
                assert(rev@[j] == x_index_within_coset_bits@[arity_bits - 1 - j]);
            }
            assert(t[arity_bits + 1] == b2.appended_since(b1)[0]);
            assert forall|i: int| 0 <= i < t.len() implies {
                let c = #[trigger] t[i];
                &&& !(c is Challenge)
                &&& !(c is TranscriptHash)
                &&& !(c is CapSelect)
                &&& !(c is ConnectExt)
                &&& !(c is LeadingZeros)
                &&& !(c is BitDecompose)
            } by {
                if i < u.len() {
                    assert(t[i] == u[i]);
                    let u1 = b1.appended_since(b0);
                    let u2 = b2.appended_since(b1);
                    assert(u == u1 + u2);
                    if i < u1.len() {
                        assert(u[i] == u1[i]);
                    } else {
                        assert(u[i] == u2[i - u1.len()]);
                        assert(u2[0] matches Constraint::Mul { a, b, out });
                    }
                } else {
                    assert(t[i] == v[i - u.len()]);
                }
            }
        }
        r
    }

    /// Checks, before anything is emitted, that the circuit has enough
    /// wires and routed wires for the largest gate the verification will
    /// instantiate; the error names the minimum needed.
    pub fn check_recursion_config(&self, max_fri_arity_bits: usize) -> (r: Result<(), FriError>)
        requires
            max_fri_arity_bits <= TWO_ADICITY,
            self.config.fri_config.cap_height <= TWO_ADICITY,
        ensures
            r matches Ok(()) <==> (self.config.num_wires >= min_wires_spec(
                self.config,
                max_fri_arity_bits as int,
            ) && self.config.num_routed_wires >= min_routed_wires_spec(
                self.config,
                max_fri_arity_bits as int,
            )),
            r matches Err(e) ==> (e matches FriError::InsufficientWires { needed } && needed
                == min_wires_spec(self.config, max_fri_arity_bits as int) && self.config.num_wires
                < needed as int) || (e matches FriError::InsufficientRoutedWires { needed }
                && needed == min_routed_wires_spec(self.config, max_fri_arity_bits as int)
                && self.config.num_routed_wires < needed as int),
    {
        let bits = if max_fri_arity_bits >= self.config.fri_config.cap_height {
            max_fri_arity_bits
        } else {
            self.config.fri_config.cap_height
        };
        let (ra_wires, ra_routed, ip_wires, ip_routed) = capability_wire_counts(
            bits,
            max_fri_arity_bits,
            self.config.max_quotient_degree_factor,
        );
        let min_wires = if ra_wires >= ip_wires {
            ra_wires
        } else {
            ip_wires
        };
        let min_routed = if ra_routed >= ip_routed {
            ra_routed
        } else {
            ip_routed
        };
        if (self.config.num_wires as u64) < min_wires {
            return Err(FriError::InsufficientWires { needed: min_wires });
        }
        if (self.config.num_routed_wires as u64) < min_routed {
            return Err(FriError::InsufficientRoutedWires { needed: min_routed });
        }
        Ok(())
    }

    /// The sanity check on the non-canonical index decomposition: the
    /// probability of an ambiguous index must sit far below the per-query
    /// soundness error.  This depends on the configuration alone, never on
    /// a proof.
    pub fn assert_noncanonical_indices_ok(config: &FriConfig) -> (ok: bool)
        requires
            config.rate_bits <= crate::config::MAX_SIZE_BITS,
        ensures
            ok == noncanonical_indices_ok(*config),
    {
        check_noncanonical_indices(config)
    }

    /// Hashes the transcript state together with the proof-of-work witness
    /// and requires the result to carry the configured number of leading
    /// zero bits (widened by the gap between 64 bits and the field's own
    /// width).  An inadequate witness makes this constraint unsatisfiable;
    /// it is not a construction-time failure.
    pub fn fri_verify_proof_of_work(
        &mut self,
        proof: &FriProofTarget,
        challenger: &mut RecursiveChallenger,
        config: &FriConfig,
    )
        requires
            target_ok(proof.pow_witness, old(self).wire_count()),
            old(challenger).num_draws < usize::MAX,
            config.proof_of_work_bits <= 64,
        ensures
            final(self).extends(*old(self)),
            final(challenger).observed@ == old(challenger).observed@,
            final(challenger).num_draws == old(challenger).num_draws + 1,
            final(self).appended_since(*old(self)).len() == 3,
            final(self).appended_since(*old(self))[0] matches Constraint::TranscriptHash {
                inputs,
                round,
                out,
            } && inputs@ == old(challenger).observed@ && round == old(challenger).num_draws,
            final(self).appended_since(*old(self))[1] matches Constraint::HashMany {
                inputs,
                out,
            } && inputs@ == crate::challenger::digest_elements(
                crate::constraint::hash_out_of(final(self).appended_since(*old(self))[0]),
            ).push(proof.pow_witness) && out.index == old(self).wire_count() + 4,
            final(self).appended_since(*old(self))[2] matches Constraint::LeadingZeros {
                input,
                zeros,
            } && input.index == old(self).wire_count() + 4 && zeros == config.proof_of_work_bits + (
            64 - FIELD_ORDER_BITS),
            count_leading_zeros(final(self).appended_since(*old(self))) == 1,
            count_challenges(final(self).appended_since(*old(self))) == 0,
            count_cap_selects(final(self).appended_since(*old(self))) == 0,
            count_connects(final(self).appended_since(*old(self))) == 0,
            count_decompositions(final(self).appended_since(*old(self))) == 0,
            final(self).high_degree_interp_gates == old(self).high_degree_interp_gates,
            final(self).low_degree_interp_gates == old(self).low_degree_interp_gates,
    {
        let ghost b0 = *self;
        let h = challenger.get_hash(self);
        let ghost b1 = *self;
        let mut inputs: Vec<Target> = Vec::new();
        inputs.push(h.e0);
        inputs.push(h.e1);
        inputs.push(h.e2);
        inputs.push(h.e3);
        inputs.push(proof.pow_witness);
        let out = self.alloc_derived();
        self.constraints.push(Constraint::HashMany { inputs, out });
        let ghost b2 = *self;
        let zeros: u32 = config.proof_of_work_bits + (64 - FIELD_ORDER_BITS);
        self.constraints.push(Constraint::LeadingZeros { input: out, zeros });
        proof {
            assert(b2.extends(b1));
            assert(self.extends(b2));
            CircuitBuilder::lemma_extends_transitive(b0, b1, b2);
            CircuitBuilder::lemma_extends_transitive(b0, b2, *self);
            let s = self.appended_since(b0);
            assert(s.len() == 3);
            assert(s[0] == b1.appended_since(b0)[0]);
            assert(s[1] == b2.appended_since(b1)[0]);
            assert(b2.appended_since(b1) =~= seq![Constraint::HashMany { inputs, out }]);
            assert(inputs@ =~= crate::challenger::digest_elements(h).push(proof.pow_witness));
            assert(crate::constraint::hash_out_of(s[0]) == h);
            assert(s[2] == self.appended_since(b2)[0]);
            assert(self.appended_since(b2) =~= seq![Constraint::LeadingZeros { input: out, zeros }]);
            let s2 = s.drop_last();
            let s1 = s2.drop_last();
            let s0 = s1.drop_last();
            assert(s0 =~= Seq::<Constraint>::empty());
            assert(s.last() == s[2]);
            assert(s2[0] == s[0] && s2[1] == s[1] && s2.last() == s[1]);
            assert(s1[0] == s[0] && s1.last() == s[0]);
            assert(count_leading_zeros(s0) == 0 && count_challenges(s0) == 0 && count_cap_selects(
                s0,
            ) == 0 && count_connects(s0) == 0 && count_decompositions(s0) == 0);
            assert(s[0] is TranscriptHash && s[1] is HashMany && s[2] is LeadingZeros);
            assert(count_leading_zeros(s) == count_leading_zeros(s2) + 1);
            assert(count_leading_zeros(s2) == count_leading_zeros(s1));
            assert(count_leading_zeros(s1) == count_leading_zeros(s0));
            assert(count_challenges(s) == count_challenges(s2));
            assert(count_challenges(s2) == count_challenges(s1));
            assert(count_challenges(s1) == count_challenges(s0));
            assert(count_cap_selects(s) == count_cap_selects(s2));
            assert(count_cap_selects(s2) == count_cap_selects(s1));
            assert(count_cap_selects(s1) == count_cap_selects(s0));
            assert(count_connects(s) == count_connects(s2));
            assert(count_connects(s2) == count_connects(s1));
            assert(count_connects(s1) == count_connects(s0));
            assert(count_decompositions(s) == count_decompositions(s2));
            assert(count_decompositions(s2) == count_decompositions(s1));
            assert(count_decompositions(s1) == count_decompositions(s0));
        }
    }

    /// Re-authenticates every initial oracle's leaf openings against its
    /// cap: one Merkle check per committed oracle, all at the same index.
    pub fn fri_verify_initial_proof(
        &mut self,
        x_index_bits: &Vec<BoolTarget>,
        proof: &FriInitialTreeProofTarget,
        initial_merkle_caps: &Vec<MerkleCapTarget>,
        cap_index: Target,
    )
        requires
            bools_ok(x_index_bits@, old(self).wire_count()),
            target_ok(cap_index, old(self).wire_count()),
            proof.evals_proofs@.len() == initial_merkle_caps@.len(),
            forall|i: int|
                0 <= i < proof.evals_proofs@.len() ==> {
                    let ep = #[trigger] proof.evals_proofs@[i];
                    &&& targets_ok(ep.0@, old(self).wire_count())
                    &&& crate::target::hashes_ok(ep.1.siblings@, old(self).wire_count())
                    &&& ep.1.siblings@.len() <= x_index_bits@.len()
                },
            forall|i: int|
                0 <= i < initial_merkle_caps@.len() ==> crate::target::hashes_ok(
                    (#[trigger] initial_merkle_caps@[i]).digests@,
                    old(self).wire_count(),
                ),
        ensures
            final(self).extends(*old(self)),
            count_cap_selects(final(self).appended_since(*old(self)))
                == proof.evals_proofs@.len(),
            count_challenges(final(self).appended_since(*old(self))) == 0,
            count_connects(final(self).appended_since(*old(self))) == 0,
            count_leading_zeros(final(self).appended_since(*old(self))) == 0,
            count_decompositions(final(self).appended_since(*old(self))) == 0,
            forall|j: int|
                0 <= j < initial_merkle_caps@.len() ==> has_cap_check(
                    final(self).appended_since(*old(self)),
                    cap_index,
                    (#[trigger] initial_merkle_caps@[j]).digests@,
                ),
            forall|j: int|
                0 <= j < proof.evals_proofs@.len() ==> has_merkle_check(
                    final(self).appended_since(*old(self)),
                    (#[trigger] proof.evals_proofs@[j]).0@,
                    x_index_bits@,
                    cap_index,
                    initial_merkle_caps@[j].digests@,
                    proof.evals_proofs@[j].1.siblings@,
                ),
            final(self).high_degree_interp_gates == old(self).high_degree_interp_gates,
            final(self).low_degree_interp_gates == old(self).low_degree_interp_gates,
    {
        let ghost b0 = *self;
        let mut i: usize = 0;
        while i < proof.evals_proofs.len()
            invariant
                i <= proof.evals_proofs@.len(),
                proof.evals_proofs@.len() == initial_merkle_caps@.len(),
                bools_ok(x_index_bits@, b0.wire_count()),
                target_ok(cap_index, b0.wire_count()),
                forall|k: int|
                    0 <= k < proof.evals_proofs@.len() ==> {
                        let ep = #[trigger] proof.evals_proofs@[k];
                        &&& targets_ok(ep.0@, b0.wire_count())
                        &&& crate::target::hashes_ok(ep.1.siblings@, b0.wire_count())
                        &&& ep.1.siblings@.len() <= x_index_bits@.len()
                    },
                forall|k: int|
                    0 <= k < initial_merkle_caps@.len() ==> crate::target::hashes_ok(
                        (#[trigger] initial_merkle_caps@[k]).digests@,
                        b0.wire_count(),
                    ),
                self.extends(b0),
                count_cap_selects(self.appended_since(b0)) == i,
                count_challenges(self.appended_since(b0)) == 0,
                count_connects(self.appended_since(b0)) == 0,
                count_leading_zeros(self.appended_since(b0)) == 0,
                count_decompositions(self.appended_since(b0)) == 0,
                forall|j: int|
                    0 <= j < i ==> has_cap_check(
                        self.appended_since(b0),
                        cap_index,
                        (#[trigger] initial_merkle_caps@[j]).digests@,
                    ),
                forall|j: int|
                    0 <= j < i ==> has_merkle_check(
                        self.appended_since(b0),
                        (#[trigger] proof.evals_proofs@[j]).0@,
                        x_index_bits@,
                        cap_index,
                        initial_merkle_caps@[j].digests@,
                        proof.evals_proofs@[j].1.siblings@,
                    ),
                self.high_degree_interp_gates == b0.high_degree_interp_gates,
                self.low_degree_interp_gates == b0.low_degree_interp_gates,
            decreases proof.evals_proofs@.len() - i,
        {
            let ghost pre = *self;
            let ep = &proof.evals_proofs[i];
            self.verify_merkle_proof_with_cap_index(
                &ep.0,
                x_index_bits,
                cap_index,
                &initial_merkle_caps[i],
                &ep.1,
            );
            proof {
                CircuitBuilder::lemma_extends_transitive(b0, pre, *self);
                let u = pre.appended_since(b0);
                let v = self.appended_since(pre);
                let t = self.appended_since(b0);
                assert(t == u + v);
                lemma_counts_concat(u, v);
                assert forall|j: int| 0 <= j < i + 1 implies has_merkle_check(
                    t,
                    (#[trigger] proof.evals_proofs@[j]).0@,
                    x_index_bits@,
                    cap_index,
                    initial_merkle_caps@[j].digests@,
                    proof.evals_proofs@[j].1.siblings@,
                ) by {
                    if j < i {
                        let k0 = choose|k: int|
                            #[trigger] crate::merkle::is_merkle_check(
                                u,
                                k,
                                proof.evals_proofs@[j].0@,
                                x_index_bits@,
                                cap_index,
                                initial_merkle_caps@[j].digests@,
                                proof.evals_proofs@[j].1.siblings@,
                            );
                        crate::merkle::lemma_merkle_check_extends(
                            u,
                            t,
                            k0,
                            proof.evals_proofs@[j].0@,
                            x_index_bits@,
                            cap_index,
                            initial_merkle_caps@[j].digests@,
                            proof.evals_proofs@[j].1.siblings@,
                        );
                    } else {
                        crate::merkle::lemma_merkle_check_embed(
                            v,
                            t,
                            u.len() as int,
                            proof.evals_proofs@[j].0@,
                            x_index_bits@,
                            cap_index,
                            initial_merkle_caps@[j].digests@,
                            proof.evals_proofs@[j].1.siblings@,
                        );
                    }
                }
                assert forall|j: int| 0 <= j < i + 1 implies has_cap_check(
                    t,
                    cap_index,
                    (#[trigger] initial_merkle_caps@[j]).digests@,
                ) by {
                    if j < i {
                        let k0 = choose|k: int|
                            0 <= k < u.len() && ((#[trigger] u[k]) matches Constraint::CapSelect {
                                index,
                                claimed,
                                cap,
                            } && index == cap_index && cap@ == initial_merkle_caps@[j].digests@);
                        assert(t[k0] == u[k0]);
                    } else {
                        let k1 = t.len() - 1;
                        assert(t[k1] == v[v.len() - 1]);
                        assert(v.last() matches Constraint::CapSelect { index, claimed, cap }
                            && index == cap_index && cap@ == initial_merkle_caps@[j].digests@);
                    }
                }
            }
            i = i + 1;
        }
    }

    /// One batch of the initial combination, as [`is_combine_batch`]
    /// pins it: reduce the batch's leaf openings by `alpha`, subtract the
    /// precomputed reduced opening, divide by the lifted query point minus
    /// the batch's point, and fold into the running sum shifted by the
    /// consumed powers.
    #[verifier::rlimit(100)]
    #[verifier::spinoff_prover]
    fn fri_combine_batch(
        &mut self,
        instance: &FriInstanceInfoTarget,
        proof: &FriInitialTreeProofTarget,
        alpha_f: &mut ReducingFactorTarget,
        x_ext: ExtTarget,
        reduced_opening: ExtTarget,
        bi: usize,
        sum: ExtTarget,
        params: &FriParams,
    ) -> (r: ExtTarget)
        requires
            bi < instance.batches@.len(),
            instance_ok(*instance, old(self).wire_count()),
            initial_proof_ok(*proof, *instance, *params, old(self).wire_count()),
            old(alpha_f).count == 0,
            ext_ok(old(alpha_f).base, old(self).wire_count()),
            ext_ok(x_ext, old(self).wire_count()),
            ext_ok(reduced_opening, old(self).wire_count()),
            ext_ok(sum, old(self).wire_count()),
        ensures
            final(self).extends(*old(self)),
            arithmetic_only(final(self).appended_since(*old(self))),
            final(alpha_f).base == old(alpha_f).base,
            final(alpha_f).count == 0,
            final(self).appended_since(*old(self)).len() == 10
                + instance.batches@[bi as int].polynomials@.len(),
            is_combine_batch(
                final(self).appended_since(*old(self)),
                old(alpha_f).base,
                x_ext,
                batch_leaf_values(instance.batches@[bi as int], *proof),
                reduced_opening,
                instance.batches@[bi as int].point,
                sum,
            ),
            r == div_add_out(final(self).appended_since(*old(self)).last()),
            ext_ok(r, final(self).wire_count()),
            final(self).high_degree_interp_gates == old(self).high_degree_interp_gates,
            final(self).low_degree_interp_gates == old(self).low_degree_interp_gates,
    {
        let ghost b0 = *self;
        let batch = &instance.batches[bi];
        let mut evals: Vec<Target> = Vec::new();
        let mut pj: usize = 0;
        while pj < batch.polynomials.len()
            invariant
                pj <= batch.polynomials@.len(),
                0 <= bi < instance.batches@.len(),
                batch == &instance.batches@[bi as int],
                instance_ok(*instance, b0.wire_count()),
                initial_proof_ok(*proof, *instance, *params, b0.wire_count()),
                targets_ok(evals@, b0.wire_count()),
                evals@ == batch_leaf_values(instance.batches@[bi as int], *proof).take(
                    pj as int,
                ),
            decreases batch.polynomials@.len() - pj,
        {
            let info = batch.polynomials[pj];
            proof {
                assert(instance.batches@[bi as int].polynomials@[pj as int] == info);
            }
            let salted = params.hiding && instance.oracles[info.oracle_index].blinding;
            let e = proof.unsalted_eval(info.oracle_index, info.polynomial_index, salted);
            evals.push(e);
            proof {
                let ep = proof.evals_proofs@[info.oracle_index as int];
                assert(target_ok(ep.0@[info.polynomial_index as int], b0.wire_count()));
                assert(evals@ =~= batch_leaf_values(
                    instance.batches@[bi as int],
                    *proof,
                ).take(pj + 1));
            }
            pj = pj + 1;
        }
        proof {
            assert(batch_leaf_values(instance.batches@[bi as int], *proof).take(
                batch.polynomials@.len() as int,
            ) =~= batch_leaf_values(instance.batches@[bi as int], *proof));
        }
        let evals_len = evals.len();
        proof {
            assert(evals@.len() == evals_len as int);
        }
        let reduced_evals = alpha_f.reduce_base(&evals, self);
        let ghost p1 = *self;
        let numerator = self.sub_extension(reduced_evals, reduced_opening);
        let ghost p2 = *self;
        let point = batch.point;
        let denominator = self.sub_extension(x_ext, point);
        let ghost p3 = *self;
        let shifted = alpha_f.shift(sum, self);
        let ghost p4 = *self;
        let out = self.div_add_extension(numerator, denominator, shifted);
        proof {
            CircuitBuilder::lemma_extends_transitive(b0, p1, p2);
            CircuitBuilder::lemma_extends_transitive(b0, p2, p3);
            CircuitBuilder::lemma_extends_transitive(b0, p3, p4);
            CircuitBuilder::lemma_extends_transitive(b0, p4, *self);
            let m = evals@.len() as int;
            let c = self.appended_since(b0);
            assert(c.len() == 10 + m);
            assert(c.take(3 + m) =~= p1.appended_since(b0));
            assert(c[3 + m] == p2.appended_since(p1)[0]);
            assert(c[3 + m] == (Constraint::SubExt {
                a: reduced_evals,
                b: reduced_opening,
                out: numerator,
            }));
            assert(c[4 + m] == p3.appended_since(p2)[0]);
            assert(c[4 + m] == (Constraint::SubExt { a: x_ext, b: point, out: denominator }));
            assert(c.subrange(5 + m, 9 + m) =~= p4.appended_since(p3));
            assert(c[8 + m] == p4.appended_since(p3)[3]);
            assert(mul_add_out(c[8 + m]) == shifted);
            assert(c[9 + m] == self.appended_since(p4)[0]);
            assert(c[9 + m] == (Constraint::DivAddExt {
                numerator,
                denominator,
                addend: shifted,
                out,
            }));
            assert(is_combine_batch(
                c,
                old(alpha_f).base,
                x_ext,
                batch_leaf_values(instance.batches@[bi as int], *proof),
                reduced_opening,
                point,
                sum,
            ));
            assert(arithmetic_only(c)) by {
                let u = p1.appended_since(b0);
                assert(forall|k: int| 0 <= k < u.len() ==> c[k] == u[k]);
                assert(forall|k: int| u.len() <= k < c.len() ==> c[k] == self.appended_since(
                    p1,
                )[k - u.len()]);
                let w = self.appended_since(p1);
                assert(forall|k: int| 0 <= k < w.len() - 1 ==> !((#[trigger] w[k]) is Challenge)
                    && !(w[k] is TranscriptHash) && !(w[k] is CapSelect) && !(w[k] is ConnectExt)
                    && !(w[k] is LeadingZeros) && !(w[k] is BitDecompose)) by {
                    let w1 = p2.appended_since(p1);
                    let w2 = p3.appended_since(p2);
                    let w3 = p4.appended_since(p3);
                    assert(self.appended_since(p1) == ((w1 + w2) + w3) + self.appended_since(p4));
                }
            }
        }
        out
    }

    /// Combines every committed oracle's leaf opening at the query point
    /// `x` into one extension value: a single Horner reduction by ascending
    /// powers of `alpha`, continued across all batches, of the quotients
    /// `(reduced leaf openings - reduced claimed openings) / (x - point)` —
    /// the evidence that each batch's numerator vanishes at its opening
    /// point.  The emitted structure is pinned batch by batch by
    /// [`is_initial_combination`].  The extension degree is fixed at two,
    /// which satisfies the protocol's demand for a nontrivial extension.
    #[verifier::rlimit(100)]
    #[verifier::spinoff_prover]
    pub fn fri_combine_initial(
        &mut self,
        instance: &FriInstanceInfoTarget,
        proof: &FriInitialTreeProofTarget,
        alpha: ExtTarget,
        subgroup_x: Target,
        precomputed_reduced_evals: &PrecomputedReducedOpeningsTarget,
        params: &FriParams,
    ) -> (r: ExtTarget)
        requires
            instance_ok(*instance, old(self).wire_count()),
            initial_proof_ok(*proof, *instance, *params, old(self).wire_count()),
            ext_ok(alpha, old(self).wire_count()),
            target_ok(subgroup_x, old(self).wire_count()),
            precomputed_reduced_evals.reduced_openings_at_point@.len()
                == instance.batches@.len(),
            exts_ok(
                precomputed_reduced_evals.reduced_openings_at_point@,
                old(self).wire_count(),
            ),
        ensures
            final(self).extends(*old(self)),
            arithmetic_only(final(self).appended_since(*old(self))),
            final(self).appended_since(*old(self)).len() >= 3,
            final(self).appended_since(*old(self))[0] matches Constraint::Constant {
                value,
                out,
            } && value == 0,
            final(self).appended_since(*old(self))[1] matches Constraint::Constant {
                value,
                out,
            } && value == 0,
            final(self).appended_since(*old(self))[2] matches Constraint::Constant {
                value,
                out,
            } && value == 0,
            is_initial_combination(
                final(self).appended_since(*old(self)).skip(3),
                alpha,
                ExtTarget {
                    c0: subgroup_x,
                    c1: const_out(final(self).appended_since(*old(self))[0]),
                },
                instance.batches@,
                *proof,
                precomputed_reduced_evals.reduced_openings_at_point@,
                ExtTarget {
                    c0: const_out(final(self).appended_since(*old(self))[1]),
                    c1: const_out(final(self).appended_since(*old(self))[2]),
                },
                r,
            ),
            ext_ok(r, final(self).wire_count()),
            final(self).high_degree_interp_gates == old(self).high_degree_interp_gates,
            final(self).low_degree_interp_gates == old(self).low_degree_interp_gates,
    {
        let ghost b0 = *self;
        let x_ext = self.convert_to_ext(subgroup_x);
        let mut alpha_f = ReducingFactorTarget::new(alpha);
        let mut sum = self.zero_extension();
        let ghost b1 = *self;
        let ghost start = sum;
        proof {
            let s = b1.appended_since(b0);
            assert(s.len() == 3);
            assert(s[0] matches Constraint::Constant { value, out } && value == 0 && out
                == x_ext.c1);
            assert(s[1] matches Constraint::Constant { value, out } && value == 0 && out
                == start.c0);
            assert(s[2] matches Constraint::Constant { value, out } && value == 0 && out
                == start.c1);
            assert(arithmetic_only(s));
            assert(instance.batches@.subrange(0, 0) =~= Seq::<FriBatchInfoTarget>::empty());
            assert(precomputed_reduced_evals.reduced_openings_at_point@.subrange(0, 0)
                =~= Seq::<ExtTarget>::empty());
        }
        let mut bi: usize = 0;
        while bi < instance.batches.len()
            invariant
                bi <= instance.batches@.len(),
                instance_ok(*instance, b0.wire_count()),
                initial_proof_ok(*proof, *instance, *params, b0.wire_count()),
                precomputed_reduced_evals.reduced_openings_at_point@.len()
                    == instance.batches@.len(),
                exts_ok(
                    precomputed_reduced_evals.reduced_openings_at_point@,
                    b0.wire_count(),
                ),
                b1.extends(b0),
                b1.appended_since(b0).len() == 3,
                arithmetic_only(b1.appended_since(b0)),
                ext_ok(x_ext, b1.wire_count()),
                alpha_f.base == alpha,
                alpha_f.count == 0,
                ext_ok(alpha, b0.wire_count()),
                self.extends(b1),
                arithmetic_only(self.appended_since(b1)),
                is_initial_combination(
                    self.appended_since(b1),
                    alpha,
                    x_ext,
                    instance.batches@.subrange(0, bi as int),
                    *proof,
                    precomputed_reduced_evals.reduced_openings_at_point@.subrange(0, bi as int),
                    start,
                    sum,
                ),
                ext_ok(sum, self.wire_count()),
                self.high_degree_interp_gates == b0.high_degree_interp_gates,
                self.low_degree_interp_gates == b0.low_degree_interp_gates,
            decreases instance.batches@.len() - bi,
        {
            let ghost p0 = *self;
            let ghost sum_prev = sum;
            proof {
                crate::fri_proof::lemma_instance_ok_monotone(
                    *instance,
                    b0.wire_count(),
                    p0.wire_count(),
                );
            }
            let reduced_opening = precomputed_reduced_evals.reduced_openings_at_point[bi];
            sum = self.fri_combine_batch(
                instance,
                proof,
                &mut alpha_f,
                x_ext,
                reduced_opening,
                bi,
                sum,
                params,
            );
            proof {
                let c = self.appended_since(p0);
                let m = instance.batches@[bi as int].polynomials@.len() as int;
                CircuitBuilder::lemma_extends_transitive(b1, p0, *self);
                let t = self.appended_since(b1);
                let u = p0.appended_since(b1);
                assert(t == u + c);
                let chunk = 10 + m;
                assert(t.take(t.len() - chunk) =~= u);
                assert(t.skip(t.len() - chunk) =~= c);
                let bs = instance.batches@.subrange(0, bi + 1);
                let ps = precomputed_reduced_evals.reduced_openings_at_point@.subrange(0, bi + 1);
                assert(bs.drop_last() =~= instance.batches@.subrange(0, bi as int));
                assert(ps.drop_last()
                    =~= precomputed_reduced_evals.reduced_openings_at_point@.subrange(
                    0,
                    bi as int,
                ));
                assert(bs.last() == instance.batches@[bi as int]);
                assert(ps.last() == reduced_opening);
                assert(t.last() == c[c.len() - 1]);
                assert(div_add_out(t.last()) == sum);
                assert(is_initial_combination(t, alpha, x_ext, bs, *proof, ps, start, sum));
                assert(arithmetic_only(t)) by {
                    assert(forall|k: int| 0 <= k < u.len() ==> t[k] == u[k]);
                    assert(forall|k: int| u.len() <= k < t.len() ==> t[k] == c[k - u.len()]);
                }
            }
            bi = bi + 1;
        }
        proof {
            CircuitBuilder::lemma_extends_transitive(b0, b1, *self);
            let t = self.appended_since(b0);
            let u = b1.appended_since(b0);
            let v = self.appended_since(b1);
            assert(t == u + v);
            assert(t.skip(3) =~= v);
            assert(t[0] == u[0] && t[1] == u[1] && t[2] == u[2]);
            assert(instance.batches@.subrange(0, instance.batches@.len() as int)
                =~= instance.batches@);
            assert(precomputed_reduced_evals.reduced_openings_at_point@.subrange(
                0,
                instance.batches@.len() as int,
            ) =~= precomputed_reduced_evals.reduced_openings_at_point@);
            assert(arithmetic_only(t)) by {
                assert(forall|k: int| 0 <= k < u.len() ==> t[k] == u[k]);
                assert(forall|k: int| u.len() <= k < t.len() ==> t[k] == v[k - u.len()]);
            }
        }
        sum
    }

    /// Horner evaluation of an explicit coefficient list at a base-field
    /// point, highest coefficient first: the point lifted with a fresh zero
    /// high coefficient, then a fresh zero start, then one chained
    /// multiply-add per coefficient, `r` the chain's result
    /// ([`is_fresh_reduction`]).
    pub fn eval_poly_scalar(&mut self, coeffs: &Vec<ExtTarget>, x: Target) -> (r: ExtTarget)
        requires
            exts_ok(coeffs@, old(self).wire_count()),
            target_ok(x, old(self).wire_count()),
        ensures
            final(self).extends(*old(self)),
            arithmetic_only(final(self).appended_since(*old(self))),
            final(self).appended_since(*old(self)).len() == 3 + coeffs@.len(),
            final(self).appended_since(*old(self))[0] matches Constraint::Constant {
                value,
                out,
            } && value == 0,
            is_fresh_reduction(
                final(self).appended_since(*old(self)).skip(1),
                ExtTarget {
                    c0: x,
                    c1: const_out(final(self).appended_since(*old(self))[0]),
                },
                coeffs@,
                r,
            ),
            ext_ok(r, final(self).wire_count()),
            final(self).high_degree_interp_gates == old(self).high_degree_interp_gates,
            final(self).low_degree_interp_gates == old(self).low_degree_interp_gates,
    {
        let ghost b0 = *self;
        let x_ext = self.convert_to_ext(x);
        let mut acc = self.zero_extension();
        let ghost b1 = *self;
        let ghost start = acc;
        proof {
            let s = b1.appended_since(b0);
            assert(s.len() == 3);
            assert(s[0] matches Constraint::Constant { value, out } && value == 0 && out
                == x_ext.c1);
            assert(s[1] matches Constraint::Constant { value, out } && value == 0 && out
                == start.c0);
            assert(s[2] matches Constraint::Constant { value, out } && value == 0 && out
                == start.c1);
            assert(arithmetic_only(s));
        }
        let mut i: usize = coeffs.len();
        while i > 0
            invariant
                i <= coeffs@.len(),
                b1.extends(b0),
                b1.appended_since(b0).len() == 3,
                b1.appended_since(b0)[0] matches Constraint::Constant { value, out } && value == 0
                    && out == x_ext.c1,
                b1.appended_since(b0)[1] matches Constraint::Constant { value, out } && value == 0
                    && out == start.c0,
                b1.appended_since(b0)[2] matches Constraint::Constant { value, out } && value == 0
                    && out == start.c1,
                arithmetic_only(b1.appended_since(b0)),
                exts_ok(coeffs@, b0.wire_count()),
                ext_ok(x_ext, b1.wire_count()),
                x_ext.c0 == x,
                self.extends(b1),
                is_horner_chain(
                    self.appended_since(b1),
                    x_ext,
                    start,
                    coeffs@.skip(i as int),
                ),
                acc == crate::constraint::horner_result(self.appended_since(b1), start),
                arithmetic_only(self.appended_since(b1)),
                ext_ok(acc, self.wire_count()),
                self.high_degree_interp_gates == b0.high_degree_interp_gates,
                self.low_degree_interp_gates == b0.low_degree_interp_gates,
            decreases i,
        {
            i = i - 1;
            let c = coeffs[i];
            let ghost pre = *self;
            let next = self.mul_add_extension(acc, x_ext, c);
            proof {
                let t = self.appended_since(b1);
                let tp = pre.appended_since(b1);
                assert(t.drop_last() =~= tp);
                assert(t.last() == (Constraint::MulAddExt {
                    a: acc,
                    b: x_ext,
                    addend: c,
                    out: next,
                }));
                let ad = coeffs@.skip(i as int);
                assert(ad.skip(1) =~= coeffs@.skip(i + 1));
                assert(ad[0] == coeffs@[i as int]);
                assert(is_horner_chain(t, x_ext, start, ad));
                assert(arithmetic_only(t)) by {
                    assert(forall|k: int| 0 <= k < tp.len() ==> t[k] == tp[k]);
                }
            }
            acc = next;
        }
        proof {
            CircuitBuilder::lemma_extends_transitive(b0, b1, *self);
            let t = self.appended_since(b0);
            let u = b1.appended_since(b0);
            let v = self.appended_since(b1);
            assert(t == u + v);
            assert(coeffs@.skip(0) =~= coeffs@);
            assert(t.skip(1).skip(2) =~= v);
            assert(t.skip(1).len() == 2 + coeffs@.len());
            assert(t[0] == u[0] && t[1] == u[1] && t[2] == u[2]);
            assert(t.skip(1)[0] == t[1] && t.skip(1)[1] == t[2]);
            assert(const_out(t.skip(1)[0]) == start.c0 && const_out(t.skip(1)[1]) == start.c1);
            assert(arithmetic_only(t)) by {
                assert(forall|k: int| 0 <= k < u.len() ==> t[k] == u[k]);
                assert(forall|k: int| u.len() <= k < t.len() ==> t[k] == v[k - u.len()]);
            }
        }
        acc
    }

    /// One folding round of one query, as [`is_round_block`] pins it at
    /// the start of the appended stream: recompose the within-coset index,
    /// check the previous folded value among the claimed evaluations, fold
    /// by interpolation on the coset of the incoming domain point,
    /// re-authenticate the flattened evaluations against the round's cap,
    /// and square the domain point up to the next round's.  Returns the
    /// folded value and the advanced domain point.
    #[verifier::rlimit(100)]
    #[verifier::spinoff_prover]
    fn fri_query_round_step(
        &mut self,
        step: &FriQueryStepTarget,
        beta: ExtTarget,
        arity_bits: usize,
        within_bits: &Vec<BoolTarget>,
        coset_index_bits: &Vec<BoolTarget>,
        cap: &MerkleCapTarget,
        cap_index: Target,
        old_eval: ExtTarget,
        subgroup_x: Target,
        bits_base: Ghost<int>,
    ) -> (r: (ExtTarget, Target))
        requires
            0 < arity_bits <= crate::config::MAX_SIZE_BITS,
            step.evals@.len() == pow2(arity_bits as nat),
            exts_ok(step.evals@, old(self).wire_count()),
            crate::target::hashes_ok(step.merkle_proof.siblings@, old(self).wire_count()),
            crate::target::hashes_ok(cap.digests@, old(self).wire_count()),
            step.merkle_proof.siblings@.len() <= coset_index_bits@.len(),
            bools_ok(within_bits@, old(self).wire_count()),
            bools_ok(coset_index_bits@, old(self).wire_count()),
            within_bits@.len() == arity_bits,
            forall|t2: int|
                0 <= t2 < within_bits@.len() ==> (#[trigger] within_bits@[t2]).target.index
                    == bits_base@ + t2,
            forall|j: int|
                0 <= j < coset_index_bits@.len() ==> (#[trigger] coset_index_bits@[j]).target.index
                    == bits_base@ + arity_bits + j,
            ext_ok(beta, old(self).wire_count()),
            ext_ok(old_eval, old(self).wire_count()),
            target_ok(subgroup_x, old(self).wire_count()),
            target_ok(cap_index, old(self).wire_count()),
        ensures
            final(self).extends(*old(self)),
            final(self).appended_since(*old(self)).len() == 2 * arity_bits
                + step.merkle_proof.siblings@.len() + 7,
            count_cap_selects(final(self).appended_since(*old(self))) == 1,
            count_challenges(final(self).appended_since(*old(self))) == 0,
            count_connects(final(self).appended_since(*old(self))) == 0,
            count_leading_zeros(final(self).appended_since(*old(self))) == 0,
            count_decompositions(final(self).appended_since(*old(self))) == 0,
            is_round_block(
                final(self).appended_since(*old(self)),
                0,
                *step,
                beta,
                arity_bits as int,
                bits_base@,
                cap.digests@,
                cap_index,
                old_eval,
                r.0,
                subgroup_x,
                r.1,
            ),
            ext_ok(r.0, final(self).wire_count()),
            target_ok(r.1, final(self).wire_count()),
    {
        let ghost q0 = *self;
        let x_index_within_coset = self.le_sum(within_bits);
        let ghost q1 = *self;
        self.random_access_extension(x_index_within_coset, old_eval, &step.evals);
        let ghost q2 = *self;
        let new_eval = self.compute_evaluation(
            subgroup_x,
            within_bits,
            arity_bits,
            &step.evals,
            beta,
        );
        let ghost q3 = *self;
        let flat = flatten_ext_vec(&step.evals);
        proof {
            assert forall|k: int| 0 <= k < flat@.len() implies target_ok(
                #[trigger] flat@[k],
                self.wire_count(),
            ) by {
                let e = step.evals@[k / 2];
                assert(ext_ok(e, q0.wire_count()));
                assert(flat@[2 * (k / 2)] == e.c0 && flat@[2 * (k / 2) + 1] == e.c1);
            }
        }
        self.verify_merkle_proof_with_cap_index(
            &flat,
            coset_index_bits,
            cap_index,
            cap,
            &step.merkle_proof,
        );
        let ghost q4 = *self;
        let new_subgroup = self.exp_power_of_2(subgroup_x, arity_bits);
        proof {
            CircuitBuilder::lemma_extends_transitive(q0, q1, q2);
            CircuitBuilder::lemma_extends_transitive(q0, q2, q3);
            CircuitBuilder::lemma_extends_transitive(q0, q3, q4);
            CircuitBuilder::lemma_extends_transitive(q0, q4, *self);
            let s1 = q1.appended_since(q0);
            let s2 = q2.appended_since(q1);
            let s3 = q3.appended_since(q2);
            let s4 = q4.appended_since(q3);
            let s5 = self.appended_since(q4);
            let ab = arity_bits as int;
            let sib = step.merkle_proof.siblings@.len() as int;
            let t = self.appended_since(q0);
            assert(t == ((((s1 + s2) + s3) + s4) + s5));
            assert(t.len() == 2 * ab + sib + 7);
            assert(t[0] == s1[0]);
            assert(t[1] == s2[0]);
            assert(forall|x: int| 0 <= x < s3.len() ==> #[trigger] t[2 + x] == s3[x]);
            assert(forall|x: int| 0 <= x < s4.len() ==> #[trigger] t[5 + ab + x] == s4[x]);
            assert(forall|x: int| 0 <= x < s5.len() ==> #[trigger] t[ab + sib + 7 + x] == s5[x]);
            assert forall|j: int| 0 <= j < ab implies (#[trigger] t[3 + j]
                matches Constraint::CondMulConst { bit, factor, input, out } && bit.target.index
                == bits_base@ + (ab - 1 - j) && factor as int == crate::field::pow_sq_spec(
                root_inverse_value(ab as nat) as u64,
                j as nat,
            )) by {
                assert(t[2 + (j + 1)] == s3[j + 1]);
                assert(s3[j + 1] matches Constraint::CondMulConst { bit, factor, input, out }
                    && bit == within_bits@[ab - 1 - j]);
            }
            assert(t[3 + ab] == s3[ab + 1]);
            assert(t[4 + ab] == s3[ab + 2]);
            assert(s3[ab + 2] == s3.last());
            assert(crate::merkle::is_merkle_check(
                t,
                5 + ab,
                crate::challenger::ext_elements(step.evals@),
                wire_bits(bits_base@ + ab, sib),
                cap_index,
                cap.digests@,
                step.merkle_proof.siblings@,
            )) by {
                crate::challenger::lemma_ext_elements_index(step.evals@);
                assert(flat@ =~= crate::challenger::ext_elements(step.evals@)) by {
                    assert forall|x: int| 0 <= x < flat@.len() implies flat@[x]
                        == crate::challenger::ext_elements(step.evals@)[x] by {
                        let h = x / 2;
                        assert(x == 2 * h || x == 2 * h + 1);
                        assert(flat@[2 * h] == step.evals@[h].c0);
                        assert(flat@[2 * h + 1] == step.evals@[h].c1);
                    }
                }
                assert(crate::merkle::is_merkle_check(
                    s4,
                    0,
                    flat@,
                    coset_index_bits@,
                    cap_index,
                    cap.digests@,
                    step.merkle_proof.siblings@,
                ));
                crate::merkle::lemma_merkle_check_embed(
                    s4,
                    t,
                    5 + ab,
                    flat@,
                    coset_index_bits@,
                    cap_index,
                    cap.digests@,
                    step.merkle_proof.siblings@,
                );
                assert forall|j: int| 0 <= j < sib implies (#[trigger] t[5 + ab + 1 + j]
                    matches Constraint::HashPair { swap, current, sibling, out } && swap
                    == wire_bits(bits_base@ + ab, sib)[j] && sibling
                    == step.merkle_proof.siblings@[j] && current == crate::constraint::hash_out_of(
                    t[5 + ab + j],
                )) by {
                    assert(t[5 + ab + 1 + j] matches Constraint::HashPair {
                        swap,
                        current,
                        sibling,
                        out,
                    } && swap == coset_index_bits@[j]);
                    assert(coset_index_bits@[j] == wire_bits(bits_base@ + ab, sib)[j]);
                }
            }
            assert(is_round_block(
                t,
                0,
                *step,
                beta,
                ab,
                bits_base@,
                cap.digests@,
                cap_index,
                old_eval,
                new_eval,
                subgroup_x,
                new_subgroup,
            ));
            assert(arithmetic_only(s1)) by {
                assert(s1.len() == 1 && s1[0] is WeightedSum);
            }
            assert(arithmetic_only(s2)) by {
                assert(s2.len() == 1 && s2[0] is RandomAccessExt);
            }
            lemma_arithmetic_only_counts(s1);
            lemma_arithmetic_only_counts(s2);
            lemma_arithmetic_only_counts(s3);
            lemma_arithmetic_only_counts(s5);
            lemma_counts_concat(s1, s2);
            lemma_counts_concat(q2.appended_since(q0), s3);
            lemma_counts_concat(q3.appended_since(q0), s4);
            lemma_counts_concat(q4.appended_since(q0), s5);
        }
        (new_eval, new_subgroup)
    }

    /// One full query round: draw and decompose the index, re-authenticate
    /// the initial oracles, reconstruct the domain point, combine the
    /// initial openings, then per folding round check consistency with the
    /// previous folded value, fold by interpolation, and re-authenticate
    /// the round's coset — finally requiring the last folded value to equal
    /// the explicit final polynomial at the surviving point.
    #[verifier::rlimit(100)]
    #[verifier::spinoff_prover]
    pub fn fri_verifier_query_round(
        &mut self,
        instance: &FriInstanceInfoTarget,
        alpha: ExtTarget,
        precomputed_reduced_evals: &PrecomputedReducedOpeningsTarget,
        initial_merkle_caps: &Vec<MerkleCapTarget>,
        proof: &FriProofTarget,
        challenger: &mut RecursiveChallenger,
        n: u64,
        betas: &Vec<ExtTarget>,
        round_proof: &FriQueryRoundTarget,
        params: &FriParams,
    )
        requires
            params.valid(),
            noncanonical_indices_ok(params.config),
            n as int == pow2(params.n_log() as nat) as int,
            instance_ok(*instance, old(self).wire_count()),
            query_round_ok(*round_proof, *instance, *params, old(self).wire_count()),
            initial_merkle_caps@.len() == instance.oracles@.len(),
            caps_ok(
                initial_merkle_caps@,
                params.config.cap_height as int,
                old(self).wire_count(),
            ),
            proof_ok(*proof, *instance, *params, old(self).wire_count()),
            betas@.len() == params.reduction_arity_bits@.len(),
            exts_ok(betas@, old(self).wire_count()),
            ext_ok(alpha, old(self).wire_count()),
            precomputed_reduced_evals.reduced_openings_at_point@.len()
                == instance.batches@.len(),
            exts_ok(
                precomputed_reduced_evals.reduced_openings_at_point@,
                old(self).wire_count(),
            ),
            old(challenger).num_draws < usize::MAX,
        ensures
            final(self).extends(*old(self)),
            final(challenger).num_draws == old(challenger).num_draws + 1,
            final(challenger).observed@ == old(challenger).observed@,
            final(self).appended_since(*old(self)).len() >= 2,
            is_challenge_of(
                final(self).appended_since(*old(self))[0],
                old(challenger).observed@,
                old(challenger).num_draws as int,
                old(self).wire_count() as int,
            ),
            final(self).appended_since(*old(self))[1] matches Constraint::BitDecompose {
                input,
                bits,
            } && input.index == old(self).wire_count(),
            final(self).appended_since(*old(self))[2] matches Constraint::WeightedSum {
                bits,
                out,
            } && out.index == old(self).wire_count() + 65 && bits@.len()
                == params.config.cap_height && (forall|t2: int|
                0 <= t2 < params.config.cap_height ==> (#[trigger] bits@[t2]).target.index == old(
                    self,
                ).wire_count() + 1 + (params.n_log() - params.config.cap_height) + t2),
            forall|j: int|
                0 <= j < initial_merkle_caps@.len() ==> has_cap_check(
                    final(self).appended_since(*old(self)),
                    Target { index: (old(self).wire_count() + 65) as usize },
                    (#[trigger] initial_merkle_caps@[j]).digests@,
                ),
            forall|i2: int|
                0 <= i2 < params.reduction_arity_bits@.len() ==> has_cap_check(
                    final(self).appended_since(*old(self)),
                    Target { index: (old(self).wire_count() + 65) as usize },
                    (#[trigger] proof.commit_phase_merkle_caps@[i2]).digests@,
                ),
            exists|first: ExtTarget, last: ExtTarget, sx0: Target, sxl: Target|
                #![trigger rounds_chain(
                    final(self).appended_since(*old(self)),
                    round_proof.steps@,
                    betas@,
                    params.reduction_arity_bits@,
                    proof.commit_phase_merkle_caps@,
                    Target { index: (old(self).wire_count() + 65) as usize },
                    old(self).wire_count() as int + 1,
                    params.reduction_arity_bits@.len() as int,
                    first,
                    last,
                    sx0,
                    sxl,
                )]
                rounds_chain(
                    final(self).appended_since(*old(self)),
                    round_proof.steps@,
                    betas@,
                    params.reduction_arity_bits@,
                    proof.commit_phase_merkle_caps@,
                    Target { index: (old(self).wire_count() + 65) as usize },
                    old(self).wire_count() as int + 1,
                    params.reduction_arity_bits@.len() as int,
                    first,
                    last,
                    sx0,
                    sxl,
                ) && has_domain_derivation(
                    final(self).appended_since(*old(self)),
                    params.n_log(),
                    old(self).wire_count() as int + 1,
                    sx0,
                ) && (final(self).appended_since(*old(self)).last() matches Constraint::ConnectExt {
                    a,
                    b,
                } && b == last) && final_poly_check(
                    final(self).appended_since(*old(self)),
                    proof.final_poly@,
                    connect_lhs(final(self).appended_since(*old(self)).last()),
                    sxl,
                ),
            exists|sx: Target|
                #[trigger] final_poly_check(
                    final(self).appended_since(*old(self)),
                    proof.final_poly@,
                    connect_lhs(final(self).appended_since(*old(self)).last()),
                    sx,
                ),
            count_challenges(final(self).appended_since(*old(self))) == 1,
            count_decompositions(final(self).appended_since(*old(self))) == 1,
            count_cap_selects(final(self).appended_since(*old(self)))
                == instance.oracles@.len() + params.reduction_arity_bits@.len(),
            count_connects(final(self).appended_since(*old(self))) == 1,
            final(self).appended_since(*old(self)).last() is ConnectExt,
            count_leading_zeros(final(self).appended_since(*old(self))) == 0,
    {
        let ghost b0 = *self;
        let ghost arities = params.reduction_arity_bits@;
        let n_log = log2_strict(n);
        proof {
            if (n_log as int) < params.n_log() {
                vstd::arithmetic::power2::lemma_pow2_strictly_increases(
                    n_log as nat,
                    params.n_log() as nat,
                );
            }
            if params.n_log() < n_log as int {
                vstd::arithmetic::power2::lemma_pow2_strictly_increases(
                    params.n_log() as nat,
                    n_log as nat,
                );
            }
            assert(n_log as int == params.n_log());
        }
        // The low-bits decomposition below admits non-canonical encodings;
        // the configuration guarantees that costs only a negligible part of
        // the soundness budget.
        let noncanonical_fine = Self::assert_noncanonical_indices_ok(&params.config);
        proof {
            assert(noncanonical_fine);
        }
        let x_index = challenger.get_challenge(self);
        let ghost c1 = *self;
        let mut x_index_bits = self.low_bits(x_index, n_log, 64);
        let ghost c2 = *self;
        proof {
            CircuitBuilder::lemma_extends_transitive(b0, c1, c2);
            crate::config::lemma_sum_arities_nonneg(arities);
        }
        let high_start = n_log - params.config.cap_height;
        let high_bits = subrange_vec(&x_index_bits, high_start, x_index_bits.len());
        let cap_index = self.le_sum(&high_bits);
        let ghost c3 = *self;
        proof {
            CircuitBuilder::lemma_extends_transitive(b0, c2, c3);
            assert forall|i: int| 0 <= i < round_proof.initial_trees_proof.evals_proofs@.len()
                implies {
                let ep = #[trigger] round_proof.initial_trees_proof.evals_proofs@[i];
                &&& targets_ok(ep.0@, c3.wire_count())
                &&& crate::target::hashes_ok(ep.1.siblings@, c3.wire_count())
                &&& ep.1.siblings@.len() <= x_index_bits@.len()
            } by {
                let ep = round_proof.initial_trees_proof.evals_proofs@[i];
                assert(targets_ok(ep.0@, b0.wire_count()));
                assert(crate::target::hashes_ok(ep.1.siblings@, b0.wire_count()));
            }
            assert forall|i: int| 0 <= i < initial_merkle_caps@.len() implies
                crate::target::hashes_ok(
                (#[trigger] initial_merkle_caps@[i]).digests@,
                c3.wire_count(),
            ) by {
                assert(crate::fri_proof::cap_ok(
                    initial_merkle_caps@[i],
                    params.config.cap_height as int,
                    b0.wire_count(),
                ));
            }
        }
        self.fri_verify_initial_proof(
            &x_index_bits,
            &round_proof.initial_trees_proof,
            initial_merkle_caps,
            cap_index,
        );
        let ghost c4 = *self;
        let g = self.constant(COSET_SHIFT);
        let ghost d1 = *self;
        let phi0 = primitive_root_of_unity(n_log);
        let rev = reversed_vec(&x_index_bits);
        let phi = self.exp_from_bits_const_base(phi0, &rev);
        let ghost d2 = *self;
        let mut subgroup_x = self.mul(g, phi);
        let ghost c5 = *self;
        proof {
            crate::fri_proof::lemma_instance_ok_monotone(
                *instance,
                b0.wire_count(),
                c5.wire_count(),
            );
            crate::fri_proof::lemma_query_round_ok_monotone(
                *round_proof,
                *instance,
                *params,
                b0.wire_count(),
                c5.wire_count(),
            );
            assert forall|k: int| 0 <= k
                < precomputed_reduced_evals.reduced_openings_at_point@.len() implies ext_ok(
                #[trigger] precomputed_reduced_evals.reduced_openings_at_point@[k],
                c5.wire_count(),
            ) by {
                assert(ext_ok(
                    precomputed_reduced_evals.reduced_openings_at_point@[k],
                    b0.wire_count(),
                ));
            }
        }
        let mut old_eval = self.fri_combine_initial(
            instance,
            &round_proof.initial_trees_proof,
            alpha,
            subgroup_x,
            precomputed_reduced_evals,
            params,
        );
        let ghost c6 = *self;
        proof {
            CircuitBuilder::lemma_extends_transitive(b0, c3, c4);
            CircuitBuilder::lemma_extends_transitive(c4, d1, d2);
            CircuitBuilder::lemma_extends_transitive(c4, d2, c5);
            CircuitBuilder::lemma_extends_transitive(b0, c4, c5);
            CircuitBuilder::lemma_extends_transitive(b0, c5, c6);
            let s1 = c1.appended_since(b0);
            let s2 = c2.appended_since(c1);
            let s3 = c3.appended_since(c2);
            let s4 = c4.appended_since(c3);
            let s5 = c5.appended_since(c4);
            let s6 = c6.appended_since(c5);
            assert(count_challenges(s1) == 1 && count_decompositions(s1) == 0 && count_cap_selects(
                s1,
            ) == 0 && count_connects(s1) == 0 && count_leading_zeros(s1) == 0) by {
                assert(s1.len() == 1 && s1[0] is Challenge);
                assert(s1.last() == s1[0]);
                assert(s1.drop_last() =~= Seq::<Constraint>::empty());
                assert(count_challenges(Seq::<Constraint>::empty()) == 0);
                assert(count_decompositions(Seq::<Constraint>::empty()) == 0);
                assert(count_cap_selects(Seq::<Constraint>::empty()) == 0);
                assert(count_connects(Seq::<Constraint>::empty()) == 0);
                assert(count_leading_zeros(Seq::<Constraint>::empty()) == 0);
            }
            assert(count_challenges(s2) == 0 && count_decompositions(s2) == 1 && count_cap_selects(
                s2,
            ) == 0 && count_connects(s2) == 0 && count_leading_zeros(s2) == 0) by {
                assert(s2.len() == 1 && s2[0] is BitDecompose);
                assert(s2.last() == s2[0]);
                assert(s2.drop_last() =~= Seq::<Constraint>::empty());
                assert(count_challenges(Seq::<Constraint>::empty()) == 0);
                assert(count_decompositions(Seq::<Constraint>::empty()) == 0);
                assert(count_cap_selects(Seq::<Constraint>::empty()) == 0);
                assert(count_connects(Seq::<Constraint>::empty()) == 0);
                assert(count_leading_zeros(Seq::<Constraint>::empty()) == 0);
            }
            assert(arithmetic_only(s3)) by {
                assert(s3.len() == 1 && s3[0] is WeightedSum);
            }
            lemma_arithmetic_only_counts(s3);
            assert(arithmetic_only(s5)) by {
                let u1 = d1.appended_since(c4);
                let u2 = d2.appended_since(d1);
                let u3 = c5.appended_since(d2);
                assert(s5 == (u1 + u2) + u3);
                assert forall|k: int| 0 <= k < s5.len() implies {
                    let c = #[trigger] s5[k];
                    &&& !(c is Challenge)
                    &&& !(c is TranscriptHash)
                    &&& !(c is CapSelect)
                    &&& !(c is ConnectExt)
                    &&& !(c is LeadingZeros)
                    &&& !(c is BitDecompose)
                } by {
                    if k < u1.len() {
                        assert(s5[k] == u1[k]);
                        assert(u1[0] is Constant);
                    } else if k < u1.len() + u2.len() {
                        assert(s5[k] == (u1 + u2)[k]);
                        assert((u1 + u2)[k] == u2[k - u1.len()]);
                    } else {
                        assert(s5[k] == u3[k - (u1 + u2).len()]);
                        assert(u3[0] is Mul);
                    }
                }
            }
            lemma_arithmetic_only_counts(s5);
            lemma_arithmetic_only_counts(s6);
            lemma_counts_concat(s1, s2);
            lemma_counts_concat(c2.appended_since(b0), s3);
            lemma_counts_concat(c3.appended_since(b0), s4);
            lemma_counts_concat(c4.appended_since(b0), s5);
            lemma_counts_concat(c5.appended_since(b0), s6);
        }
        let ghost first_eval = old_eval;
        let ghost sx_initial = subgroup_x;
        proof {
            assert(cap_index == (Target { index: (b0.wire_count() + 65) as usize }));
            let t = self.appended_since(b0);
            let s3 = c3.appended_since(c2);
            let s4 = c4.appended_since(c3);
            let s5 = c5.appended_since(c4);
            assert(t[2] == s3[0]);
            assert(t[2] matches Constraint::WeightedSum { bits, out } && out.index
                == b0.wire_count() + 65 && bits@.len() == params.config.cap_height && (forall|
                t2: int,
            |
                0 <= t2 < params.config.cap_height ==> (#[trigger] bits@[t2]).target.index
                    == b0.wire_count() + 1 + (params.n_log() - params.config.cap_height) + t2));
            assert forall|j: int| 0 <= j < initial_merkle_caps@.len() implies has_cap_check(
                t,
                cap_index,
                (#[trigger] initial_merkle_caps@[j]).digests@,
            ) by {
                lemma_cap_check_embed(s4, t, 3, cap_index, initial_merkle_caps@[j].digests@);
            }
            let k_dom = c4.appended_since(b0).len() as int;
            assert(is_domain_derivation(
                t,
                k_dom,
                n_log as int,
                b0.wire_count() as int + 1,
                sx_initial,
            )) by {
                let u1 = d1.appended_since(c4);
                let u2 = d2.appended_since(d1);
                let u3 = c5.appended_since(d2);
                assert(s5 == (u1 + u2) + u3);
                assert(t == c4.appended_since(b0) + s5 + c6.appended_since(c5));
                assert(t[k_dom] == s5[0]);
                assert(t[k_dom + 1] == s5[1]);
                assert(t[k_dom + 2 + n_log] == s5[2 + n_log]);
                assert(s5[0] == u1[0]);
                assert(s5[0] matches Constraint::Constant { value, out } && value == COSET_SHIFT);
                assert(s5[1] == u2[0]);
                assert forall|j: int| 0 <= j < n_log implies (#[trigger] s5[2 + j]
                    matches Constraint::CondMulConst { bit, factor, input, out }
                    && bit.target.index == b0.wire_count() + 1 + (n_log - 1 - j) && factor as int
                    == crate::field::pow_sq_spec(
                    root_of_unity_value(n_log as nat) as u64,
                    j as nat,
                )) by {
                    assert(t[k_dom + 2 + j] == s5[2 + j]);
                    assert(s5[1 + (1 + j)] == ((u1 + u2) + u3)[1 + (1 + j)]);
                    assert(((u1 + u2) + u3)[1 + (1 + j)] == u2[j + 1]);
                    assert(u2[j + 1] matches Constraint::CondMulConst { bit, factor, input, out }
                        && bit == rev@[j] && factor as int == crate::field::pow_sq_spec(
                        phi0,
                        j as nat,
                    ));
                    assert(rev@[j] == x_index_bits@[n_log - 1 - j]);
                    assert(x_index_bits@[n_log - 1 - j].target.index == b0.wire_count() + 1 + (
                    n_log - 1 - j));
                    assert(root_of_unity_value(n_log as nat) as u64 == phi0);
                }
                assert(s5[2 + n_log] == u3[0]);
                assert forall|j: int| 0 <= j < n_log implies (#[trigger] t[k_dom + 2 + j]
                    matches Constraint::CondMulConst { bit, factor, input, out }
                    && bit.target.index == b0.wire_count() + 1 + (n_log - 1 - j) && factor as int
                    == crate::field::pow_sq_spec(
                    root_of_unity_value(n_log as nat) as u64,
                    j as nat,
                )) by {
                    assert(t[k_dom + 2 + j] == s5[2 + j]);
                }
            }
            assert(has_domain_derivation(
                t,
                n_log as int,
                b0.wire_count() as int + 1,
                sx_initial,
            ));
            assert(rounds_chain(
                t,
                round_proof.steps@,
                betas@,
                arities,
                proof.commit_phase_merkle_caps@,
                cap_index,
                b0.wire_count() as int + 1,
                0,
                first_eval,
                old_eval,
                sx_initial,
                subgroup_x,
            ));
        }
        let num_rounds = params.reduction_arity_bits.len();
        let mut i: usize = 0;
        while i < num_rounds
            invariant
                i <= num_rounds,
                num_rounds == arities.len(),
                arities == params.reduction_arity_bits@,
                params.valid(),
                n_log as int == params.n_log(),
                instance_ok(*instance, b0.wire_count()),
                query_round_ok(*round_proof, *instance, *params, b0.wire_count()),
                proof_ok(*proof, *instance, *params, b0.wire_count()),
                betas@.len() == arities.len(),
                exts_ok(betas@, b0.wire_count()),
                self.extends(b0),
                self.appended_since(b0).len() >= 2,
                is_challenge_of(
                    self.appended_since(b0)[0],
                    old(challenger).observed@,
                    old(challenger).num_draws as int,
                    b0.wire_count() as int,
                ),
                self.appended_since(b0)[1] matches Constraint::BitDecompose { input, bits }
                    && input.index == b0.wire_count(),
                count_challenges(self.appended_since(b0)) == 1,
                count_decompositions(self.appended_since(b0)) == 1,
                count_cap_selects(self.appended_since(b0)) == instance.oracles@.len() + i,
                count_connects(self.appended_since(b0)) == 0,
                count_leading_zeros(self.appended_since(b0)) == 0,
                self.appended_since(b0).len() >= 3,
                cap_index == (Target { index: (b0.wire_count() + 65) as usize }),
                self.appended_since(b0)[2] matches Constraint::WeightedSum { bits, out }
                    && out.index == b0.wire_count() + 65 && bits@.len()
                    == params.config.cap_height && (forall|t2: int|
                    0 <= t2 < params.config.cap_height ==> (#[trigger] bits@[t2]).target.index
                        == b0.wire_count() + 1 + (params.n_log() - params.config.cap_height)
                        + t2),
                forall|j: int|
                    0 <= j < initial_merkle_caps@.len() ==> has_cap_check(
                        self.appended_since(b0),
                        cap_index,
                        (#[trigger] initial_merkle_caps@[j]).digests@,
                    ),
                forall|i2: int|
                    0 <= i2 < i ==> has_cap_check(
                        self.appended_since(b0),
                        cap_index,
                        (#[trigger] proof.commit_phase_merkle_caps@[i2]).digests@,
                    ),
                rounds_chain(
                    self.appended_since(b0),
                    round_proof.steps@,
                    betas@,
                    arities,
                    proof.commit_phase_merkle_caps@,
                    cap_index,
                    b0.wire_count() as int + 1,
                    i as int,
                    first_eval,
                    old_eval,
                    sx_initial,
                    subgroup_x,
                ),
                has_domain_derivation(
                    self.appended_since(b0),
                    n_log as int,
                    b0.wire_count() as int + 1,
                    sx_initial,
                ),
                x_index_bits@.len() == n_log - sum_arities_prefix_view(arities, i as int),
                forall|j: int|
                    0 <= j < x_index_bits@.len() ==> (#[trigger] x_index_bits@[j]).target.index
                        == b0.wire_count() + 1 + sum_arities_prefix_view(arities, i as int) + j,
                bools_ok(x_index_bits@, self.wire_count()),
                target_ok(subgroup_x, self.wire_count()),
                target_ok(cap_index, self.wire_count()),
                ext_ok(old_eval, self.wire_count()),
                challenger.num_draws == old(challenger).num_draws + 1,
                challenger.observed@ == old(challenger).observed@,
            decreases num_rounds - i,
        {
            proof {
                let pre_sub = arities.subrange(0, i as int);
                let post_sub = arities.subrange(0, i + 1);
                assert(post_sub.drop_last() =~= pre_sub);
                assert(post_sub.last() == arities[i as int]);
                crate::config::lemma_sum_arities_prefix(arities, i + 1);
                crate::config::lemma_sum_arities_nonneg(pre_sub);
                assert(arities.subrange(0, arities.len() as int) =~= arities);
            }
            let arity_bits = params.reduction_arity_bits[i];
            let step = &round_proof.steps[i];
            let coset_index_bits = subrange_vec(&x_index_bits, arity_bits, x_index_bits.len());
            let within_bits = subrange_vec(&x_index_bits, 0, arity_bits);
            let ghost q0 = *self;
            let ghost sx_prev = subgroup_x;
            let ghost old_eval_prev = old_eval;
            let ghost bits_base = b0.wire_count() as int + 1 + sum_arities_prefix_view(
                arities,
                i as int,
            );
            proof {
                assert(exts_ok(step.evals@, b0.wire_count()));
                assert forall|k: int| 0 <= k < step.evals@.len() implies ext_ok(
                    #[trigger] step.evals@[k],
                    self.wire_count(),
                ) by {
                    assert(ext_ok(step.evals@[k], b0.wire_count()));
                }
                assert(crate::fri_proof::cap_ok(
                    proof.commit_phase_merkle_caps@[i as int],
                    params.config.cap_height as int,
                    b0.wire_count(),
                ));
                assert forall|k: int| 0 <= k
                    < step.merkle_proof.siblings@.len() implies crate::target::hash_ok(
                    #[trigger] step.merkle_proof.siblings@[k],
                    self.wire_count(),
                ) by {
                    assert(crate::target::hash_ok(
                        step.merkle_proof.siblings@[k],
                        b0.wire_count(),
                    ));
                }
                assert forall|k: int| 0 <= k
                    < proof.commit_phase_merkle_caps@[i as int].digests@.len() implies
                    crate::target::hash_ok(
                    #[trigger] proof.commit_phase_merkle_caps@[i as int].digests@[k],
                    self.wire_count(),
                ) by {
                    assert(crate::target::hash_ok(
                        proof.commit_phase_merkle_caps@[i as int].digests@[k],
                        b0.wire_count(),
                    ));
                }
                assert forall|t2: int| 0 <= t2 < within_bits@.len() implies (
                #[trigger] within_bits@[t2]).target.index == bits_base + t2 by {
                    assert(within_bits@[t2] == x_index_bits@[t2]);
                }
                assert forall|j: int| 0 <= j < coset_index_bits@.len() implies (
                #[trigger] coset_index_bits@[j]).target.index == bits_base + arity_bits + j by {
                    assert(coset_index_bits@[j] == x_index_bits@[arity_bits + j]);
                }
            }
            let folded = self.fri_query_round_step(
                step,
                betas[i],
                arity_bits,
                &within_bits,
                &coset_index_bits,
                &proof.commit_phase_merkle_caps[i],
                cap_index,
                old_eval,
                subgroup_x,
                Ghost(bits_base),
            );
            old_eval = folded.0;
            subgroup_x = folded.1;
            proof {
                CircuitBuilder::lemma_extends_transitive(b0, q0, *self);
                let t = self.appended_since(b0);
                let u = q0.appended_since(b0);
                let v = self.appended_since(q0);
                assert(t == u + v);
                lemma_counts_concat(u, v);
                assert(t[0] == u[0]);
                assert(t[1] == u[1]);
                assert(t[2] == u[2]);
                assert forall|j: int| 0 <= j < initial_merkle_caps@.len() implies has_cap_check(
                    t,
                    cap_index,
                    (#[trigger] initial_merkle_caps@[j]).digests@,
                ) by {
                    lemma_checks_extend(
                        u,
                        t,
                        cap_index,
                        initial_merkle_caps@[j].digests@,
                        round_proof.steps@,
                        betas@,
                        arities,
                        proof.commit_phase_merkle_caps@,
                        b0.wire_count() as int + 1,
                        0,
                        first_eval,
                        first_eval,
                        sx_initial,
                        sx_initial,
                        n_log as int,
                        sx_initial,
                    );
                }
                assert forall|i2: int| 0 <= i2 < i implies has_cap_check(
                    t,
                    cap_index,
                    (#[trigger] proof.commit_phase_merkle_caps@[i2]).digests@,
                ) by {
                    lemma_checks_extend(
                        u,
                        t,
                        cap_index,
                        proof.commit_phase_merkle_caps@[i2].digests@,
                        round_proof.steps@,
                        betas@,
                        arities,
                        proof.commit_phase_merkle_caps@,
                        b0.wire_count() as int + 1,
                        0,
                        first_eval,
                        first_eval,
                        sx_initial,
                        sx_initial,
                        n_log as int,
                        sx_initial,
                    );
                }
                lemma_checks_extend(
                    u,
                    t,
                    cap_index,
                    Seq::<crate::target::HashOutTarget>::empty(),
                    round_proof.steps@,
                    betas@,
                    arities,
                    proof.commit_phase_merkle_caps@,
                    b0.wire_count() as int + 1,
                    i as int,
                    first_eval,
                    old_eval_prev,
                    sx_initial,
                    sx_prev,
                    n_log as int,
                    sx_initial,
                );
                let k = u.len() as int;
                assert(forall|x: int| 0 <= x < v.len() ==> #[trigger] t[k + x] == v[x]);
                lemma_round_block_embed(
                    v,
                    t,
                    k,
                    round_proof.steps@[i as int],
                    betas@[i as int],
                    arity_bits as int,
                    bits_base,
                    proof.commit_phase_merkle_caps@[i as int].digests@,
                    cap_index,
                    old_eval_prev,
                    old_eval,
                    sx_prev,
                    subgroup_x,
                );
                assert(rounds_chain(
                    t,
                    round_proof.steps@,
                    betas@,
                    arities,
                    proof.commit_phase_merkle_caps@,
                    cap_index,
                    b0.wire_count() as int + 1,
                    i + 1,
                    first_eval,
                    old_eval,
                    sx_initial,
                    subgroup_x,
                )) by {
                    let pre_sub2 = arities.subrange(0, i as int);
                    assert(bits_base == b0.wire_count() as int + 1 + crate::config::sum_arities(
                        pre_sub2,
                    ));
                }
                assert(has_cap_check(
                    t,
                    cap_index,
                    proof.commit_phase_merkle_caps@[i as int].digests@,
                )) by {
                    let ab = arity_bits as int;
                    let sib = round_proof.steps@[i as int].merkle_proof.siblings@.len() as int;
                    assert(crate::merkle::is_merkle_check(
                        t,
                        k + 5 + ab,
                        crate::challenger::ext_elements(round_proof.steps@[i as int].evals@),
                        wire_bits(bits_base + ab, sib),
                        cap_index,
                        proof.commit_phase_merkle_caps@[i as int].digests@,
                        round_proof.steps@[i as int].merkle_proof.siblings@,
                    ));
                    assert(t[k + 5 + ab + sib + 1] matches Constraint::CapSelect {
                        index,
                        claimed,
                        cap,
                    } && index == cap_index && cap@
                        == proof.commit_phase_merkle_caps@[i as int].digests@);
                }
            }
            x_index_bits = coset_index_bits;
            i = i + 1;
        }
        let ghost f0 = *self;
        proof {
            assert forall|k: int| 0 <= k < proof.final_poly@.len() implies ext_ok(
                #[trigger] proof.final_poly@[k],
                self.wire_count(),
            ) by {
                assert(ext_ok(proof.final_poly@[k], b0.wire_count()));
            }
        }
        let eval = self.eval_poly_scalar(&proof.final_poly, subgroup_x);
        let ghost f1 = *self;
        self.connect_extension(eval, old_eval);
        proof {
            CircuitBuilder::lemma_extends_transitive(f0, f1, *self);
            CircuitBuilder::lemma_extends_transitive(b0, f0, *self);
            let sf = self.appended_since(f0);
            let s1 = f1.appended_since(f0);
            let s2 = self.appended_since(f1);
            assert(s2 =~= seq![Constraint::ConnectExt { a: eval, b: old_eval }]);
            lemma_arithmetic_only_counts(s1);
            assert(count_connects(s2) == 1 && count_challenges(s2) == 0 && count_cap_selects(s2)
                == 0 && count_leading_zeros(s2) == 0 && count_decompositions(s2) == 0) by {
                assert(s2.len() == 1 && s2[0] is ConnectExt);
                assert(s2.last() == s2[0]);
                assert(s2.drop_last() =~= Seq::<Constraint>::empty());
                assert(count_challenges(Seq::<Constraint>::empty()) == 0);
                assert(count_decompositions(Seq::<Constraint>::empty()) == 0);
                assert(count_cap_selects(Seq::<Constraint>::empty()) == 0);
                assert(count_connects(Seq::<Constraint>::empty()) == 0);
                assert(count_leading_zeros(Seq::<Constraint>::empty()) == 0);
            }
            lemma_counts_concat(s1, s2);
            lemma_counts_concat(f0.appended_since(b0), sf);
            assert(self.appended_since(b0)[0] == f0.appended_since(b0)[0]);
            assert(self.appended_since(b0)[1] == f0.appended_since(b0)[1]);
            assert(self.appended_since(b0).last() == s2[0]) by {
                assert(self.appended_since(b0) == f0.appended_since(b0) + (s1 + s2));
            }
            let t = self.appended_since(b0);
            let u = f0.appended_since(b0);
            assert(t[2] == u[2]);
            assert forall|j: int| 0 <= j < initial_merkle_caps@.len() implies has_cap_check(
                t,
                cap_index,
                (#[trigger] initial_merkle_caps@[j]).digests@,
            ) by {
                lemma_checks_extend(
                    u,
                    t,
                    cap_index,
                    initial_merkle_caps@[j].digests@,
                    round_proof.steps@,
                    betas@,
                    arities,
                    proof.commit_phase_merkle_caps@,
                    b0.wire_count() as int + 1,
                    0,
                    first_eval,
                    first_eval,
                    sx_initial,
                    sx_initial,
                    n_log as int,
                    sx_initial,
                );
            }
            assert forall|i2: int| 0 <= i2 < params.reduction_arity_bits@.len() implies
                has_cap_check(
                t,
                cap_index,
                (#[trigger] proof.commit_phase_merkle_caps@[i2]).digests@,
            ) by {
                lemma_checks_extend(
                    u,
                    t,
                    cap_index,
                    proof.commit_phase_merkle_caps@[i2].digests@,
                    round_proof.steps@,
                    betas@,
                    arities,
                    proof.commit_phase_merkle_caps@,
                    b0.wire_count() as int + 1,
                    0,
                    first_eval,
                    first_eval,
                    sx_initial,
                    sx_initial,
                    n_log as int,
                    sx_initial,
                );
            }
            lemma_checks_extend(
                u,
                t,
                cap_index,
                Seq::<crate::target::HashOutTarget>::empty(),
                round_proof.steps@,
                betas@,
                arities,
                proof.commit_phase_merkle_caps@,
                b0.wire_count() as int + 1,
                arities.len() as int,
                first_eval,
                old_eval,
                sx_initial,
                subgroup_x,
                n_log as int,
                sx_initial,
            );
            assert(rounds_chain(
                t,
                round_proof.steps@,
                betas@,
                arities,
                proof.commit_phase_merkle_caps@,
                cap_index,
                b0.wire_count() as int + 1,
                arities.len() as int,
                first_eval,
                old_eval,
                sx_initial,
                subgroup_x,
            ));
            assert(has_domain_derivation(
                t,
                n_log as int,
                b0.wire_count() as int + 1,
                sx_initial,
            ));
            let fpl = proof.final_poly@.len() as int;
            assert(t.subrange(t.len() - 4 - fpl, t.len() - 1) =~= s1) by {
                assert(t == u + (s1 + s2));
                assert(s1.len() == 3 + fpl);
            }
            assert(t[t.len() - 4 - fpl] == s1[0]);
            assert(is_fresh_reduction(
                t.subrange(t.len() - 4 - fpl, t.len() - 1).skip(1),
                ExtTarget { c0: subgroup_x, c1: const_out(t[t.len() - 4 - fpl]) },
                proof.final_poly@,
                eval,
            ));
            assert(final_poly_check(t, proof.final_poly@, eval, subgroup_x));
            assert(connect_lhs(t.last()) == eval);
            assert(final_poly_check(t, proof.final_poly@, connect_lhs(t.last()), subgroup_x));

        }
    }
}

/// The prefix sum of a folding schedule, as seen by the loop bookkeeping.
pub open spec fn sum_arities_prefix_view(s: Seq<usize>, i: int) -> int {
    crate::config::sum_arities(s.subrange(0, i))
}

/// Challenges a whole verification draws from the transcript: the
/// combination challenge (one per extension coefficient), one folding
/// challenge per reduction round, the transcript digest for the
/// proof-of-work check, and one index per query.
pub open spec fn challenge_budget(params: FriParams) -> int {
    3 + 2 * params.reduction_arity_bits@.len() + params.config.num_query_rounds
}

impl CircuitBuilder {
    /// The top-level orchestrator.  It first decides the construction-time
    /// checks — parameter coherence (the folding schedule must shrink the
    /// domain exactly to the cap: violating it fails construction here,
    /// never silently), the non-canonical-index margin, gate capacity, the
    /// final polynomial's length, and the query-round count — and emits
    /// nothing if any fails.  It then commits the claimed openings, draws
    /// the combination challenge, commits each round's cap before drawing
    /// its folding challenge, commits the final polynomial, checks the
    /// proof of work, reduces every opening batch once, and runs one query
    /// round per configured query.
    pub fn verify_fri_proof(
        &mut self,
        instance: &FriInstanceInfoTarget,
        os: &FriOpeningsTarget,
        initial_merkle_caps: &Vec<MerkleCapTarget>,
        proof: &FriProofTarget,
        challenger: &mut RecursiveChallenger,
        params: &FriParams,
    ) -> (r: Result<(), FriError>)
        requires
            instance_ok(*instance, old(self).wire_count()),
            openings_ok(*os, *instance, old(self).wire_count()),
            initial_merkle_caps@.len() == instance.oracles@.len(),
            caps_ok(
                initial_merkle_caps@,
                params.config.cap_height as int,
                old(self).wire_count(),
            ),
            proof_ok(*proof, *instance, *params, old(self).wire_count()),
            old(self).config.fri_config == params.config,
            old(challenger).num_draws + challenge_budget(*params) <= usize::MAX,
        ensures
            !params.valid() ==> r == Err::<(), FriError>(FriError::InvalidParams),
            params.valid() && !noncanonical_indices_ok(params.config) ==> r == Err::<
                (),
                FriError,
            >(FriError::UnsoundNoncanonicalIndices),
            params.valid() && noncanonical_indices_ok(params.config) && !recursion_capacity_ok(
                old(self).config,
                *params,
            ) ==> (r matches Err(e) && (e is InsufficientWires || e is InsufficientRoutedWires)),
            params.valid() && noncanonical_indices_ok(params.config) && recursion_capacity_ok(
                old(self).config,
                *params,
            ) && proof.final_poly@.len() != params.final_poly_len_spec() ==> (r matches Err(e)
                && e is WrongFinalPolyLength),
            params.valid() && noncanonical_indices_ok(params.config) && recursion_capacity_ok(
                old(self).config,
                *params,
            ) && proof.final_poly@.len() == params.final_poly_len_spec()
                && proof.query_round_proofs@.len() != params.config.num_query_rounds ==> (r
                matches Err(e) && e is WrongQueryRoundCount),
            (r matches Ok(())) <==> (params.valid() && noncanonical_indices_ok(params.config)
                && recursion_capacity_ok(old(self).config, *params) && proof.final_poly@.len()
                == params.final_poly_len_spec() && proof.query_round_proofs@.len()
                == params.config.num_query_rounds),
            r matches Err(e) ==> *final(self) == *old(self) && *final(challenger) == *old(challenger),
            r matches Ok(()) ==> {
                let appended = final(self).appended_since(*old(self));
                let rounds = params.reduction_arity_bits@.len() as int;
                let queries = params.config.num_query_rounds as int;
                &&& final(self).extends(*old(self))
                &&& count_challenges(appended) == 2 + 2 * rounds + queries
                &&& count_leading_zeros(appended) == 1
                &&& count_connects(appended) == queries
                &&& count_decompositions(appended) == queries
                &&& count_cap_selects(appended) == queries * (instance.oracles@.len() + rounds)
                &&& final(challenger).num_draws == old(challenger).num_draws + challenge_budget(
                    *params,
                )
                &&& final(challenger).observed@ == old(challenger).observed@
                    + crate::challenger::openings_elements(os.batches@)
                    + crate::challenger::all_caps_elements(proof.commit_phase_merkle_caps@)
                    + crate::challenger::ext_elements(proof.final_poly@)
                &&& has_challenge_from(
                    appended,
                    old(challenger).observed@ + crate::challenger::openings_elements(os.batches@),
                    old(challenger).num_draws as int,
                )
                &&& forall|i: int|
                    0 <= i < rounds ==> has_challenge_from(
                        appended,
                        old(challenger).observed@ + crate::challenger::openings_elements(
                            os.batches@,
                        ) + crate::challenger::all_caps_elements(
                            #[trigger] proof.commit_phase_merkle_caps@.subrange(0, i + 1),
                        ),
                        old(challenger).num_draws + 2 + 2 * i,
                    )
                &&& has_transcript_hash_from(
                    appended,
                    final(challenger).observed@,
                    old(challenger).num_draws + 2 + 2 * rounds,
                )
                &&& forall|q: int|
                    0 <= q < queries ==> #[trigger] has_challenge_from(
                        appended,
                        final(challenger).observed@,
                        old(challenger).num_draws + 3 + 2 * rounds + q,
                    )
                &&& exists|outs: Seq<ExtTarget>, a: int, b2: int|
                    0 <= a <= b2 <= appended.len() && #[trigger] is_openings_reduction(
                        appended.subrange(a, b2),
                        ExtTarget {
                            c0: Target { index: old(self).wire_count() as usize },
                            c1: Target { index: (old(self).wire_count() + 1) as usize },
                        },
                        os.batches@,
                        outs,
                    )
            },
    {
        let ghost b0 = *self;
        let ghost ch0 = *challenger;
        if !params.is_valid() {
            return Err(FriError::InvalidParams);
        }
        if !check_noncanonical_indices(&params.config) {
            return Err(FriError::UnsoundNoncanonicalIndices);
        }
        match params.max_arity_bits() {
            Some(max_arity_bits) => {
                proof {
                    lemma_max_arity_properties(params.reduction_arity_bits@);
                    assert(max_arity_bits as int == max_arity_spec(params.reduction_arity_bits@));
                }
                match self.check_recursion_config(max_arity_bits) {
                    Ok(()) => {
                    },
                    Err(e) => {
                        return Err(e);
                    },
                }
            },
            None => {
            },
        }
        let expected_len = params.final_poly_len();
        if proof.final_poly.len() != expected_len {
            return Err(
                FriError::WrongFinalPolyLength { expected: expected_len, got: proof.final_poly.len() },
            );
        }
        if proof.query_round_proofs.len() != params.config.num_query_rounds {
            return Err(
                FriError::WrongQueryRoundCount {
                    expected: params.config.num_query_rounds,
                    got: proof.query_round_proofs.len(),
                },
            );
        }
        let ghost rounds = params.reduction_arity_bits@.len() as int;
        let ghost queries = params.config.num_query_rounds as int;
        challenger.observe_openings(os);
        let alpha = challenger.get_extension_challenge(self);
        let ghost c_alpha = *self;
        proof {
            let s = c_alpha.appended_since(b0);
            assert(s.len() == 2 && s[0] is Challenge && s[1] is Challenge);
            let s1 = s.drop_last();
            let s0 = s1.drop_last();
            assert(s0 =~= Seq::<Constraint>::empty());
            assert(s.last() == s[1]);
            assert(s1[0] == s[0] && s1.last() == s[0]);
            assert(count_challenges(s0) == 0 && count_decompositions(s0) == 0 && count_cap_selects(
                s0,
            ) == 0 && count_connects(s0) == 0 && count_leading_zeros(s0) == 0);
            assert(count_challenges(s1) == count_challenges(s0) + 1);
            assert(count_challenges(s) == count_challenges(s1) + 1);
            assert(count_decompositions(s) == count_decompositions(s1)
                && count_decompositions(s1) == count_decompositions(s0));
            assert(count_cap_selects(s) == count_cap_selects(s1) && count_cap_selects(s1)
                == count_cap_selects(s0));
            assert(count_connects(s) == count_connects(s1) && count_connects(s1) == count_connects(
                s0,
            ));
            assert(count_leading_zeros(s) == count_leading_zeros(s1) && count_leading_zeros(s1)
                == count_leading_zeros(s0));
            assert(has_challenge_from(
                s,
                ch0.observed@ + crate::challenger::openings_elements(os.batches@),
                ch0.num_draws as int,
            )) by {
                assert(s[0] is Challenge);
            }
        }
        let mut betas: Vec<ExtTarget> = Vec::new();
        let num_caps = proof.commit_phase_merkle_caps.len();
        let mut ri: usize = 0;
        while ri < num_caps
            invariant
                ri <= num_caps,
                num_caps == proof.commit_phase_merkle_caps@.len(),
                num_caps == params.reduction_arity_bits@.len(),
                proof_ok(*proof, *instance, *params, b0.wire_count()),
                challenger.num_draws == ch0.num_draws + 2 + 2 * ri,
                ch0.num_draws + challenge_budget(*params) <= usize::MAX,
                challenger.observed@ == ch0.observed@ + crate::challenger::openings_elements(
                    os.batches@,
                ) + crate::challenger::all_caps_elements(
                    proof.commit_phase_merkle_caps@.subrange(0, ri as int),
                ),
                self.extends(b0),
                count_challenges(self.appended_since(b0)) == 2 + 2 * ri,
                count_decompositions(self.appended_since(b0)) == 0,
                count_cap_selects(self.appended_since(b0)) == 0,
                count_connects(self.appended_since(b0)) == 0,
                count_leading_zeros(self.appended_since(b0)) == 0,
                betas@.len() == ri,
                exts_ok(betas@, self.wire_count()),
                ext_ok(alpha, self.wire_count()),
                has_challenge_from(
                    self.appended_since(b0),
                    ch0.observed@ + crate::challenger::openings_elements(os.batches@),
                    ch0.num_draws as int,
                ),
                forall|i2: int|
                    0 <= i2 < ri ==> has_challenge_from(
                        self.appended_since(b0),
                        ch0.observed@ + crate::challenger::openings_elements(os.batches@)
                            + crate::challenger::all_caps_elements(
                            #[trigger] proof.commit_phase_merkle_caps@.subrange(0, i2 + 1),
                        ),
                        ch0.num_draws + 2 + 2 * i2,
                    ),
            decreases num_caps - ri,
        {
            proof {
                let pre = proof.commit_phase_merkle_caps@.subrange(0, ri as int);
                let post = proof.commit_phase_merkle_caps@.subrange(0, ri + 1);
                assert(post.drop_last() =~= pre);
                assert(post.last() == proof.commit_phase_merkle_caps@[ri as int]);
            }
            challenger.observe_cap(&proof.commit_phase_merkle_caps[ri]);
            let ghost pre_b = *self;
            let beta = challenger.get_extension_challenge(self);
            betas.push(beta);
            proof {
                CircuitBuilder::lemma_extends_transitive(b0, pre_b, *self);
                let v = self.appended_since(pre_b);
                assert(v.len() == 2 && v[0] is Challenge && v[1] is Challenge);
                let v1 = v.drop_last();
                let v0 = v1.drop_last();
                assert(v0 =~= Seq::<Constraint>::empty());
                assert(v.last() == v[1]);
                assert(v1[0] == v[0] && v1.last() == v[0]);
                assert(count_challenges(v0) == 0 && count_decompositions(v0) == 0
                    && count_cap_selects(v0) == 0 && count_connects(v0) == 0
                    && count_leading_zeros(v0) == 0);
                assert(count_challenges(v1) == count_challenges(v0) + 1);
                assert(count_challenges(v) == count_challenges(v1) + 1);
                assert(count_decompositions(v) == count_decompositions(v1)
                    && count_decompositions(v1) == count_decompositions(v0));
                assert(count_cap_selects(v) == count_cap_selects(v1) && count_cap_selects(v1)
                    == count_cap_selects(v0));
                assert(count_connects(v) == count_connects(v1) && count_connects(v1)
                    == count_connects(v0));
                assert(count_leading_zeros(v) == count_leading_zeros(v1) && count_leading_zeros(
                    v1,
                ) == count_leading_zeros(v0));
                lemma_counts_concat(pre_b.appended_since(b0), v);
                let tb = self.appended_since(b0);
                let ub = pre_b.appended_since(b0);
                lemma_draws_extend(
                    ub,
                    tb,
                    ch0.observed@ + crate::challenger::openings_elements(os.batches@),
                    ch0.num_draws as int,
                );
                assert forall|i2: int| 0 <= i2 < ri + 1 implies has_challenge_from(
                    tb,
                    ch0.observed@ + crate::challenger::openings_elements(os.batches@)
                        + crate::challenger::all_caps_elements(
                        #[trigger] proof.commit_phase_merkle_caps@.subrange(0, i2 + 1),
                    ),
                    ch0.num_draws + 2 + 2 * i2,
                ) by {
                    if i2 < ri {
                        lemma_draws_extend(
                            ub,
                            tb,
                            ch0.observed@ + crate::challenger::openings_elements(os.batches@)
                                + crate::challenger::all_caps_elements(
                                proof.commit_phase_merkle_caps@.subrange(0, i2 + 1),
                            ),
                            ch0.num_draws + 2 + 2 * i2,
                        );
                    } else {
                        assert(tb[ub.len() as int] == v[0]);
                        assert(ch0.observed@ + crate::challenger::openings_elements(os.batches@)
                            + crate::challenger::all_caps_elements(
                            proof.commit_phase_merkle_caps@.subrange(0, ri + 1),
                        ) =~= challenger.observed@);
                        assert(v[0] is Challenge);
                    }
                }
                assert forall|k: int| 0 <= k < betas@.len() implies ext_ok(
                    #[trigger] betas@[k],
                    self.wire_count(),
                ) by {
                    if k < betas@.len() - 1 {
                        assert(ext_ok(betas@[k], pre_b.wire_count()));
                    }
                }
            }
            ri = ri + 1;
        }
        proof {
            assert(proof.commit_phase_merkle_caps@.subrange(0, num_caps as int)
                =~= proof.commit_phase_merkle_caps@);
        }
        challenger.observe_extension_elements(&proof.final_poly);
        let ghost c_pow0 = *self;
        self.fri_verify_proof_of_work(proof, challenger, &params.config);
        let ghost c_pow = *self;
        proof {
            CircuitBuilder::lemma_extends_transitive(b0, c_pow0, c_pow);
            lemma_counts_concat(c_pow0.appended_since(b0), c_pow.appended_since(c_pow0));
        }
        proof {
            crate::fri_proof::lemma_openings_ok_monotone(
                *os,
                *instance,
                b0.wire_count(),
                c_pow.wire_count(),
            );
            assert(ext_ok(alpha, self.wire_count()));
        }
        let precomputed = PrecomputedReducedOpeningsTarget::from_os_and_alpha(os, alpha, self);
        let ghost c_pre = *self;
        proof {
            CircuitBuilder::lemma_extends_transitive(b0, c_pow, c_pre);
            lemma_arithmetic_only_counts(c_pre.appended_since(c_pow));
            lemma_counts_concat(c_pow.appended_since(b0), c_pre.appended_since(c_pow));
            let hist_open = ch0.observed@ + crate::challenger::openings_elements(os.batches@);
            let full_hist = challenger.observed@;
            let tb = c_pre.appended_since(b0);
            let ub = c_pow0.appended_since(b0);
            let um = c_pow.appended_since(b0);
            lemma_draws_extend(ub, um, hist_open, ch0.num_draws as int);
            lemma_draws_extend(um, tb, hist_open, ch0.num_draws as int);
            assert forall|i2: int| 0 <= i2 < proof.commit_phase_merkle_caps@.len() implies
                has_challenge_from(
                tb,
                hist_open + crate::challenger::all_caps_elements(
                    #[trigger] proof.commit_phase_merkle_caps@.subrange(0, i2 + 1),
                ),
                ch0.num_draws + 2 + 2 * i2,
            ) by {
                let h = hist_open + crate::challenger::all_caps_elements(
                    proof.commit_phase_merkle_caps@.subrange(0, i2 + 1),
                );
                lemma_draws_extend(ub, um, h, ch0.num_draws + 2 + 2 * i2);
                lemma_draws_extend(um, tb, h, ch0.num_draws + 2 + 2 * i2);
            }
            assert(has_transcript_hash_from(
                um,
                full_hist,
                ch0.num_draws + 2 + 2 * proof.commit_phase_merkle_caps@.len(),
            )) by {
                assert(um[ub.len() as int] == c_pow.appended_since(c_pow0)[0]);
                assert(c_pow.appended_since(c_pow0)[0] is TranscriptHash);
            }
            lemma_draws_extend(
                um,
                tb,
                full_hist,
                ch0.num_draws + 2 + 2 * proof.commit_phase_merkle_caps@.len(),
            );
        }
        let n = params.lde_size();
        let num_queries = proof.query_round_proofs.len();
        let mut q: usize = 0;
        while q < num_queries
            invariant
                q <= num_queries,
                num_queries == proof.query_round_proofs@.len(),
                num_queries == params.config.num_query_rounds,
                params.valid(),
                noncanonical_indices_ok(params.config),
                n as int == pow2(params.n_log() as nat) as int,
                instance_ok(*instance, b0.wire_count()),
                initial_merkle_caps@.len() == instance.oracles@.len(),
                caps_ok(initial_merkle_caps@, params.config.cap_height as int, b0.wire_count()),
                proof_ok(*proof, *instance, *params, b0.wire_count()),
                betas@.len() == params.reduction_arity_bits@.len(),
                exts_ok(betas@, c_pre.wire_count()),
                ext_ok(alpha, c_pre.wire_count()),
                precomputed.reduced_openings_at_point@.len() == instance.batches@.len(),
                exts_ok(precomputed.reduced_openings_at_point@, c_pre.wire_count()),
                c_pre.extends(b0),
                self.extends(c_pre),
                count_challenges(c_pre.appended_since(b0)) == 2 + 2 * rounds,
                count_leading_zeros(c_pre.appended_since(b0)) == 1,
                count_connects(c_pre.appended_since(b0)) == 0,
                count_decompositions(c_pre.appended_since(b0)) == 0,
                count_cap_selects(c_pre.appended_since(b0)) == 0,
                rounds == params.reduction_arity_bits@.len() as int,
                count_challenges(self.appended_since(c_pre)) == q,
                count_decompositions(self.appended_since(c_pre)) == q,
                count_connects(self.appended_since(c_pre)) == q,
                count_leading_zeros(self.appended_since(c_pre)) == 0,
                count_cap_selects(self.appended_since(c_pre)) == q * (
                instance.oracles@.len() + rounds),
                challenger.num_draws == ch0.num_draws + 2 + 2 * rounds + 1 + q,
                ch0.num_draws + challenge_budget(*params) <= usize::MAX,
                challenger.observed@ == ch0.observed@ + crate::challenger::openings_elements(
                    os.batches@,
                ) + crate::challenger::all_caps_elements(proof.commit_phase_merkle_caps@)
                    + crate::challenger::ext_elements(proof.final_poly@),
                has_challenge_from(
                    self.appended_since(b0),
                    ch0.observed@ + crate::challenger::openings_elements(os.batches@),
                    ch0.num_draws as int,
                ),
                forall|i2: int|
                    0 <= i2 < rounds ==> has_challenge_from(
                        self.appended_since(b0),
                        ch0.observed@ + crate::challenger::openings_elements(os.batches@)
                            + crate::challenger::all_caps_elements(
                            #[trigger] proof.commit_phase_merkle_caps@.subrange(0, i2 + 1),
                        ),
                        ch0.num_draws + 2 + 2 * i2,
                    ),
                has_transcript_hash_from(
                    self.appended_since(b0),
                    challenger.observed@,
                    ch0.num_draws + 2 + 2 * rounds,
                ),
                forall|q2: int|
                    0 <= q2 < q ==> #[trigger] has_challenge_from(
                        self.appended_since(b0),
                        challenger.observed@,
                        ch0.num_draws + 3 + 2 * rounds + q2,
                    ),
            decreases num_queries - q,
        {
            let ghost pre_q = *self;
            proof {
                crate::fri_proof::lemma_instance_ok_monotone(
                    *instance,
                    b0.wire_count(),
                    pre_q.wire_count(),
                );
                crate::fri_proof::lemma_query_round_ok_monotone(
                    proof.query_round_proofs@[q as int],
                    *instance,
                    *params,
                    b0.wire_count(),
                    pre_q.wire_count(),
                );
                crate::fri_proof::lemma_caps_ok_monotone(
                    initial_merkle_caps@,
                    params.config.cap_height as int,
                    b0.wire_count(),
                    pre_q.wire_count(),
                );
                crate::fri_proof::lemma_proof_ok_monotone(
                    *proof,
                    *instance,
                    *params,
                    b0.wire_count(),
                    pre_q.wire_count(),
                );
                assert forall|k: int| 0 <= k < betas@.len() implies ext_ok(
                    #[trigger] betas@[k],
                    pre_q.wire_count(),
                ) by {
                    assert(ext_ok(betas@[k], c_pre.wire_count()));
                }
                assert forall|k: int| 0 <= k
                    < precomputed.reduced_openings_at_point@.len() implies ext_ok(
                    #[trigger] precomputed.reduced_openings_at_point@[k],
                    pre_q.wire_count(),
                ) by {
                    assert(ext_ok(precomputed.reduced_openings_at_point@[k], c_pre.wire_count()));
                }
                assert(ext_ok(alpha, pre_q.wire_count()));
            }
            self.fri_verifier_query_round(
                instance,
                alpha,
                &precomputed,
                initial_merkle_caps,
                proof,
                challenger,
                n,
                &betas,
                &proof.query_round_proofs[q],
                params,
            );
            proof {
                CircuitBuilder::lemma_extends_transitive(c_pre, pre_q, *self);
                lemma_counts_concat(pre_q.appended_since(c_pre), self.appended_since(pre_q));
                assert((q + 1) * (instance.oracles@.len() + rounds) == q * (
                instance.oracles@.len() + rounds) + (instance.oracles@.len() + rounds))
                    by (nonlinear_arith);
                CircuitBuilder::lemma_extends_transitive(b0, pre_q, *self);
                let hist_open = ch0.observed@ + crate::challenger::openings_elements(os.batches@);
                let full_hist = challenger.observed@;
                let tb = self.appended_since(b0);
                let ub = pre_q.appended_since(b0);
                lemma_draws_extend(ub, tb, hist_open, ch0.num_draws as int);
                lemma_draws_extend(ub, tb, full_hist, ch0.num_draws + 2 + 2 * rounds);
                assert forall|i2: int| 0 <= i2 < rounds implies has_challenge_from(
                    tb,
                    hist_open + crate::challenger::all_caps_elements(
                        #[trigger] proof.commit_phase_merkle_caps@.subrange(0, i2 + 1),
                    ),
                    ch0.num_draws + 2 + 2 * i2,
                ) by {
                    lemma_draws_extend(
                        ub,
                        tb,
                        hist_open + crate::challenger::all_caps_elements(
                            proof.commit_phase_merkle_caps@.subrange(0, i2 + 1),
                        ),
                        ch0.num_draws + 2 + 2 * i2,
                    );
                }
                assert forall|q2: int| 0 <= q2 < q + 1 implies #[trigger] has_challenge_from(
                    tb,
                    full_hist,
                    ch0.num_draws + 3 + 2 * rounds + q2,
                ) by {
                    if q2 < q {
                        lemma_draws_extend(ub, tb, full_hist, ch0.num_draws + 3 + 2 * rounds + q2);
                    } else {
                        assert(tb[ub.len() as int] == self.appended_since(pre_q)[0]);
                        assert(self.appended_since(pre_q)[0] is Challenge);
                    }
                }
            }
            q = q + 1;
        }
        proof {
            CircuitBuilder::lemma_extends_transitive(b0, c_pre, *self);
            lemma_counts_concat(c_pre.appended_since(b0), self.appended_since(c_pre));
            let t = self.appended_since(b0);
            let a = c_pow.appended_since(b0).len() as int;
            let b2 = c_pre.appended_since(b0).len() as int;
            assert(t.subrange(a, b2) =~= c_pre.appended_since(c_pow)) by {
                assert(forall|x: int| 0 <= x < b2 ==> #[trigger] t[x] == c_pre.appended_since(
                    b0,
                )[x]);
                assert(forall|x: int| 0 <= x < b2 - a ==> #[trigger] c_pre.appended_since(b0)[a
                    + x] == c_pre.appended_since(c_pow)[x]);
            }
            assert(alpha == (ExtTarget {
                c0: Target { index: b0.wire_count() as usize },
                c1: Target { index: (b0.wire_count() + 1) as usize },
            }));
            assert(is_openings_reduction(
                t.subrange(a, b2),
                alpha,
                os.batches@,
                precomputed.reduced_openings_at_point@,
            ));
        }
        Ok(())
    }
}

/// The claimed coset evaluations reordered into bit-reversed position: the
/// entry at `i` comes from position `rev(i)`.
pub fn reverse_index_bits_ext(v: &Vec<ExtTarget>, bits: usize) -> (r: Vec<ExtTarget>)
    requires
        bits <= crate::config::MAX_SIZE_BITS,
        v@.len() == pow2(bits as nat),
    ensures
        r@.len() == v@.len(),
        forall|i: int| 0 <= i < r@.len() ==> r@[i] == v@[rev_bits(i, bits as nat)],
{
    let mut r: Vec<ExtTarget> = Vec::new();
    let mut i: usize = 0;
    while i < v.len()
        invariant
            i <= v@.len(),
            bits <= 30,
            v@.len() == pow2(bits as nat),
            r@.len() == i,
            forall|j: int| 0 <= j < i ==> r@[j] == v@[rev_bits(j, bits as nat)],
        decreases v@.len() - i,
    {
        let k = reverse_bits(i, bits);
        proof {
            crate::bits::lemma_rev_bits_bound(i as int, bits as nat);
        }
        let e = v[k];
        r.push(e);
        i = i + 1;
    }
    r
}

/// For each opening batch, the `alpha`-weighted reduction of its claimed
/// values: computed once per verification and shared across every query
/// round, since it depends only on the claimed openings and `alpha`.
pub struct PrecomputedReducedOpeningsTarget {
    pub reduced_openings_at_point: Vec<ExtTarget>,
}

impl PrecomputedReducedOpeningsTarget {
    /// Reduces every batch of the claimed openings with a fresh ascending
    /// run of powers of `alpha`: entry `b` of the result is the out of a
    /// fresh Horner chain over batch `b`'s values, the chains standing in
    /// batch order ([`is_openings_reduction`]).
    pub fn from_os_and_alpha(
        openings: &FriOpeningsTarget,
        alpha: ExtTarget,
        builder: &mut CircuitBuilder,
    ) -> (r: Self)
        requires
            ext_ok(alpha, old(builder).wire_count()),
            forall|b: int|
                0 <= b < openings.batches@.len() ==> exts_ok(
                    (#[trigger] openings.batches@[b]).values@,
                    old(builder).wire_count(),
                ),
        ensures
            final(builder).extends(*old(builder)),
            arithmetic_only(final(builder).appended_since(*old(builder))),
            is_openings_reduction(
                final(builder).appended_since(*old(builder)),
                alpha,
                openings.batches@,
                r.reduced_openings_at_point@,
            ),
            r.reduced_openings_at_point@.len() == openings.batches@.len(),
            exts_ok(r.reduced_openings_at_point@, final(builder).wire_count()),
            final(builder).high_degree_interp_gates == old(builder).high_degree_interp_gates,
            final(builder).low_degree_interp_gates == old(builder).low_degree_interp_gates,
    {
        let ghost b0 = *builder;
        let mut reduced: Vec<ExtTarget> = Vec::new();
        let mut i: usize = 0;
        proof {
            assert(openings.batches@.subrange(0, 0) =~= Seq::<FriOpeningBatchTarget>::empty());
        }
        while i < openings.batches.len()
            invariant
                i <= openings.batches@.len(),
                ext_ok(alpha, b0.wire_count()),
                forall|b: int|
                    0 <= b < openings.batches@.len() ==> exts_ok(
                        (#[trigger] openings.batches@[b]).values@,
                        b0.wire_count(),
                    ),
                builder.extends(b0),
                arithmetic_only(builder.appended_since(b0)),
                is_openings_reduction(
                    builder.appended_since(b0),
                    alpha,
                    openings.batches@.subrange(0, i as int),
                    reduced@,
                ),
                reduced@.len() == i,
                exts_ok(reduced@, builder.wire_count()),
                builder.high_degree_interp_gates == b0.high_degree_interp_gates,
                builder.low_degree_interp_gates == b0.low_degree_interp_gates,
            decreases openings.batches@.len() - i,
        {
            let mut alpha_f = ReducingFactorTarget::new(alpha);
            let ghost pre = *builder;
            let batch_len = openings.batches[i].values.len();
            proof {
                assert(openings.batches@[i as int].values@.len() == batch_len as int);
            }
            let v = alpha_f.reduce(&openings.batches[i].values, builder);
            let ghost red_pre = reduced@;
            reduced.push(v);
            proof {
                CircuitBuilder::lemma_extends_transitive(b0, pre, *builder);
                let t = builder.appended_since(b0);
                let u = pre.appended_since(b0);
                let w = builder.appended_since(pre);
                assert(t == u + w);
                let m = openings.batches@[i as int].values@.len() as int;
                assert(w.len() == 2 + m);
                assert(t.take(t.len() - (2 + m)) =~= u);
                assert(t.skip(t.len() - (2 + m)) =~= w);
                let bs = openings.batches@.subrange(0, i + 1);
                assert(bs.drop_last() =~= openings.batches@.subrange(0, i as int));
                assert(bs.last() == openings.batches@[i as int]);
                assert(reduced@.drop_last() =~= red_pre);
                assert(reduced@.last() == v);
                assert(is_openings_reduction(t, alpha, bs, reduced@));
                assert(arithmetic_only(t)) by {
                    assert(forall|k: int| 0 <= k < u.len() ==> t[k] == u[k]);
                    assert(forall|k: int| u.len() <= k < t.len() ==> t[k] == w[k - u.len()]);
                }
                assert forall|k: int| 0 <= k < reduced@.len() implies ext_ok(
                    #[trigger] reduced@[k],
                    builder.wire_count(),
                ) by {
                    if k < reduced@.len() - 1 {
                        assert(ext_ok(reduced@[k], pre.wire_count()));
                    }
                }
            }
            i = i + 1;
        }
        proof {
            assert(openings.batches@.subrange(0, openings.batches@.len() as int)
                =~= openings.batches@);
        }
        PrecomputedReducedOpeningsTarget { reduced_openings_at_point: reduced }
    }
}

} // verus!
