//! Configuration of the protocol and of the circuit it is emitted into,
//! together with the construction-time coherence checks.
//!
//! These checks are fatal: a violation means a misconfigured system, not a
//! dishonest proof, and is reported before any constraint is emitted.

use vstd::arithmetic::power2::{lemma2_to64, lemma2_to64_rest, pow2};
use vstd::prelude::*;

use crate::bits::{pow2_u64, pow2_usize};
use crate::field::{FIELD_ORDER, TWO_ADICITY};

verus! {

/// Bound kept on every logarithmic size parameter, so that derived lengths
/// stay addressable.
pub const MAX_SIZE_BITS: usize = 30;

/// Protocol-level configuration, fixed once per proof-system instance.
#[derive(Clone, Copy, PartialEq, Eq, Structural, Debug)]
pub struct FriConfig {
    /// Log of the blow-up factor from natural degree to evaluation domain.
    pub rate_bits: usize,
    /// Log of the width of a Merkle cap.
    pub cap_height: usize,
    /// Leading zero bits a proof-of-work witness must reach.
    pub proof_of_work_bits: u32,
    /// Number of independently sampled query rounds.
    pub num_query_rounds: usize,
}

/// Per-instance parameters: the committed degree and the folding schedule.
#[derive(Clone, Debug)]
pub struct FriParams {
    pub config: FriConfig,
    /// Whether the initial oracles carry blinding salts.
    pub hiding: bool,
    /// Log of the committed polynomial's natural degree.
    pub degree_bits: usize,
    /// One log-arity per folding round, in folding order.
    pub reduction_arity_bits: Vec<usize>,
}

/// Capacity of the circuit the verifier is emitted into.
#[derive(Clone, Copy, PartialEq, Eq, Structural, Debug)]
pub struct CircuitConfig {
    pub num_wires: usize,
    pub num_routed_wires: usize,
    /// Size threshold selecting between the two interpolation strategies.
    pub max_quotient_degree_factor: usize,
    pub fri_config: FriConfig,
}

/// Sum of a folding schedule's log-arities.
pub open spec fn sum_arities(s: Seq<usize>) -> int
    decreases s.len(),
{
    if s.len() == 0 {
        0
    } else {
        sum_arities(s.drop_last()) + s.last()
    }
}

pub proof fn lemma_sum_arities_prefix(s: Seq<usize>, i: int)
    requires
        0 <= i <= s.len(),
    ensures
        sum_arities(s.subrange(0, i)) <= sum_arities(s),
    decreases s.len() - i,
{
    if i == s.len() {
        assert(s.subrange(0, i) =~= s);
    } else {
        lemma_sum_arities_prefix(s, i + 1);
        let t = s.subrange(0, i + 1);
        assert(t.drop_last() =~= s.subrange(0, i));
        assert(t.last() == s[i]);
        assert(sum_arities(s.subrange(0, i)) <= sum_arities(s.subrange(0, i + 1)));
    }
}

pub proof fn lemma_sum_arities_nonneg(s: Seq<usize>)
    ensures
        sum_arities(s) >= 0,
    decreases s.len(),
{
    if s.len() > 0 {
        lemma_sum_arities_nonneg(s.drop_last());
    }
}

impl FriParams {
    /// Internal coherence of the parameters.  The folding schedule must
    /// shrink the evaluation domain from the low-degree-extension size
    /// exactly down to the cap-sized residual:
    /// `sum(reduction_arity_bits) + cap_height == degree_bits + rate_bits`.
    pub open spec fn valid(self) -> bool {
        &&& self.config.rate_bits <= MAX_SIZE_BITS
        &&& self.degree_bits <= MAX_SIZE_BITS
        &&& self.degree_bits + self.config.rate_bits <= TWO_ADICITY
        &&& self.config.cap_height <= MAX_SIZE_BITS
        &&& self.config.proof_of_work_bits <= 64
        &&& forall|i: int|
            0 <= i < self.reduction_arity_bits@.len() ==> 1 <= #[trigger] self
                .reduction_arity_bits@[i] <= MAX_SIZE_BITS
        &&& sum_arities(self.reduction_arity_bits@) + self.config.cap_height == self.degree_bits
            + self.config.rate_bits
        &&& sum_arities(self.reduction_arity_bits@) <= self.degree_bits
    }

    /// Log of the size of the low-degree-extension domain.
    pub open spec fn n_log(self) -> int {
        self.degree_bits + self.config.rate_bits
    }

    /// Length of the final, explicitly sent polynomial.
    pub open spec fn final_poly_len_spec(self) -> int {
        pow2((self.degree_bits - sum_arities(self.reduction_arity_bits@)) as nat) as int
    }

    /// Decides [`FriParams::valid`] at construction time.
    pub fn is_valid(&self) -> (r: bool)
        ensures
            r == self.valid(),
    {
        if self.config.rate_bits > MAX_SIZE_BITS || self.degree_bits > MAX_SIZE_BITS {
            return false;
        }
        if self.degree_bits + self.config.rate_bits > TWO_ADICITY {
            return false;
        }
        if self.config.cap_height > MAX_SIZE_BITS {
            return false;
        }
        if self.config.proof_of_work_bits > 64 {
            return false;
        }
        let n = self.reduction_arity_bits.len();
        let mut sum: usize = 0;
        let mut i: usize = 0;
        while i < n
            invariant
                i <= n,
                n == self.reduction_arity_bits@.len(),
                sum == sum_arities(self.reduction_arity_bits@.subrange(0, i as int)),
                i <= sum,
                sum <= TWO_ADICITY,
                forall|j: int|
                    0 <= j < i ==> 1 <= #[trigger] self.reduction_arity_bits@[j] <= MAX_SIZE_BITS,
            decreases n - i,
        {
            let a = self.reduction_arity_bits[i];
            if a < 1 || a > MAX_SIZE_BITS {
                return false;
            }
            proof {
                let pre = self.reduction_arity_bits@.subrange(0, i as int);
                let post = self.reduction_arity_bits@.subrange(0, i + 1);
                assert(post.drop_last() =~= pre);
                assert(post.last() == self.reduction_arity_bits@[i as int]);
            }
            sum = sum + a;
            i = i + 1;
            if sum > TWO_ADICITY {
                proof {
                    lemma_sum_arities_prefix(self.reduction_arity_bits@, i as int);
                }
                return false;
            }
        }
        proof {
            assert(self.reduction_arity_bits@.subrange(0, n as int) =~= self.reduction_arity_bits@);
        }
        sum + self.config.cap_height == self.degree_bits + self.config.rate_bits && sum
            <= self.degree_bits
    }

    /// The largest log-arity of the schedule, if the schedule is nonempty.
    pub fn max_arity_bits(&self) -> (r: Option<usize>)
        ensures
            (r is None) <==> self.reduction_arity_bits@.len() == 0,
            r matches Some(m) ==> {
                &&& exists|i: int|
                    0 <= i < self.reduction_arity_bits@.len() && self.reduction_arity_bits@[i] == m
                &&& forall|i: int|
                    0 <= i < self.reduction_arity_bits@.len() ==> #[trigger] self
                        .reduction_arity_bits@[i] <= m
            },
    {
        if self.reduction_arity_bits.len() == 0 {
            return None;
        }
        let mut best: usize = self.reduction_arity_bits[0];
        let mut i: usize = 1;
        while i < self.reduction_arity_bits.len()
            invariant
                1 <= i <= self.reduction_arity_bits@.len(),
                exists|j: int| 0 <= j < i && self.reduction_arity_bits@[j] == best,
                forall|j: int| 0 <= j < i ==> #[trigger] self.reduction_arity_bits@[j] <= best,
            decreases self.reduction_arity_bits@.len() - i,
        {
            let a = self.reduction_arity_bits[i];
            if a > best {
                best = a;
            }
            i = i + 1;
        }
        Some(best)
    }

    /// Size of the low-degree-extension domain, `2^(degree_bits + rate_bits)`.
    pub fn lde_size(&self) -> (r: u64)
        requires
            self.valid(),
        ensures
            r as int == pow2(self.n_log() as nat) as int,
            r >= 1,
    {
        proof {
            vstd::arithmetic::power2::lemma_pow2_pos(self.n_log() as nat);
        }
        pow2_u64(self.degree_bits + self.config.rate_bits)
    }

    /// Length of the final polynomial's coefficient list.
    pub fn final_poly_len(&self) -> (r: usize)
        requires
            self.valid(),
        ensures
            r as int == self.final_poly_len_spec(),
    {
        let mut sum: usize = 0;
        let mut i: usize = 0;
        let n = self.reduction_arity_bits.len();
        proof {
            lemma_sum_arities_prefix(self.reduction_arity_bits@, 0);
        }
        while i < n
            invariant
                i <= n,
                n == self.reduction_arity_bits@.len(),
                self.valid(),
                sum == sum_arities(self.reduction_arity_bits@.subrange(0, i as int)),
                sum <= self.degree_bits,
            decreases n - i,
        {
            proof {
                let pre = self.reduction_arity_bits@.subrange(0, i as int);
                let post = self.reduction_arity_bits@.subrange(0, i + 1);
                assert(post.drop_last() =~= pre);
                assert(post.last() == self.reduction_arity_bits@[i as int]);
                lemma_sum_arities_prefix(self.reduction_arity_bits@, i + 1);
            }
            sum = sum + self.reduction_arity_bits[i];
            i = i + 1;
        }
        proof {
            assert(self.reduction_arity_bits@.subrange(0, n as int) =~= self.reduction_arity_bits@);
        }
        pow2_usize(self.degree_bits - sum)
    }
}

/// Count of 64-bit values that admit a second, non-canonical encoding: those
/// below `2^64 - FIELD_ORDER`.
pub const NUM_AMBIGUOUS_ELEMS: u64 = 4294967295;

/// The sanity condition on non-canonical index decompositions: the chance of
/// an ambiguous index, `(2^64 - FIELD_ORDER) / FIELD_ORDER`, must sit five
/// orders of magnitude below the per-query soundness error `2^-rate_bits`.
/// Written without fractions: `(2^64 - FIELD_ORDER) * 10^5 * 2^rate_bits <
/// FIELD_ORDER`.
pub open spec fn noncanonical_indices_ok(config: FriConfig) -> bool {
    (NUM_AMBIGUOUS_ELEMS as int) * 100000 * (pow2(config.rate_bits as nat) as int) < (
    FIELD_ORDER as int)
}

/// Decides [`noncanonical_indices_ok`] exactly, in integer arithmetic.
pub fn check_noncanonical_indices(config: &FriConfig) -> (r: bool)
    requires
        config.rate_bits <= MAX_SIZE_BITS,
    ensures
        r == noncanonical_indices_ok(*config),
{
    let rate_pow: u64 = pow2_u64(config.rate_bits);
    let lhs: u128 = (NUM_AMBIGUOUS_ELEMS as u128) * 100000u128 * (rate_pow as u128);
    proof {
        assert((NUM_AMBIGUOUS_ELEMS as int) * 100000 == 429496729500000int);
        vstd::arithmetic::power2::lemma_pow2_strictly_increases(config.rate_bits as nat, 31);
        lemma2_to64();
        assert(429496729500000int * (rate_pow as int) <= 429496729500000int * 0x80000000int)
            by (nonlinear_arith)
            requires
                0 <= rate_pow as int <= 0x80000000int,
        ;
    }
    lhs < (FIELD_ORDER as u128)
}

/// Routed wires the constrained-multiplexer capability needs for `2^bits`
/// entries: the index, the claimed value, and the entry list.
pub open spec fn random_access_routed_wires(bits: int) -> int {
    2 + pow2(bits as nat) as int
}

/// Total wires of the multiplexer: the routed wires plus one auxiliary wire
/// per index bit for the bit decomposition.
pub open spec fn random_access_wires(bits: int) -> int {
    random_access_routed_wires(bits) + bits
}

/// Routed wires either interpolation strategy needs for `2^arity_bits`
/// points: the coset shift, the evaluation values, the evaluation point and
/// the computed value (extension values take two wires each).
pub open spec fn interpolation_routed_wires(arity_bits: int) -> int {
    1 + 2 * (pow2(arity_bits as nat) as int) + 4
}

/// Total wires of the single-gate, higher-degree strategy: routed wires
/// plus the interpolant's coefficients.
pub open spec fn interpolation_high_wires(arity_bits: int) -> int {
    interpolation_routed_wires(arity_bits) + 2 * (pow2(arity_bits as nat) as int)
}

/// Total wires of the lower-degree strategy: as the higher-degree one, plus
/// intermediate powers of the coset shift and of the evaluation point that
/// keep every per-gate constraint at low degree.
pub open spec fn interpolation_low_wires(arity_bits: int) -> int {
    interpolation_high_wires(arity_bits) + (pow2(arity_bits as nat) as int - 1) + 2 * (pow2(
        arity_bits as nat,
    ) as int - 1)
}

/// Computes the four wire counts for `bits`-sized accesses and
/// `arity_bits`-sized interpolations: multiplexer total and routed wires,
/// then for the strategy the threshold selects, total and routed wires.
pub fn capability_wire_counts(bits: usize, arity_bits: usize, max_quotient_degree_factor: usize) -> (r: (
    u64,
    u64,
    u64,
    u64,
))
    requires
        bits <= TWO_ADICITY,
        arity_bits <= TWO_ADICITY,
    ensures
        r.0 as int == random_access_wires(bits as int),
        r.1 as int == random_access_routed_wires(bits as int),
        (pow2(arity_bits as nat) as int > max_quotient_degree_factor as int ==> r.2 as int
            == interpolation_low_wires(arity_bits as int)),
        (pow2(arity_bits as nat) as int <= max_quotient_degree_factor as int ==> r.2 as int
            == interpolation_high_wires(arity_bits as int)),
        r.3 as int == interpolation_routed_wires(arity_bits as int),
{
    proof {
        vstd::arithmetic::power2::lemma_pow2_pos(bits as nat);
        vstd::arithmetic::power2::lemma_pow2_pos(arity_bits as nat);
        if bits < TWO_ADICITY {
            vstd::arithmetic::power2::lemma_pow2_strictly_increases(bits as nat, TWO_ADICITY as nat);
        }
        if arity_bits < TWO_ADICITY {
            vstd::arithmetic::power2::lemma_pow2_strictly_increases(
                arity_bits as nat,
                TWO_ADICITY as nat,
            );
        }
        lemma2_to64();
    }
    let ra_pow: u64 = pow2_u64(bits);
    let ip_pow: u64 = pow2_u64(arity_bits);
    let ra_routed: u64 = 2 + ra_pow;
    let ra_total: u64 = ra_routed + (bits as u64);
    let ip_routed: u64 = 1 + 2 * ip_pow + 4;
    let ip_high: u64 = ip_routed + 2 * ip_pow;
    let ip_total: u64 = if ip_pow > (max_quotient_degree_factor as u64) {
        ip_high + (ip_pow - 1) + 2 * (ip_pow - 1)
    } else {
        ip_high
    };
    proof {
        if !(ip_pow > max_quotient_degree_factor as u64) {
            assert(pow2(arity_bits as nat) as int <= max_quotient_degree_factor as int);
        }
    }
    (ra_total, ra_routed, ip_total, ip_routed)
}

} // verus!
