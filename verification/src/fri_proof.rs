//! The proof objects the verifier consumes, as wire handles, and the shape
//! every piece must have for the given parameters.
//!
//! All of these are read-only inputs: the verifier only reads them and
//! emits constraints about them.

use vstd::arithmetic::power2::pow2;
use vstd::prelude::*;

use crate::config::{sum_arities, FriParams};
use crate::target::{
    ext_ok, exts_ok, hash_ok, hashes_ok, target_ok, targets_ok, ExtTarget, HashOutTarget, Target,
};

verus! {

/// Number of salt wires appended to a blinded oracle's leaf.
pub const SALT_SIZE: usize = 4;

/// The top of a Merkle tree truncated above `cap_height`: `2^cap_height`
/// digests committed directly.
#[derive(Clone, Debug)]
pub struct MerkleCapTarget {
    pub digests: Vec<HashOutTarget>,
}

/// The sibling digests of one authentication path, leaf side first.
#[derive(Clone, Debug)]
pub struct MerkleProofTarget {
    pub siblings: Vec<HashOutTarget>,
}

/// Per committed oracle: the openings of its leaf at the query index and
/// the path re-authenticating them.
#[derive(Clone, Debug)]
pub struct FriInitialTreeProofTarget {
    pub evals_proofs: Vec<(Vec<Target>, MerkleProofTarget)>,
}

/// One folding round of one query: the claimed coset evaluations and their
/// authentication path against that round's committed cap.
#[derive(Clone, Debug)]
pub struct FriQueryStepTarget {
    pub evals: Vec<ExtTarget>,
    pub merkle_proof: MerkleProofTarget,
}

/// Everything one sampled query index is checked against.
#[derive(Clone, Debug)]
pub struct FriQueryRoundTarget {
    pub initial_trees_proof: FriInitialTreeProofTarget,
    pub steps: Vec<FriQueryStepTarget>,
}

/// The complete proof object.
#[derive(Clone, Debug)]
pub struct FriProofTarget {
    /// One cap per folding round, committed before the round's challenge.
    pub commit_phase_merkle_caps: Vec<MerkleCapTarget>,
    /// One query round per configured query.
    pub query_round_proofs: Vec<FriQueryRoundTarget>,
    /// The last folded polynomial, sent as explicit coefficients.
    pub final_poly: Vec<ExtTarget>,
    /// The proof-of-work witness.
    pub pow_witness: Target,
}

/// A committed oracle: how many polynomials it stacks and whether its
/// leaves carry a blinding salt.
#[derive(Clone, Copy, PartialEq, Eq, Structural, Debug)]
pub struct FriOracleInfo {
    pub num_polys: usize,
    pub blinding: bool,
}

/// One polynomial of one oracle.
#[derive(Clone, Copy, PartialEq, Eq, Structural, Debug)]
pub struct FriPolynomialInfo {
    pub oracle_index: usize,
    pub polynomial_index: usize,
}

/// A batch of polynomials all opened at one evaluation point.
#[derive(Clone, Debug)]
pub struct FriBatchInfoTarget {
    pub point: ExtTarget,
    pub polynomials: Vec<FriPolynomialInfo>,
}

/// The instance: the committed oracles and the opening batches.
#[derive(Clone, Debug)]
pub struct FriInstanceInfoTarget {
    pub oracles: Vec<FriOracleInfo>,
    pub batches: Vec<FriBatchInfoTarget>,
}

/// The claimed evaluations of one batch, aligned with its polynomials.
#[derive(Clone, Debug)]
pub struct FriOpeningBatchTarget {
    pub values: Vec<ExtTarget>,
}

/// The claimed evaluations of every batch.
#[derive(Clone, Debug)]
pub struct FriOpeningsTarget {
    pub batches: Vec<FriOpeningBatchTarget>,
}

impl FriInitialTreeProofTarget {
    /// The opening of one polynomial of one oracle, skipping nothing: the
    /// salt, when present, sits after every polynomial column.
    pub fn unsalted_eval(&self, oracle_index: usize, poly_index: usize, salted: bool) -> (r: Target)
        requires
            oracle_index < self.evals_proofs@.len(),
            (poly_index as int) < self.evals_proofs@[oracle_index as int].0@.len() - (if salted {
                SALT_SIZE as int
            } else {
                0int
            }),
        ensures
            r == self.evals_proofs@[oracle_index as int].0@[poly_index as int],
    {
        self.evals_proofs[oracle_index].0[poly_index]
    }
}

/// Whether each leaf of this oracle carries a salt: only when the scheme
/// hides and the oracle is blinded.
pub open spec fn oracle_salted(params: FriParams, oracle: FriOracleInfo) -> bool {
    params.hiding && oracle.blinding
}

/// The instance is internally coherent: every referenced oracle and
/// polynomial exists.
pub open spec fn instance_ok(instance: FriInstanceInfoTarget, n: nat) -> bool {
    &&& forall|b: int, p: int|
        0 <= b < instance.batches@.len() && 0 <= p
            < instance.batches@[b].polynomials@.len() ==> {
            let info = #[trigger] instance.batches@[b].polynomials@[p];
            &&& info.oracle_index < instance.oracles@.len()
            &&& info.polynomial_index < instance.oracles@[info.oracle_index as int].num_polys
        }
    &&& forall|b: int|
        0 <= b < instance.batches@.len() ==> ext_ok(
            #[trigger] instance.batches@[b].point,
            n,
        )
}

/// The claimed openings line up with the instance's batches.
pub open spec fn openings_ok(
    os: FriOpeningsTarget,
    instance: FriInstanceInfoTarget,
    n: nat,
) -> bool {
    &&& os.batches@.len() == instance.batches@.len()
    &&& forall|b: int|
        0 <= b < os.batches@.len() ==> exts_ok(#[trigger] os.batches@[b].values@, n)
}

/// A cap of the configured height with live digests.
pub open spec fn cap_ok(cap: MerkleCapTarget, cap_height: int, n: nat) -> bool {
    &&& cap.digests@.len() == pow2(cap_height as nat)
    &&& hashes_ok(cap.digests@, n)
}

pub open spec fn caps_ok(caps: Seq<MerkleCapTarget>, cap_height: int, n: nat) -> bool {
    forall|i: int| 0 <= i < caps.len() ==> cap_ok(#[trigger] caps[i], cap_height, n)
}

/// The initial-tree proof of one query: one (leaf, path) pair per oracle,
/// the leaf as wide as the oracle's stack (plus salt), the path exactly as
/// long as the tree is below the cap.
pub open spec fn initial_proof_ok(
    itp: FriInitialTreeProofTarget,
    instance: FriInstanceInfoTarget,
    params: FriParams,
    n: nat,
) -> bool {
    &&& itp.evals_proofs@.len() == instance.oracles@.len()
    &&& forall|i: int|
        0 <= i < itp.evals_proofs@.len() ==> {
            let ep = #[trigger] itp.evals_proofs@[i];
            &&& targets_ok(ep.0@, n)
            &&& ep.0@.len() == instance.oracles@[i].num_polys + (if oracle_salted(
                params,
                instance.oracles@[i],
            ) {
                SALT_SIZE as int
            } else {
                0
            })
            &&& ep.1.siblings@.len() == params.n_log() - params.config.cap_height
            &&& hashes_ok(ep.1.siblings@, n)
        }
}

/// One query round: the initial proof, then one step per folding round,
/// whose coset is as wide as the round's arity and whose path is as long
/// as the then-remaining tree below the cap.
pub open spec fn query_round_ok(
    qrp: FriQueryRoundTarget,
    instance: FriInstanceInfoTarget,
    params: FriParams,
    n: nat,
) -> bool {
    &&& initial_proof_ok(qrp.initial_trees_proof, instance, params, n)
    &&& qrp.steps@.len() == params.reduction_arity_bits@.len()
    &&& forall|i: int|
        0 <= i < qrp.steps@.len() ==> {
            let step = #[trigger] qrp.steps@[i];
            &&& step.evals@.len() == pow2(params.reduction_arity_bits@[i] as nat)
            &&& exts_ok(step.evals@, n)
            &&& step.merkle_proof.siblings@.len() == params.n_log() - sum_arities(
                params.reduction_arity_bits@.subrange(0, i + 1),
            ) - params.config.cap_height
            &&& hashes_ok(step.merkle_proof.siblings@, n)
        }
}

/// The whole proof object, shaped for `params` and `instance`.  The two
/// construction-time-checked lengths (final polynomial, query-round count)
/// are stated separately by the orchestrator.
pub open spec fn proof_ok(
    proof: FriProofTarget,
    instance: FriInstanceInfoTarget,
    params: FriParams,
    n: nat,
) -> bool {
    &&& proof.commit_phase_merkle_caps@.len() == params.reduction_arity_bits@.len()
    &&& caps_ok(proof.commit_phase_merkle_caps@, params.config.cap_height as int, n)
    &&& exts_ok(proof.final_poly@, n)
    &&& target_ok(proof.pow_witness, n)
    &&& forall|q: int|
        0 <= q < proof.query_round_proofs@.len() ==> query_round_ok(
            #[trigger] proof.query_round_proofs@[q],
            instance,
            params,
            n,
        )
}

/// Validity of handles only says that their wires exist, so it is kept as
/// the arena grows.
pub proof fn lemma_instance_ok_monotone(instance: FriInstanceInfoTarget, n1: nat, n2: nat)
    requires
        n1 <= n2,
        instance_ok(instance, n1),
    ensures
        instance_ok(instance, n2),
{
    assert forall|b: int| 0 <= b < instance.batches@.len() implies ext_ok(
        #[trigger] instance.batches@[b].point,
        n2,
    ) by {
        assert(ext_ok(instance.batches@[b].point, n1));
    }
}

pub proof fn lemma_caps_ok_monotone(caps: Seq<MerkleCapTarget>, cap_height: int, n1: nat, n2: nat)
    requires
        n1 <= n2,
        caps_ok(caps, cap_height, n1),
    ensures
        caps_ok(caps, cap_height, n2),
{
    assert forall|i: int| 0 <= i < caps.len() implies cap_ok(#[trigger] caps[i], cap_height, n2) by {
        assert(cap_ok(caps[i], cap_height, n1));
    }
}

pub proof fn lemma_proof_ok_monotone(
    fp: FriProofTarget,
    instance: FriInstanceInfoTarget,
    params: FriParams,
    n1: nat,
    n2: nat,
)
    requires
        n1 <= n2,
        proof_ok(fp, instance, params, n1),
    ensures
        proof_ok(fp, instance, params, n2),
{
    lemma_caps_ok_monotone(fp.commit_phase_merkle_caps@, params.config.cap_height as int, n1, n2);
    assert forall|q: int| 0 <= q < fp.query_round_proofs@.len() implies query_round_ok(
        #[trigger] fp.query_round_proofs@[q],
        instance,
        params,
        n2,
    ) by {
        lemma_query_round_ok_monotone(fp.query_round_proofs@[q], instance, params, n1, n2);
    }
    assert(exts_ok(fp.final_poly@, n2));
}

pub proof fn lemma_openings_ok_monotone(
    os: FriOpeningsTarget,
    instance: FriInstanceInfoTarget,
    n1: nat,
    n2: nat,
)
    requires
        n1 <= n2,
        openings_ok(os, instance, n1),
    ensures
        openings_ok(os, instance, n2),
{
    assert forall|b: int| 0 <= b < os.batches@.len() implies exts_ok(
        #[trigger] os.batches@[b].values@,
        n2,
    ) by {
        assert(exts_ok(os.batches@[b].values@, n1));
    }
}

/// As the lemmas above, for a single query round.
pub proof fn lemma_query_round_ok_monotone(
    qrp: FriQueryRoundTarget,
    instance: FriInstanceInfoTarget,
    params: FriParams,
    n1: nat,
    n2: nat,
)
    requires
        n1 <= n2,
        query_round_ok(qrp, instance, params, n1),
    ensures
        query_round_ok(qrp, instance, params, n2),
{
    assert forall|i: int| 0 <= i < qrp.initial_trees_proof.evals_proofs@.len() implies {
        let ep = #[trigger] qrp.initial_trees_proof.evals_proofs@[i];
        &&& targets_ok(ep.0@, n2)
        &&& ep.0@.len() == instance.oracles@[i].num_polys + (if oracle_salted(
            params,
            instance.oracles@[i],
        ) {
            SALT_SIZE as int
        } else {
            0
        })
        &&& ep.1.siblings@.len() == params.n_log() - params.config.cap_height
        &&& hashes_ok(ep.1.siblings@, n2)
    } by {
        let ep = qrp.initial_trees_proof.evals_proofs@[i];
        assert(targets_ok(ep.0@, n1));
        assert(hashes_ok(ep.1.siblings@, n1));
    }
    assert forall|i: int| 0 <= i < qrp.steps@.len() implies {
        let step = #[trigger] qrp.steps@[i];
        &&& step.evals@.len() == pow2(params.reduction_arity_bits@[i] as nat)
        &&& exts_ok(step.evals@, n2)
        &&& step.merkle_proof.siblings@.len() == params.n_log() - sum_arities(
            params.reduction_arity_bits@.subrange(0, i + 1),
        ) - params.config.cap_height
        &&& hashes_ok(step.merkle_proof.siblings@, n2)
    } by {
        let step = qrp.steps@[i];
        assert(exts_ok(step.evals@, n1));
        assert(hashes_ok(step.merkle_proof.siblings@, n1));
    }
}

} // verus!
