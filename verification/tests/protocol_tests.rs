use fri_circuit::builder::CircuitBuilder;
use fri_circuit::challenger::RecursiveChallenger;
use fri_circuit::config::{CircuitConfig, FriConfig, FriParams};
use fri_circuit::constraint::Constraint;
use fri_circuit::fri_proof::{
    FriBatchInfoTarget, FriInitialTreeProofTarget, FriInstanceInfoTarget, FriOpeningBatchTarget,
    FriOpeningsTarget, FriOracleInfo, FriPolynomialInfo, FriProofTarget, FriQueryRoundTarget,
    FriQueryStepTarget, MerkleCapTarget, MerkleProofTarget,
};
use fri_circuit::fri_verifier::FriError;
use fri_circuit::target::{ExtTarget, HashOutTarget, Target};

fn scenario_config() -> CircuitConfig {
    CircuitConfig {
        num_wires: 100,
        num_routed_wires: 50,
        max_quotient_degree_factor: 8,
        fri_config: FriConfig {
            rate_bits: 3,
            cap_height: 4,
            proof_of_work_bits: 10,
            num_query_rounds: 2,
        },
    }
}

/// The concrete sizing from the protocol description: `degree_bits = 10`,
/// `rate_bits = 3`, `cap_height = 4`, two query rounds.  The described
/// two-round schedule `[3, 3]` violates the domain equation
/// (`6 + 4 != 10 + 3`), so the consistent three-round schedule `[3, 3, 3]`
/// is used for the honest fixture and the two-round one for the rejection
/// test.
fn scenario_params() -> FriParams {
    FriParams {
        config: scenario_config().fri_config,
        hiding: false,
        degree_bits: 10,
        reduction_arity_bits: vec![3, 3, 3],
    }
}

fn virtual_targets(b: &mut CircuitBuilder, n: usize) -> Vec<Target> {
    let mut v = Vec::new();
    for _ in 0..n {
        v.push(b.add_virtual_target());
    }
    v
}

fn virtual_exts(b: &mut CircuitBuilder, n: usize) -> Vec<ExtTarget> {
    let mut v = Vec::new();
    for _ in 0..n {
        v.push(b.add_virtual_ext());
    }
    v
}

fn virtual_hashes(b: &mut CircuitBuilder, n: usize) -> Vec<HashOutTarget> {
    let mut v = Vec::new();
    for _ in 0..n {
        v.push(b.add_virtual_hash());
    }
    v
}

fn virtual_cap(b: &mut CircuitBuilder, cap_height: usize) -> MerkleCapTarget {
    MerkleCapTarget { digests: virtual_hashes(b, 1 << cap_height) }
}

struct Fixture {
    builder: CircuitBuilder,
    instance: FriInstanceInfoTarget,
    openings: FriOpeningsTarget,
    initial_caps: Vec<MerkleCapTarget>,
    proof: FriProofTarget,
    params: FriParams,
}

/// A fully shaped (virtual-witness) proof object for the scenario sizing.
fn scenario_fixture() -> Fixture {
    let params = scenario_params();
    let mut b = CircuitBuilder::new(scenario_config());
    let n_log = params.degree_bits + params.config.rate_bits;  // 13
    let cap_height = params.config.cap_height;

    let oracles = vec![
        FriOracleInfo { num_polys: 2, blinding: false },
        FriOracleInfo { num_polys: 3, blinding: false },
    ];
    let batch0 = FriBatchInfoTarget {
        point: b.add_virtual_ext(),
        polynomials: vec![
            FriPolynomialInfo { oracle_index: 0, polynomial_index: 0 },
            FriPolynomialInfo { oracle_index: 0, polynomial_index: 1 },
            FriPolynomialInfo { oracle_index: 1, polynomial_index: 0 },
        ],
    };
    let batch1 = FriBatchInfoTarget {
        point: b.add_virtual_ext(),
        polynomials: vec![
            FriPolynomialInfo { oracle_index: 1, polynomial_index: 1 },
            FriPolynomialInfo { oracle_index: 1, polynomial_index: 2 },
        ],
    };
    let instance = FriInstanceInfoTarget { oracles, batches: vec![batch0, batch1] };

    let openings = FriOpeningsTarget {
        batches: vec![
            FriOpeningBatchTarget { values: virtual_exts(&mut b, 3) },
            FriOpeningBatchTarget { values: virtual_exts(&mut b, 2) },
        ],
    };

    let initial_caps = vec![virtual_cap(&mut b, cap_height), virtual_cap(&mut b, cap_height)];

    let commit_phase_merkle_caps = vec![
        virtual_cap(&mut b, cap_height),
        virtual_cap(&mut b, cap_height),
        virtual_cap(&mut b, cap_height),
    ];

    let mut query_round_proofs = Vec::new();
    for _ in 0..params.config.num_query_rounds {
        // Initial trees: one (leaf, path) pair per oracle; paths reach from
        // the leaves up to the cap: 13 - 4 = 9 levels.
        let mut evals_proofs = Vec::new();
        for oracle in [2usize, 3usize] {
            let leaf = virtual_targets(&mut b, oracle);
            let path = MerkleProofTarget { siblings: virtual_hashes(&mut b, n_log - cap_height) };
            evals_proofs.push((leaf, path));
        }
        // Three folding rounds of arity 8; the remaining tree shrinks by
        // three levels per round: paths of 6, 3 and 0 siblings.
        let mut steps = Vec::new();
        for round in 0..3 {
            let remaining = n_log - 3 * (round + 1) - cap_height;
            steps.push(FriQueryStepTarget {
                evals: virtual_exts(&mut b, 8),
                merkle_proof: MerkleProofTarget { siblings: virtual_hashes(&mut b, remaining) },
            });
        }
        query_round_proofs.push(FriQueryRoundTarget {
            initial_trees_proof: FriInitialTreeProofTarget { evals_proofs },
            steps,
        });
    }

    let proof = FriProofTarget {
        commit_phase_merkle_caps,
        query_round_proofs,
        final_poly: virtual_exts(&mut b, 2),
        pow_witness: b.add_virtual_target(),
    };

    Fixture { builder: b, instance, openings, initial_caps, proof, params }
}

fn run_verification(fx: &mut Fixture) -> Result<(), FriError> {
    let mut challenger = RecursiveChallenger::new();
    let Fixture { builder, instance, openings, initial_caps, proof, params } = fx;
    builder.verify_fri_proof(instance, openings, initial_caps, proof, &mut challenger, params)
}

#[test]
fn scenario_verification_emits_the_protocol_constraints() {
    let mut fx = scenario_fixture();
    let before = fx.builder.constraints.len();
    assert_eq!(run_verification(&mut fx), Ok(()));
    let appended = &fx.builder.constraints[before..];
    let challenges =
        appended.iter().filter(|c| matches!(c, Constraint::Challenge { .. })).count();
    let decomps =
        appended.iter().filter(|c| matches!(c, Constraint::BitDecompose { .. })).count();
    let cap_checks =
        appended.iter().filter(|c| matches!(c, Constraint::CapSelect { .. })).count();
    let finals = appended.iter().filter(|c| matches!(c, Constraint::ConnectExt { .. })).count();
    let pow = appended.iter().filter(|c| matches!(c, Constraint::LeadingZeros { .. })).count();
    let folds =
        appended.iter().filter(|c| matches!(c, Constraint::InterpolateEval { .. })).count();
    let consistency =
        appended.iter().filter(|c| matches!(c, Constraint::RandomAccessExt { .. })).count();
    // alpha (2) + one extension challenge per round (6) + one index per query (2).
    assert_eq!(challenges, 10);
    // One index decomposition and one final equality per query.
    assert_eq!(decomps, 2);
    assert_eq!(finals, 2);
    // Per query: one cap check per oracle plus one per folding round.
    assert_eq!(cap_checks, 2 * (2 + 3));
    assert_eq!(pow, 1);
    // One fold and one consistency lookup per round per query.
    assert_eq!(folds, 2 * 3);
    assert_eq!(consistency, 2 * 3);
}

#[test]
fn verification_is_deterministic() {
    let mut fx1 = scenario_fixture();
    let mut fx2 = scenario_fixture();
    assert_eq!(run_verification(&mut fx1), Ok(()));
    assert_eq!(run_verification(&mut fx2), Ok(()));
    assert_eq!(fx1.builder.constraints, fx2.builder.constraints);
    assert_eq!(fx1.builder.wires.len(), fx2.builder.wires.len());
}

#[test]
fn incoherent_schedule_fails_construction() {
    let mut fx = scenario_fixture();
    // The literal two-round schedule of the scenario sizing: 3 + 3 + 4 on
    // the left of the domain equation against 10 + 3 on the right.
    fx.params.reduction_arity_bits = vec![3, 3];
    assert_eq!(run_verification(&mut fx), Err(FriError::InvalidParams));
    // Nothing was emitted.
    assert!(fx.builder.constraints.is_empty());
}

#[test]
fn wrong_final_polynomial_length_is_rejected() {
    let mut fx = scenario_fixture();
    fx.proof.final_poly.push(fx.proof.final_poly[0]);
    assert_eq!(
        run_verification(&mut fx),
        Err(FriError::WrongFinalPolyLength { expected: 2, got: 3 })
    );
}

#[test]
fn wrong_query_round_count_is_rejected() {
    let mut fx = scenario_fixture();
    fx.proof.query_round_proofs.pop();
    assert_eq!(
        run_verification(&mut fx),
        Err(FriError::WrongQueryRoundCount { expected: 2, got: 1 })
    );
}

#[test]
fn undersized_circuit_is_rejected_with_the_needed_width() {
    let mut fx = scenario_fixture();
    // Arity 8 at the single-gate strategy needs 1 + 2*8 + 4 routed wires
    // plus 2*8 coefficient wires.
    fx.builder.config.num_wires = 30;
    assert_eq!(
        run_verification(&mut fx),
        Err(FriError::InsufficientWires { needed: 37 })
    );
    fx.builder.config.num_wires = 100;
    fx.builder.config.num_routed_wires = 20;
    assert_eq!(
        run_verification(&mut fx),
        Err(FriError::InsufficientRoutedWires { needed: 21 })
    );
}

#[test]
fn oversized_rate_fails_the_noncanonical_index_margin() {
    let mut fx = scenario_fixture();
    // With 16 rate bits the ambiguous-encoding probability is no longer
    // five orders of magnitude under the per-query error.
    fx.params.config.rate_bits = 16;
    fx.params.config.cap_height = 16;
    fx.params.degree_bits = 10;
    fx.params.reduction_arity_bits = vec![3, 3, 3, 1];
    fx.builder.config.fri_config = fx.params.config;
    assert_eq!(run_verification(&mut fx), Err(FriError::UnsoundNoncanonicalIndices));
}

#[test]
fn transcript_observation_precedes_each_folding_challenge() {
    let mut fx = scenario_fixture();
    let mut challenger = RecursiveChallenger::new();
    let observed_before = challenger.observed.len();
    let Fixture { builder, instance, openings, initial_caps, proof, params } = &mut fx;
    builder
        .verify_fri_proof(instance, openings, initial_caps, proof, &mut challenger, params)
        .unwrap();
    // Openings (5 extension values), three caps of 16 digests, and the
    // final polynomial (2 extension values) all entered the transcript.
    let expected = observed_before + 5 * 2 + 3 * 16 * 4 + 2 * 2;
    assert_eq!(challenger.observed.len(), expected);
    // alpha (2) + betas (6) + the proof-of-work digest (1) + indices (2).
    assert_eq!(challenger.num_draws, 11);
}

#[test]
fn combine_initial_reads_the_leaf_and_folds_quotients() {
    // A minimal hiding instance: one blinded oracle of one polynomial, so
    // its leaf carries four salt wires after the opening.
    let config = CircuitConfig {
        num_wires: 100,
        num_routed_wires: 50,
        max_quotient_degree_factor: 8,
        fri_config: FriConfig {
            rate_bits: 1,
            cap_height: 1,
            proof_of_work_bits: 1,
            num_query_rounds: 1,
        },
    };
    let params = FriParams {
        config: config.fri_config,
        hiding: true,
        degree_bits: 3,
        reduction_arity_bits: vec![3],
    };
    assert!(params.is_valid());
    let mut b = CircuitBuilder::new(config);
    let instance = FriInstanceInfoTarget {
        oracles: vec![FriOracleInfo { num_polys: 1, blinding: true }],
        batches: vec![FriBatchInfoTarget {
            point: b.add_virtual_ext(),
            polynomials: vec![FriPolynomialInfo { oracle_index: 0, polynomial_index: 0 }],
        }],
    };
    let leaf = virtual_targets(&mut b, 1 + 4);
    let opening_wire = leaf[0];
    let itp = FriInitialTreeProofTarget {
        evals_proofs: vec![(leaf, MerkleProofTarget { siblings: virtual_hashes(&mut b, 3) })],
    };
    let alpha = b.add_virtual_ext();
    let subgroup_x = b.add_virtual_target();
    let reduced = fri_circuit::fri_verifier::PrecomputedReducedOpeningsTarget {
        reduced_openings_at_point: virtual_exts(&mut b, 1),
    };
    let before = b.constraints.len();
    let out = b.fri_combine_initial(&instance, &itp, alpha, subgroup_x, &reduced, &params);
    let appended = &b.constraints[before..];
    // The reduction read the unsalted opening, not a salt wire.
    assert!(appended.iter().any(|c| matches!(
        c,
        Constraint::MulAddExt { addend, .. } if addend.c0 == opening_wire
    )));
    // The batch ends in the quotient accumulation, whose output is returned.
    match appended.last().unwrap() {
        Constraint::DivAddExt { out: o, .. } => assert_eq!(*o, out),
        other => panic!("unexpected final constraint {:?}", other),
    }
}

#[test]
fn empty_folding_schedule_is_one_big_final_polynomial() {
    // With no reduction rounds the cap must absorb the whole domain and the
    // final polynomial is the committed one itself.
    let config = CircuitConfig {
        num_wires: 100,
        num_routed_wires: 50,
        max_quotient_degree_factor: 8,
        fri_config: FriConfig {
            rate_bits: 1,
            cap_height: 3,
            proof_of_work_bits: 2,
            num_query_rounds: 1,
        },
    };
    let params = FriParams {
        config: config.fri_config,
        hiding: false,
        degree_bits: 2,
        reduction_arity_bits: vec![],
    };
    assert!(params.is_valid());
    let mut b = CircuitBuilder::new(config);
    let instance = FriInstanceInfoTarget {
        oracles: vec![FriOracleInfo { num_polys: 1, blinding: false }],
        batches: vec![FriBatchInfoTarget {
            point: b.add_virtual_ext(),
            polynomials: vec![FriPolynomialInfo { oracle_index: 0, polynomial_index: 0 }],
        }],
    };
    let openings = FriOpeningsTarget {
        batches: vec![FriOpeningBatchTarget { values: virtual_exts(&mut b, 1) }],
    };
    let initial_caps = vec![virtual_cap(&mut b, 3)];
    let proof = FriProofTarget {
        commit_phase_merkle_caps: vec![],
        query_round_proofs: vec![FriQueryRoundTarget {
            initial_trees_proof: FriInitialTreeProofTarget {
                evals_proofs: vec![(
                    virtual_targets(&mut b, 1),
                    MerkleProofTarget { siblings: virtual_hashes(&mut b, 0) },
                )],
            },
            steps: vec![],
        }],
        final_poly: virtual_exts(&mut b, 4),
        pow_witness: b.add_virtual_target(),
    };
    let mut fx = Fixture { builder: b, instance, openings, initial_caps, proof, params };
    assert_eq!(run_verification(&mut fx), Ok(()));
    let finals =
        fx.builder.constraints.iter().filter(|c| matches!(c, Constraint::ConnectExt { .. })).count();
    assert_eq!(finals, 1);
}
