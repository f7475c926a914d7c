use fri_circuit::bits::{log2_strict, pow2_u64, pow2_usize, reverse_bits, split_le};
use fri_circuit::builder::CircuitBuilder;
use fri_circuit::challenger::RecursiveChallenger;
use fri_circuit::config::{CircuitConfig, FriConfig, FriParams};
use fri_circuit::constraint::Constraint;
use fri_circuit::field::{
    exp_pow2_minus_one, mul_mod, pow_sq, primitive_root_of_unity, COSET_SHIFT, FIELD_ORDER,
    POWER_OF_TWO_GENERATOR,
};
use fri_circuit::pow::satisfies_leading_zeros;

fn test_config() -> CircuitConfig {
    CircuitConfig {
        num_wires: 100,
        num_routed_wires: 50,
        max_quotient_degree_factor: 8,
        fri_config: FriConfig {
            rate_bits: 3,
            cap_height: 4,
            proof_of_work_bits: 10,
            num_query_rounds: 2,
        },
    }
}

#[test]
fn mul_mod_wraps_at_field_order() {
    // (p - 1)^2 == 1 mod p.
    assert_eq!(mul_mod(FIELD_ORDER - 1, FIELD_ORDER - 1), 1);
    assert_eq!(mul_mod(2, 3), 6);
    assert_eq!(mul_mod(FIELD_ORDER, 5), 0);
}

#[test]
fn iterated_squaring_matches_direct_powers() {
    assert_eq!(pow_sq(3, 0), 3);
    assert_eq!(pow_sq(3, 1), 9);
    assert_eq!(pow_sq(3, 2), 81);
    assert_eq!(pow_sq(7, 3), 7u64.wrapping_pow(8));
}

#[test]
fn power_of_two_generator_has_order_two_to_32() {
    // Squared 32 times the generator reaches 1; one step earlier it is -1.
    assert_eq!(pow_sq(POWER_OF_TWO_GENERATOR, 32), 1);
    assert_eq!(pow_sq(POWER_OF_TWO_GENERATOR, 31), FIELD_ORDER - 1);
    assert_eq!(primitive_root_of_unity(0), 1);
    assert_eq!(primitive_root_of_unity(1), FIELD_ORDER - 1);
}

#[test]
fn exp_pow2_minus_one_matches_repeated_multiplication() {
    // g^(2^3 - 1) == g^7.
    let g = primitive_root_of_unity(3);
    let mut expected = 1u64;
    for _ in 0..7 {
        expected = mul_mod(expected, g);
    }
    assert_eq!(exp_pow2_minus_one(g, 3), expected);
}

#[test]
fn coset_shift_is_small_generator() {
    assert_eq!(COSET_SHIFT, 7);
}

#[test]
fn split_le_produces_low_bits_first() {
    let bits = split_le(0b1011, 4);
    assert_eq!(bits, vec![true, true, false, true]);
    // Recomposing the bits low-to-high reproduces the value.
    let mut v = 0u64;
    for (i, b) in bits.iter().enumerate() {
        if *b {
            v += 1 << i;
        }
    }
    assert_eq!(v, 0b1011);
}

#[test]
fn full_width_split_round_trips_modulo_field_order() {
    let x = FIELD_ORDER.wrapping_add(12345);
    let bits = split_le(x, 64);
    let mut v = 0u128;
    for (i, b) in bits.iter().enumerate() {
        if *b {
            v += 1u128 << i;
        }
    }
    assert_eq!(v as u64, x);
    assert_eq!((v % FIELD_ORDER as u128) as u64, x % FIELD_ORDER);
}

#[test]
fn reverse_bits_mirrors_the_window() {
    assert_eq!(reverse_bits(0b001, 3), 0b100);
    assert_eq!(reverse_bits(0b110, 3), 0b011);
    assert_eq!(reverse_bits(0, 5), 0);
    assert_eq!(reverse_bits(1, 1), 1);
}

#[test]
fn log2_strict_inverts_pow2() {
    assert_eq!(log2_strict(1), 0);
    assert_eq!(log2_strict(1024), 10);
    assert_eq!(pow2_u64(13), 8192);
    assert_eq!(pow2_usize(4), 16);
}

#[test]
fn proof_of_work_threshold_is_a_power_of_two_bound() {
    // 2^54 - 1 has exactly 10 leading zeros.
    let h = (1u64 << 54) - 1;
    assert!(satisfies_leading_zeros(h, 10));
    assert!(!satisfies_leading_zeros(h, 11));
    assert!(satisfies_leading_zeros(0, 64));
    assert!(!satisfies_leading_zeros(1, 64));
}

#[test]
fn proof_of_work_acceptance_is_monotonic_in_the_threshold() {
    let h = 0x0000_1234_5678_9abcu64;
    let mut last_accepted = true;
    for zeros in 0..=64u32 {
        let a = satisfies_leading_zeros(h, zeros);
        // Once rejected at some threshold, raising it never re-accepts.
        if !last_accepted {
            assert!(!a);
        }
        last_accepted = a;
    }
    assert!(satisfies_leading_zeros(h, 19));
    assert!(!satisfies_leading_zeros(h, 20));
}

#[test]
fn params_validator_enforces_the_domain_equation() {
    let config = test_config().fri_config;
    let good = FriParams {
        config,
        hiding: false,
        degree_bits: 10,
        reduction_arity_bits: vec![3, 3, 3],
    };
    assert!(good.is_valid());
    // The sizing from the protocol description with only two rounds of
    // arity 8 leaves 3 + 4 != 0 surplus levels: 6 + 4 != 10 + 3.
    let bad = FriParams {
        config,
        hiding: false,
        degree_bits: 10,
        reduction_arity_bits: vec![3, 3],
    };
    assert!(!bad.is_valid());
    assert_eq!(good.final_poly_len(), 2);
    assert_eq!(good.lde_size(), 8192);
    assert_eq!(good.max_arity_bits(), Some(3));
}

#[test]
fn builder_allocates_wires_in_order() {
    let mut b = CircuitBuilder::new(test_config());
    let t0 = b.add_virtual_target();
    let t1 = b.constant(42);
    let t2 = b.mul(t0, t1);
    assert_eq!(t0.index, 0);
    assert_eq!(t1.index, 1);
    assert_eq!(t2.index, 2);
    assert_eq!(b.constraints.len(), 2);
    assert!(matches!(b.constraints[0], Constraint::Constant { value: 42, .. }));
    assert!(matches!(b.constraints[1], Constraint::Mul { .. }));
}

#[test]
fn low_bits_emits_one_noncanonical_decomposition() {
    let mut b = CircuitBuilder::new(test_config());
    let x = b.add_virtual_target();
    let bits = b.low_bits(x, 13, 64);
    assert_eq!(bits.len(), 13);
    assert_eq!(b.constraints.len(), 1);
    match &b.constraints[0] {
        Constraint::BitDecompose { input, bits: all } => {
            assert_eq!(*input, x);
            assert_eq!(all.len(), 64);
        }
        other => panic!("unexpected constraint {:?}", other),
    }
}

#[test]
fn transcript_draws_depend_on_history_and_round() {
    let mut b1 = CircuitBuilder::new(test_config());
    let mut b2 = CircuitBuilder::new(test_config());
    let mut c1 = RecursiveChallenger::new();
    let mut c2 = RecursiveChallenger::new();
    let t1 = b1.add_virtual_target();
    let t2 = b2.add_virtual_target();
    c1.observe_target(t1);
    c2.observe_target(t2);
    let ch1 = c1.get_challenge(&mut b1);
    let ch2 = c2.get_challenge(&mut b2);
    // Identical histories derive the identical challenge wire.
    assert_eq!(ch1, ch2);
    assert_eq!(b1.constraints, b2.constraints);
    // A later draw from the same history is a different wire.
    let ch1b = c1.get_challenge(&mut b1);
    assert_ne!(ch1, ch1b);
}

#[test]
fn interpolation_strategies_agree_on_the_emitted_relation() {
    // One configuration keeps arity 4 at the single-gate strategy, the
    // other pushes it over the threshold; the constraint stream and the
    // folded value must not differ, only the cost bookkeeping.
    let mut config_high = test_config();
    config_high.max_quotient_degree_factor = 8;
    let mut config_low = test_config();
    config_low.max_quotient_degree_factor = 2;
    let mut b_high = CircuitBuilder::new(config_high);
    let mut b_low = CircuitBuilder::new(config_low);
    let mut outs = Vec::new();
    for b in [&mut b_high, &mut b_low] {
        let x = b.add_virtual_target();
        let bit0 = fri_circuit::target::BoolTarget { target: b.add_virtual_target() };
        let bit1 = fri_circuit::target::BoolTarget { target: b.add_virtual_target() };
        let beta = b.add_virtual_ext();
        let mut evals = Vec::new();
        for _ in 0..4 {
            let e = b.add_virtual_ext();
            evals.push(e);
        }
        let out = b.compute_evaluation(x, &vec![bit0, bit1], 2, &evals, beta);
        outs.push(out);
    }
    assert_eq!(outs[0], outs[1]);
    assert_eq!(b_high.constraints, b_low.constraints);
    assert_eq!(b_high.high_degree_interp_gates, 1);
    assert_eq!(b_high.low_degree_interp_gates, 0);
    assert_eq!(b_low.high_degree_interp_gates, 0);
    assert_eq!(b_low.low_degree_interp_gates, 1);
}
