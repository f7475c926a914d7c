//! Arithmetic in the 64-bit field the circuit is built over.
//!
//! The circuit works over the field of order `2^64 - 2^32 + 1`, whose
//! multiplicative group has 2-adicity 32.  The verifier needs a handful of
//! concrete field constants — roots of unity, their inverses, the coset
//! shift — which are computed here with exact contracts.

use vstd::arithmetic::div_mod::lemma_mul_mod_noop_general;
use vstd::arithmetic::power2::pow2;
use vstd::prelude::*;

verus! {

/// Order of the field: `2^64 - 2^32 + 1`.
pub const FIELD_ORDER: u64 = 18446744069414584321;

/// Number of bits needed to write `FIELD_ORDER`; the field fills 64 bits.
pub const FIELD_ORDER_BITS: u32 = 64;

/// Generator of the field's multiplicative group.  It doubles as the shift
/// that moves the evaluation subgroup onto the low-degree-extension coset.
pub const COSET_SHIFT: u64 = 7;

/// A generator of the maximal power-of-two-order subgroup, of order `2^32`.
pub const POWER_OF_TWO_GENERATOR: u64 = 1753635133440165772;

/// 2-adicity of the multiplicative group: power-of-two subgroups exist for
/// every order up to `2^32`.
pub const TWO_ADICITY: usize = 32;

/// `(a * b)` reduced modulo the field order.
pub open spec fn mul_mod_spec(a: int, b: int) -> int {
    (a * b) % (FIELD_ORDER as int)
}

/// `b^(2^k)` modulo the field order, defined as the `k`-fold squaring of `b`.
pub open spec fn pow_sq_spec(b: u64, k: nat) -> int
    decreases k,
{
    if k == 0 {
        (b as int) % (FIELD_ORDER as int)
    } else {
        mul_mod_spec(pow_sq_spec(b, (k - 1) as nat), pow_sq_spec(b, (k - 1) as nat))
    }
}

/// `b^e` modulo the field order.
pub open spec fn pow_mod_spec(b: u64, e: nat) -> int
    decreases e,
{
    if e == 0 {
        1int % (FIELD_ORDER as int)
    } else {
        mul_mod_spec(b as int, pow_mod_spec(b, (e - 1) as nat))
    }
}

pub proof fn lemma_pow_mod_bounds(b: u64, e: nat)
    ensures
        0 <= pow_mod_spec(b, e) < FIELD_ORDER as int,
    decreases e,
{
    broadcast use vstd::arithmetic::div_mod::lemma_mod_bound;

    if e > 0 {
        lemma_pow_mod_bounds(b, (e - 1) as nat);
    }
}

/// Exponents add: `b^(m+n) == b^m * b^n` modulo the field order.
pub proof fn lemma_pow_mod_add(b: u64, m: nat, n: nat)
    ensures
        pow_mod_spec(b, m + n) == mul_mod_spec(pow_mod_spec(b, m), pow_mod_spec(b, n)),
    decreases n,
{
    let p = FIELD_ORDER as int;
    lemma_pow_mod_bounds(b, m);
    if n == 0 {
        lemma_pow_mod_bounds(b, m + n);
        lemma_mul_mod_noop_general(pow_mod_spec(b, m), 1int, p);
        assert(pow_mod_spec(b, m) % p == pow_mod_spec(b, m));
        assert(mul_mod_spec(pow_mod_spec(b, m), pow_mod_spec(b, 0)) == (pow_mod_spec(b, m) * (1int
            % p)) % p);
        lemma_mul_mod_noop_general(pow_mod_spec(b, m), 1int, p);
    } else {
        lemma_pow_mod_add(b, m, (n - 1) as nat);
        // pow(b, m+n) == (b * pow(b, m+n-1)) % p
        //            == (b * ((pow(b,m) * pow(b,n-1)) % p)) % p
        //            == (b * (pow(b,m) * pow(b,n-1))) % p
        lemma_mul_mod_noop_general(b as int, pow_mod_spec(b, m) * pow_mod_spec(b, (n - 1) as nat), p);
        assert(pow_mod_spec(b, m + n) == (b * (pow_mod_spec(b, m) * pow_mod_spec(
            b,
            (n - 1) as nat,
        ))) % p) by {
            assert(pow_mod_spec(b, m + n) == mul_mod_spec(
                b as int,
                pow_mod_spec(b, (m + n - 1) as nat),
            ));
        }
        // regroup: b * (x * y) == x * (b * y)
        let x = pow_mod_spec(b, m);
        let y = pow_mod_spec(b, (n - 1) as nat);
        assert(b * (x * y) == x * (b * y)) by (nonlinear_arith);
        lemma_mul_mod_noop_general(x, b * y, p);
        assert((x * (b * y)) % p == (x * ((b * y) % p)) % p);
        assert((b * y) % p == pow_mod_spec(b, n));
    }
}

/// Iterated squaring computes the power-of-two exponent: `pow_sq_spec(b, k)`
/// is `b^(2^k)` modulo the field order.
pub proof fn lemma_pow_sq_is_pow_mod(b: u64, k: nat)
    ensures
        pow_sq_spec(b, k) == pow_mod_spec(b, pow2(k)),
    decreases k,
{
    let p = FIELD_ORDER as int;
    broadcast use vstd::arithmetic::power2::lemma_pow2_unfold;

    if k == 0 {
        vstd::arithmetic::power2::lemma2_to64();
        assert(pow_mod_spec(b, 0) == 1int % p);
        assert(1int % p == 1int);
        assert(pow_mod_spec(b, 1) == mul_mod_spec(b as int, pow_mod_spec(b, 0)));
        assert(mul_mod_spec(b as int, 1int) == (b as int * 1int) % p);
        assert(b as int * 1int == b as int);
    } else {
        lemma_pow_sq_is_pow_mod(b, (k - 1) as nat);
        let h = pow2((k - 1) as nat);
        vstd::arithmetic::power2::lemma_pow2_unfold(k);
        assert(h + h == pow2(k));
        lemma_pow_mod_add(b, h, h);
    }
}

/// Product of two field elements, reduced modulo the field order.
pub fn mul_mod(a: u64, b: u64) -> (r: u64)
    ensures
        r as int == mul_mod_spec(a as int, b as int),
        r < FIELD_ORDER,
{
    proof {
        assert((a as int) * (b as int) <= 0xffffffffffffffffint * 0xffffffffffffffffint)
            by (nonlinear_arith)
            requires
                a <= 0xffffffffffffffffu64,
                b <= 0xffffffffffffffffu64,
        ;
    }
    let wide: u128 = (a as u128) * (b as u128);
    let m: u128 = wide % (FIELD_ORDER as u128);
    proof {
        assert(m < FIELD_ORDER as u128);
        assert(wide as int == (a as int) * (b as int));
        assert(m as int == ((a as int) * (b as int)) % (FIELD_ORDER as int));
    }
    m as u64
}

/// `b^(2^k)` in the field, by `k` squarings.
pub fn pow_sq(b: u64, k: usize) -> (r: u64)
    ensures
        r as int == pow_sq_spec(b, k as nat),
        r < FIELD_ORDER,
{
    let mut cur: u64 = b % FIELD_ORDER;
    let mut i: usize = 0;
    while i < k
        invariant
            i <= k,
            cur as int == pow_sq_spec(b, i as nat),
            cur < FIELD_ORDER,
        decreases k - i,
    {
        cur = mul_mod(cur, cur);
        i = i + 1;
    }
    cur
}

/// `b^(2^k - 1)` in the field: the product `b^1 * b^2 * b^4 * ...` of the
/// first `k` iterated squares.  Used for the inverse of an `arity`-th root
/// of unity, `g^(arity - 1)`.
pub fn exp_pow2_minus_one(b: u64, k: usize) -> (r: u64)
    requires
        k < 64,
    ensures
        r as int == pow_mod_spec(b, (pow2(k as nat) - 1) as nat),
        r < FIELD_ORDER,
{
    let mut acc: u64 = 1;
    let mut cur: u64 = b % FIELD_ORDER;
    let mut j: usize = 0;
    proof {
        vstd::arithmetic::power2::lemma2_to64();
        assert(pow_mod_spec(b, 0) == 1int % (FIELD_ORDER as int));
        assert(1int % (FIELD_ORDER as int) == 1int);
    }
    while j < k
        invariant
            j <= k,
            k < 64,
            acc as int == pow_mod_spec(b, (pow2(j as nat) - 1) as nat),
            cur as int == pow_sq_spec(b, j as nat),
            acc < FIELD_ORDER,
            cur < FIELD_ORDER,
        decreases k - j,
    {
        proof {
            vstd::arithmetic::power2::lemma_pow2_pos(j as nat);
            lemma_pow_sq_is_pow_mod(b, j as nat);
            lemma_pow_mod_add(b, (pow2(j as nat) - 1) as nat, pow2(j as nat));
            vstd::arithmetic::power2::lemma_pow2_unfold((j + 1) as nat);
            assert((pow2(j as nat) - 1) + pow2(j as nat) == pow2((j + 1) as nat) - 1);
        }
        acc = mul_mod(acc, cur);
        cur = mul_mod(cur, cur);
        j = j + 1;
    }
    acc
}

/// The canonical generator of the order-`2^n_log` subgroup: the maximal
/// power-of-two generator squared `32 - n_log` times.
pub fn primitive_root_of_unity(n_log: usize) -> (r: u64)
    requires
        n_log <= TWO_ADICITY,
    ensures
        r as int == pow_sq_spec(POWER_OF_TWO_GENERATOR, (TWO_ADICITY - n_log) as nat),
        r < FIELD_ORDER,
{
    pow_sq(POWER_OF_TWO_GENERATOR, TWO_ADICITY - n_log)
}

} // verus!
