//! Little-endian bit decompositions and bit reversals of indices.
//!
//! Query indices are decomposed into their low-order bits, and coset
//! evaluations are stored in bit-reversed order; this module carries the
//! arithmetic those manipulations rest on, including the round-trip law:
//! recomposing the produced bits (low bit first) gives back the original
//! value modulo the field order.

use vstd::arithmetic::div_mod::{lemma_breakdown, lemma_div_denominator, lemma_small_mod};
use vstd::arithmetic::power2::{lemma2_to64, lemma2_to64_rest, lemma_pow2_pos, lemma_pow2_unfold, pow2};
use vstd::prelude::*;

use crate::field::FIELD_ORDER;

verus! {

/// Bit `i` of `x`, low bit first.
pub open spec fn bit_of(x: u64, i: nat) -> bool {
    ((x as int) / (pow2(i) as int)) % 2 == 1
}

/// The low `n` bits of `x`, low bit first.
pub open spec fn bits_of(x: u64, n: nat) -> Seq<bool> {
    Seq::new(n, |i: int| bit_of(x, i as nat))
}

/// The integer written by a bit sequence, low bit first.
pub open spec fn recompose(bits: Seq<bool>) -> int
    decreases bits.len(),
{
    if bits.len() == 0 {
        0
    } else {
        (if bits[0] {
            1int
        } else {
            0int
        }) + 2 * recompose(bits.drop_first())
    }
}

/// Recomposing the low `n` bits of `x` gives back `x` modulo `2^n`.
pub proof fn lemma_recompose_bits_of(x: u64, n: nat)
    ensures
        recompose(bits_of(x, n)) == (x as int) % (pow2(n) as int),
    decreases n,
{
    lemma_pow2_pos(n);
    if n == 0 {
        lemma2_to64();
        assert((x as int) % 1int == 0);
    } else {
        let m = (n - 1) as nat;
        let h: u64 = x / 2;
        lemma_recompose_bits_of(h, m);
        assert(bits_of(x, n).drop_first() =~= bits_of(h, m)) by {
            assert forall|j: int| 0 <= j < m implies bits_of(x, n).drop_first()[j] == bits_of(
                h,
                m,
            )[j] by {
                lemma_pow2_pos(j as nat);
                lemma_div_denominator(x as int, 2int, pow2(j as nat) as int);
                lemma_pow2_unfold((j + 1) as nat);
                assert((h as int) / (pow2(j as nat) as int) == (x as int) / (pow2(
                    (j + 1) as nat,
                ) as int));
            }
        }
        assert(bits_of(x, n)[0] == bit_of(x, 0));
        lemma2_to64();
        assert(bit_of(x, 0) == ((x as int) % 2 == 1));
        lemma_pow2_pos(m);
        lemma_breakdown(x as int, 2int, pow2(m) as int);
        lemma_pow2_unfold(n);
        assert((x as int) % (pow2(n) as int) == 2 * (((x as int) / 2) % (pow2(m) as int)) + (
        x as int) % 2);
        assert((x as int) % 2 == 0 || (x as int) % 2 == 1);
        assert(recompose(bits_of(x, n)) == (if bit_of(x, 0) {
            1int
        } else {
            0int
        }) + 2 * recompose(bits_of(h, m)));
    }
}

/// The full 64-bit decomposition reproduces the decomposed value exactly,
/// hence also modulo the field order: a non-canonical encoding (the value
/// plus the field order, where that still fits in 64 bits) recomposes to
/// the same residue.
pub proof fn lemma_round_trip_mod_order(x: u64)
    ensures
        recompose(bits_of(x, 64)) == x as int,
        recompose(bits_of(x, 64)) % (FIELD_ORDER as int) == (x as int) % (FIELD_ORDER as int),
{
    lemma_recompose_bits_of(x, 64);
    lemma2_to64_rest();
    lemma_small_mod(x as nat, pow2(64));
}

/// Aliasing of the low-bits decomposition: the two encodings of a residue
/// that 64 bits permit recompose to values that agree modulo the field
/// order.
pub proof fn lemma_noncanonical_alias(x: u64, y: u64)
    requires
        y as int == x as int + FIELD_ORDER as int,
    ensures
        recompose(bits_of(y, 64)) % (FIELD_ORDER as int) == (x as int) % (FIELD_ORDER as int),
{
    lemma_round_trip_mod_order(y);
    vstd::arithmetic::div_mod::lemma_mod_multiples_vanish(1int, x as int, FIELD_ORDER as int);
}

/// The low `n` bits of `x`, as a vector, low bit first.
pub fn split_le(x: u64, n: usize) -> (r: Vec<bool>)
    ensures
        r@ == bits_of(x, n as nat),
{
    let mut r: Vec<bool> = Vec::new();
    let mut v: u64 = x;
    let mut i: usize = 0;
    proof {
        lemma2_to64();
    }
    while i < n
        invariant
            i <= n,
            r@.len() == i,
            v as int == (x as int) / (pow2(i as nat) as int),
            forall|j: int| 0 <= j < i ==> r@[j] == bit_of(x, j as nat),
        decreases n - i,
    {
        r.push(v % 2 == 1);
        proof {
            lemma_pow2_pos(i as nat);
            lemma_div_denominator(x as int, pow2(i as nat) as int, 2int);
            lemma_pow2_unfold((i + 1) as nat);
            assert(pow2((i + 1) as nat) == 2 * pow2(i as nat));
            assert((pow2(i as nat) as int) * 2 == pow2((i + 1) as nat) as int);
        }
        v = v / 2;
        i = i + 1;
    }
    proof {
        assert(r@ =~= bits_of(x, n as nat));
    }
    r
}

/// `2^k`, as a 64-bit value.
pub fn pow2_u64(k: usize) -> (r: u64)
    requires
        k < 64,
    ensures
        r as int == pow2(k as nat) as int,
{
    let mut r: u64 = 1;
    let mut i: usize = 0;
    proof {
        lemma2_to64();
    }
    while i < k
        invariant
            i <= k,
            k < 64,
            r as int == pow2(i as nat) as int,
        decreases k - i,
    {
        proof {
            lemma_pow2_unfold((i + 1) as nat);
            vstd::arithmetic::power2::lemma_pow2_strictly_increases((i + 1) as nat, 64);
            lemma2_to64_rest();
        }
        r = r * 2;
        i = i + 1;
    }
    r
}

/// `2^k`, as a length; kept within the addressable range.
pub fn pow2_usize(k: usize) -> (r: usize)
    requires
        k <= 30,
    ensures
        r as int == pow2(k as nat) as int,
{
    let mut r: usize = 1;
    let mut i: usize = 0;
    proof {
        lemma2_to64();
    }
    while i < k
        invariant
            i <= k,
            k <= 30,
            r as int == pow2(i as nat) as int,
        decreases k - i,
    {
        proof {
            lemma_pow2_unfold((i + 1) as nat);
            if i + 1 < 31 {
                vstd::arithmetic::power2::lemma_pow2_strictly_increases((i + 1) as nat, 31);
            }
            lemma2_to64();
        }
        r = r * 2;
        i = i + 1;
    }
    r
}

/// The exact base-2 logarithm of a power of two.
pub fn log2_strict(n: u64) -> (r: usize)
    requires
        exists|k: nat| k <= 63 && n as int == pow2(k) as int,
    ensures
        r <= 63,
        pow2(r as nat) as int == n as int,
{
    let ghost k0 = choose|k: nat| k <= 63 && n as int == pow2(k) as int;
    let mut m: u64 = n;
    let mut c: usize = 0;
    proof {
        lemma_pow2_pos(k0);
    }
    while m > 1
        invariant
            c <= k0 <= 63,
            m as int == pow2((k0 - c) as nat) as int,
        decreases m,
    {
        proof {
            let j = (k0 - c) as nat;
            if j == 0 {
                lemma2_to64();
                assert(m == 1);
            }
            lemma_pow2_unfold(j);
            lemma_pow2_pos((j - 1) as nat);
        }
        m = m / 2;
        c = c + 1;
    }
    proof {
        let j = (k0 - c) as nat;
        if j > 0 {
            lemma_pow2_unfold(j);
            lemma_pow2_pos((j - 1) as nat);
            assert(pow2(j) >= 2);
        }
        assert(j == 0);
        lemma2_to64();
    }
    c
}

/// The value of `i` with its low `n` bits written in the opposite order.
pub open spec fn rev_bits(i: int, n: nat) -> int
    decreases n,
{
    if n == 0 {
        0
    } else {
        (i % 2) * (pow2((n - 1) as nat) as int) + rev_bits(i / 2, (n - 1) as nat)
    }
}

pub proof fn lemma_rev_bits_bound(i: int, n: nat)
    requires
        i >= 0,
    ensures
        0 <= rev_bits(i, n) < pow2(n) as int,
    decreases n,
{
    lemma_pow2_pos(n);
    if n == 0 {
        lemma2_to64();
    } else {
        let m = (n - 1) as nat;
        lemma_rev_bits_bound(i / 2, m);
        lemma_pow2_pos(m);
        lemma_pow2_unfold(n);
        assert(i % 2 == 0 || i % 2 == 1);
        assert((i % 2) * (pow2(m) as int) <= pow2(m) as int) by {
            assert(0 * (pow2(m) as int) == 0);
            assert(1 * (pow2(m) as int) == pow2(m) as int);
        }
    }
}

/// Appending one more bit to the reversal shifts the reversal left and
/// brings in bit `n` as the new low bit.
pub proof fn lemma_rev_bits_step(i: int, n: nat)
    requires
        i >= 0,
    ensures
        rev_bits(i, n + 1) == 2 * rev_bits(i, n) + ((i / (pow2(n) as int)) % 2),
    decreases n,
{
    lemma_pow2_pos(n);
    if n == 0 {
        lemma2_to64();
        assert(rev_bits(i, 1) == (i % 2) * (pow2(0) as int) + rev_bits(i / 2, 0));
        assert(rev_bits(i / 2, 0) == 0);
        assert(rev_bits(i, 0) == 0);
        assert(i / (pow2(0) as int) == i);
    } else {
        let m = (n - 1) as nat;
        lemma_rev_bits_step(i / 2, m);
        lemma_pow2_pos(m);
        lemma_div_denominator(i, 2int, pow2(m) as int);
        lemma_pow2_unfold(n);
        assert((i / 2) / (pow2(m) as int) == i / (pow2(n) as int));
        assert(rev_bits(i, n + 1) == (i % 2) * (pow2(n) as int) + rev_bits(i / 2, n));
        assert(rev_bits(i / 2, n) == 2 * rev_bits(i / 2, m) + ((i / 2) / (pow2(m) as int)) % 2);
        assert((i % 2) * (pow2(n) as int) == 2 * ((i % 2) * (pow2(m) as int))) by {
            assert(pow2(n) as int == 2 * (pow2(m) as int));
            assert((i % 2) * (2 * (pow2(m) as int)) == 2 * ((i % 2) * (pow2(m) as int)))
                by (nonlinear_arith);
        }
        assert(rev_bits(i, n) == (i % 2) * (pow2(m) as int) + rev_bits(i / 2, m));
    }
}

/// `i` with its low `n` bits reversed.
pub fn reverse_bits(i: usize, n: usize) -> (r: usize)
    requires
        n <= 32,
        (i as int) < pow2(n as nat) as int,
    ensures
        r as int == rev_bits(i as int, n as nat),
        (r as int) < pow2(n as nat) as int,
{
    let mut r: usize = 0;
    let mut v: usize = i;
    let mut j: usize = 0;
    proof {
        lemma2_to64();
    }
    while j < n
        invariant
            j <= n,
            n <= 32,
            v as int == (i as int) / (pow2(j as nat) as int),
            r as int == rev_bits(i as int, j as nat),
            (r as int) < pow2(j as nat) as int,
        decreases n - j,
    {
        proof {
            lemma_rev_bits_step(i as int, j as nat);
            lemma_pow2_pos(j as nat);
            lemma_div_denominator(i as int, pow2(j as nat) as int, 2int);
            lemma_pow2_unfold((j + 1) as nat);
            assert((pow2(j as nat) as int) * 2 == pow2((j + 1) as nat) as int);
            if j + 1 <= 32 {
                vstd::arithmetic::power2::lemma_pow2_adds(j as nat, (32 - j - 1) as nat);
                lemma_pow2_pos((32 - j - 1) as nat);
                assert(pow2((j + 1) as nat) <= pow2(32)) by {
                    if j + 1 < 32 {
                        vstd::arithmetic::power2::lemma_pow2_strictly_increases(
                            (j + 1) as nat,
                            32,
                        );
                    }
                }
                lemma2_to64();
            }
            lemma_rev_bits_bound(i as int, (j + 1) as nat);
        }
        r = r * 2 + (v % 2);
        v = v / 2;
        j = j + 1;
    }
    r
}

} // verus!
