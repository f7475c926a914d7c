//! Out-of-circuit meaning of the proof-of-work check.
//!
//! The verifier emits a single leading-zeros constraint (see
//! `Constraint::LeadingZeros`): the hash of the transcript state and the
//! witness, read as a 64-bit string, must start with at least the
//! configured number of zero bits.  This module states what satisfying
//! that constraint means for a concrete hash value, and the monotonicity
//! the threshold obeys.

use vstd::arithmetic::power2::{lemma2_to64, lemma2_to64_rest, pow2};
use vstd::prelude::*;

use crate::bits::pow2_u64;

verus! {

/// A 64-bit hash value has at least `zeros` leading zero bits exactly when
/// it is below `2^(64 - zeros)`.
pub open spec fn pow_hash_accepts(hash: u64, zeros: u32) -> bool {
    (hash as int) < pow2((64 - zeros) as nat) as int
}

/// Decides [`pow_hash_accepts`].
pub fn satisfies_leading_zeros(hash: u64, zeros: u32) -> (r: bool)
    requires
        zeros <= 64,
    ensures
        r == pow_hash_accepts(hash, zeros),
{
    if zeros == 0 {
        proof {
            lemma2_to64_rest();
        }
        true
    } else {
        let threshold = pow2_u64(64 - (zeros as usize));
        hash < threshold
    }
}

/// Lowering the required work never rejects a previously accepted witness.
pub proof fn lemma_pow_monotonic_down(hash: u64, lower: u32, higher: u32)
    requires
        lower <= higher <= 64,
        pow_hash_accepts(hash, higher),
    ensures
        pow_hash_accepts(hash, lower),
{
    if lower < higher {
        vstd::arithmetic::power2::lemma_pow2_strictly_increases(
            (64 - higher) as nat,
            (64 - lower) as nat,
        );
    }
}

/// Raising the required work eventually rejects any witness whose hash is
/// not identically zero: at 64 required bits only the zero hash passes.
/// (A witness hashing to zero is accepted at every threshold, so it is the
/// one value the rejection half cannot cover.)
pub proof fn lemma_pow_eventually_rejects(hash: u64)
    requires
        hash > 0,
    ensures
        !pow_hash_accepts(hash, 64),
{
    lemma2_to64();
}

} // verus!
