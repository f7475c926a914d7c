//! Merkle re-authentication against a truncated cap.
//!
//! The leaf data is hashed down to a digest, then combined with each
//! sibling bottom-up — the index bit of the level choosing left or right —
//! and the resulting digest is constrained to equal the cap entry the
//! index's high bits select.

use vstd::prelude::*;

use crate::builder::CircuitBuilder;
use crate::constraint::{count_cap_selects, hash_out_of, Constraint};
use crate::fri_proof::{MerkleCapTarget, MerkleProofTarget};
use crate::target::{bools_ok, copy_vec, hash_ok, hashes_ok, target_ok, targets_ok, BoolTarget, Target};

verus! {

/// A complete Merkle re-authentication standing at offset `k` of `s`: the
/// hash of exactly `leaf`, folded up through `siblings` (left or right
/// chosen by the matching index bit, each step hashing the previous
/// step's digest), and the equality of the resulting digest with the
/// `cap_index` entry of `cap`.
pub open spec fn is_merkle_check(
    s: Seq<Constraint>,
    k: int,
    leaf: Seq<Target>,
    index_bits: Seq<BoolTarget>,
    cap_index: Target,
    cap: Seq<crate::target::HashOutTarget>,
    siblings: Seq<crate::target::HashOutTarget>,
) -> bool {
    let n = siblings.len() as int;
    &&& 0 <= k
    &&& k + n + 2 <= s.len()
    &&& n <= index_bits.len()
    &&& (s[k] matches Constraint::HashLeaf { inputs, out } && inputs@ == leaf)
    &&& forall|j: int|
        0 <= j < n ==> (#[trigger] s[k + 1 + j] matches Constraint::HashPair {
            swap,
            current,
            sibling,
            out,
        } && swap == index_bits[j] && sibling == siblings[j] && current == hash_out_of(s[k + j]))
    &&& (s[k + n + 1] matches Constraint::CapSelect { index, claimed, cap: c2 } && index
        == cap_index && c2@ == cap && claimed == hash_out_of(s[k + n]))
}

/// A Merkle check speaks only of fixed positions, so it carries over to
/// any sequence that holds the same constraints at an offset — in
/// particular to any extension of the same sequence.
pub proof fn lemma_merkle_check_embed(
    seg: Seq<Constraint>,
    t: Seq<Constraint>,
    off: int,
    leaf: Seq<Target>,
    index_bits: Seq<BoolTarget>,
    cap_index: Target,
    cap: Seq<crate::target::HashOutTarget>,
    siblings: Seq<crate::target::HashOutTarget>,
)
    requires
        is_merkle_check(seg, 0, leaf, index_bits, cap_index, cap, siblings),
        0 <= off,
        off + seg.len() <= t.len(),
        forall|k: int| 0 <= k < seg.len() ==> t[off + k] == seg[k],
        seg.len() == siblings.len() + 2,
    ensures
        is_merkle_check(t, off, leaf, index_bits, cap_index, cap, siblings),
{
    let n = siblings.len() as int;
    assert(t[off] == seg[0]);
    assert forall|j: int| 0 <= j < n implies (#[trigger] t[off + 1 + j]
        matches Constraint::HashPair { swap, current, sibling, out } && swap == index_bits[j]
        && sibling == siblings[j] && current == hash_out_of(t[off + j])) by {
        assert(t[off + 1 + j] == seg[1 + j]);
        assert(t[off + j] == seg[j]);
    }
    assert(t[off + n + 1] == seg[n + 1]);
    assert(t[off + n] == seg[n]);
}

/// As [`lemma_merkle_check_embed`], for a prefix-preserving extension.
pub proof fn lemma_merkle_check_extends(
    u: Seq<Constraint>,
    t: Seq<Constraint>,
    k: int,
    leaf: Seq<Target>,
    index_bits: Seq<BoolTarget>,
    cap_index: Target,
    cap: Seq<crate::target::HashOutTarget>,
    siblings: Seq<crate::target::HashOutTarget>,
)
    requires
        is_merkle_check(u, k, leaf, index_bits, cap_index, cap, siblings),
        t.len() >= u.len(),
        forall|j: int| 0 <= j < u.len() ==> t[j] == u[j],
    ensures
        is_merkle_check(t, k, leaf, index_bits, cap_index, cap, siblings),
{
    let n = siblings.len() as int;
    assert(t[k] == u[k]);
    assert forall|j: int| 0 <= j < n implies (#[trigger] t[k + 1 + j]
        matches Constraint::HashPair { swap, current, sibling, out } && swap == index_bits[j]
        && sibling == siblings[j] && current == hash_out_of(t[k + j])) by {
        assert(t[k + 1 + j] == u[k + 1 + j]);
        assert(t[k + j] == u[k + j]);
    }
    assert(t[k + n + 1] == u[k + n + 1]);
    assert(t[k + n] == u[k + n]);
}

impl CircuitBuilder {
    /// Recomputes the path hash bottom-up from `leaf_data` along
    /// `proof.siblings`, ordered by the low index bits, and constrains the
    /// result to equal `cap[cap_index]`.
    pub fn verify_merkle_proof_with_cap_index(
        &mut self,
        leaf_data: &Vec<Target>,
        index_bits: &Vec<BoolTarget>,
        cap_index: Target,
        cap: &MerkleCapTarget,
        proof: &MerkleProofTarget,
    )
        requires
            targets_ok(leaf_data@, old(self).wire_count()),
            bools_ok(index_bits@, old(self).wire_count()),
            target_ok(cap_index, old(self).wire_count()),
            hashes_ok(cap.digests@, old(self).wire_count()),
            hashes_ok(proof.siblings@, old(self).wire_count()),
            proof.siblings@.len() <= index_bits@.len(),
        ensures
            final(self).extends(*old(self)),
            final(self).wire_count() == old(self).wire_count() + 4 * (proof.siblings@.len() + 1),
            final(self).appended_since(*old(self)).len() == proof.siblings@.len() + 2,
            final(self).appended_since(*old(self))[0] matches Constraint::HashLeaf {
                inputs,
                out,
            } && inputs@ == leaf_data@,
            forall|j: int|
                0 <= j < proof.siblings@.len() ==> (#[trigger] final(self).appended_since(
                    *old(self),
                )[j + 1] matches Constraint::HashPair { swap, current, sibling, out } && swap
                    == index_bits@[j] && sibling == proof.siblings@[j] && current == hash_out_of(
                    final(self).appended_since(*old(self))[j],
                )),
            final(self).appended_since(*old(self)).last() matches Constraint::CapSelect {
                index,
                claimed,
                cap: c2,
            } && index == cap_index && c2@ == cap.digests@ && claimed == hash_out_of(
                final(self).appended_since(*old(self))[
                final(self).appended_since(*old(self)).len() - 2],
            ),
            is_merkle_check(
                final(self).appended_since(*old(self)),
                0,
                leaf_data@,
                index_bits@,
                cap_index,
                cap.digests@,
                proof.siblings@,
            ),
            count_cap_selects(final(self).appended_since(*old(self))) == 1,
            crate::constraint::count_challenges(final(self).appended_since(*old(self))) == 0,
            crate::constraint::count_connects(final(self).appended_since(*old(self))) == 0,
            crate::constraint::count_leading_zeros(final(self).appended_since(*old(self))) == 0,
            crate::constraint::count_decompositions(final(self).appended_since(*old(self))) == 0,
            final(self).high_degree_interp_gates == old(self).high_degree_interp_gates,
            final(self).low_degree_interp_gates == old(self).low_degree_interp_gates,
    {
        let lc = copy_vec(leaf_data);
        let mut state = self.alloc_derived_hash();
        self.constraints.push(Constraint::HashLeaf { inputs: lc, out: state });
        let ghost b1 = *self;
        proof {
            assert(b1.appended_since(*old(self)) =~= seq![
                Constraint::HashLeaf { inputs: lc, out: state },
            ]);
            assert(count_cap_selects(b1.appended_since(*old(self))) == 0) by {
                let s = b1.appended_since(*old(self));
                assert(s.len() == 1);
                assert(s[0] == (Constraint::HashLeaf { inputs: lc, out: state }));
                assert(!(s.last() is CapSelect));
                assert(s.drop_last() =~= Seq::<Constraint>::empty());
                assert(count_cap_selects(Seq::<Constraint>::empty()) == 0);
                assert(count_cap_selects(s) == count_cap_selects(s.drop_last()));
            }
            assert(crate::constraint::count_challenges(b1.appended_since(*old(self))) == 0
                && crate::constraint::count_connects(b1.appended_since(*old(self))) == 0
                && crate::constraint::count_leading_zeros(b1.appended_since(*old(self))) == 0
                && crate::constraint::count_decompositions(b1.appended_since(*old(self))) == 0) by {
                let s = b1.appended_since(*old(self));
                assert(s.drop_last() =~= Seq::<Constraint>::empty());
                assert(crate::constraint::count_challenges(Seq::<Constraint>::empty()) == 0);
                assert(crate::constraint::count_connects(Seq::<Constraint>::empty()) == 0);
                assert(crate::constraint::count_leading_zeros(Seq::<Constraint>::empty()) == 0);
                assert(crate::constraint::count_decompositions(Seq::<Constraint>::empty()) == 0);
                assert(!(s.last() is Challenge) && !(s.last() is ConnectExt) && !(s.last()
                    is LeadingZeros) && !(s.last() is BitDecompose));
            }
        }
        let mut j: usize = 0;
        while j < proof.siblings.len()
            invariant
                j <= proof.siblings@.len(),
                proof.siblings@.len() <= index_bits@.len(),
                bools_ok(index_bits@, b1.wire_count()),
                hashes_ok(proof.siblings@, b1.wire_count()),
                b1.extends(*old(self)),
                b1.appended_since(*old(self)).len() == 1,
                b1.wire_count() == old(self).wire_count() + 4,
                self.extends(b1),
                self.wire_count() == b1.wire_count() + 4 * j,
                self.appended_since(b1).len() == j,
                hash_ok(state, self.wire_count()),
                state == (if j == 0 {
                    hash_out_of(b1.appended_since(*old(self))[0])
                } else {
                    hash_out_of(self.appended_since(b1)[j - 1])
                }),
                forall|k: int|
                    0 <= k < j ==> (#[trigger] self.appended_since(b1)[k]
                        matches Constraint::HashPair { swap, current, sibling, out } && current
                        == (if k == 0 {
                        hash_out_of(b1.appended_since(*old(self))[0])
                    } else {
                        hash_out_of(self.appended_since(b1)[k - 1])
                    })),
                count_cap_selects(self.appended_since(b1)) == 0,
                crate::constraint::count_challenges(self.appended_since(b1)) == 0,
                crate::constraint::count_connects(self.appended_since(b1)) == 0,
                crate::constraint::count_leading_zeros(self.appended_since(b1)) == 0,
                crate::constraint::count_decompositions(self.appended_since(b1)) == 0,
                forall|k: int|
                    0 <= k < j ==> (#[trigger] self.appended_since(b1)[k]
                        matches Constraint::HashPair { swap, current, sibling, out } && swap
                        == index_bits@[k] && sibling == proof.siblings@[k]),
                self.high_degree_interp_gates == old(self).high_degree_interp_gates,
                self.low_degree_interp_gates == old(self).low_degree_interp_gates,
            decreases proof.siblings@.len() - j,
        {
            let sib = proof.siblings[j];
            let bit = index_bits[j];
            let ghost pre = *self;
            let out = self.alloc_derived_hash();
            self.constraints.push(
                Constraint::HashPair { swap: bit, current: state, sibling: sib, out },
            );
            proof {
                let s = self.appended_since(b1);
                assert(s =~= pre.appended_since(b1).push(
                    Constraint::HashPair { swap: bit, current: state, sibling: sib, out },
                ));
                assert(s.drop_last() =~= pre.appended_since(b1));
            }
            state = out;
            j = j + 1;
        }
        let c2 = copy_vec(&cap.digests);
        let ghost pre = *self;
        self.constraints.push(Constraint::CapSelect { index: cap_index, claimed: state, cap: c2 });
        proof {
            let s = self.appended_since(b1);
            assert(s =~= pre.appended_since(b1).push(
                Constraint::CapSelect { index: cap_index, claimed: state, cap: c2 },
            ));
            assert(s.drop_last() =~= pre.appended_since(b1));
            CircuitBuilder::lemma_extends_transitive(*old(self), b1, *self);
            let t = self.appended_since(*old(self));
            assert(t == b1.appended_since(*old(self)) + s);
            crate::constraint::lemma_counts_concat(b1.appended_since(*old(self)), s);
            assert(t.last() == s.last());
            assert forall|k: int| 0 <= k < proof.siblings@.len() implies (#[trigger] t[k + 1]
                matches Constraint::HashPair { swap, current, sibling, out } && swap
                == index_bits@[k] && sibling == proof.siblings@[k] && current == hash_out_of(
                t[k],
            )) by {
                assert(t[k + 1] == s[k]);
                if k > 0 {
                    assert(t[k] == s[k - 1]);
                } else {
                    assert(t[0] == b1.appended_since(*old(self))[0]);
                }
            }
            assert(t[t.len() - 2] == (if proof.siblings@.len() == 0 {
                b1.appended_since(*old(self))[0]
            } else {
                s[s.len() - 2]
            }));
            assert(state == hash_out_of(t[t.len() - 2]));
        }
    }
}

} // verus!
