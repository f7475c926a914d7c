//! The in-circuit Fiat–Shamir transcript.
//!
//! The challenger records every observed wire, in order, and derives each
//! pseudo-random challenge as a fresh wire whose defining constraint names
//! the complete observed history and the draw counter.  A challenge is
//! therefore a function of the transcript state alone, which is what makes
//! two verifications of identical inputs derive identical challenges.

use vstd::prelude::*;

use crate::builder::CircuitBuilder;
use crate::constraint::Constraint;
use crate::fri_proof::{FriOpeningBatchTarget, FriOpeningsTarget, MerkleCapTarget};
use crate::target::{copy_vec, ext_ok, hash_ok, target_ok, ExtTarget, HashOutTarget, Target};

verus! {

/// The four wires of a digest, in order.
pub open spec fn digest_elements(h: HashOutTarget) -> Seq<Target> {
    seq![h.e0, h.e1, h.e2, h.e3]
}

/// The wires of a sequence of extension values, coefficients in order.
pub open spec fn ext_elements(s: Seq<ExtTarget>) -> Seq<Target>
    decreases s.len(),
{
    if s.len() == 0 {
        Seq::empty()
    } else {
        ext_elements(s.drop_last()) + seq![s.last().c0, s.last().c1]
    }
}

/// `ext_elements` reads like a flattening: entry `2i` is value `i`'s low
/// coefficient, entry `2i + 1` its high one.
pub proof fn lemma_ext_elements_index(s: Seq<ExtTarget>)
    ensures
        ext_elements(s).len() == 2 * s.len(),
        forall|i: int|
            0 <= i < s.len() ==> ext_elements(s)[2 * i] == (#[trigger] s[i]).c0 && ext_elements(
                s,
            )[2 * i + 1] == s[i].c1,
    decreases s.len(),
{
    if s.len() > 0 {
        lemma_ext_elements_index(s.drop_last());
        assert forall|i: int| 0 <= i < s.len() implies ext_elements(s)[2 * i] == (
        #[trigger] s[i]).c0 && ext_elements(s)[2 * i + 1] == s[i].c1 by {
            if i < s.len() - 1 {
                assert(s.drop_last()[i] == s[i]);
                assert(ext_elements(s)[2 * i] == ext_elements(s.drop_last())[2 * i]);
                assert(ext_elements(s)[2 * i + 1] == ext_elements(s.drop_last())[2 * i + 1]);
            }
        }
    }
}

/// The wires of a Merkle cap, digest by digest.
pub open spec fn cap_elements(s: Seq<HashOutTarget>) -> Seq<Target>
    decreases s.len(),
{
    if s.len() == 0 {
        Seq::empty()
    } else {
        cap_elements(s.drop_last()) + digest_elements(s.last())
    }
}

/// The wires of a whole sequence of Merkle caps, cap by cap.
pub open spec fn all_caps_elements(caps: Seq<MerkleCapTarget>) -> Seq<Target>
    decreases caps.len(),
{
    if caps.len() == 0 {
        Seq::empty()
    } else {
        all_caps_elements(caps.drop_last()) + cap_elements(caps.last().digests@)
    }
}

/// The wires of a claimed opening set, batch by batch.
pub open spec fn openings_elements(bs: Seq<FriOpeningBatchTarget>) -> Seq<Target>
    decreases bs.len(),
{
    if bs.len() == 0 {
        Seq::empty()
    } else {
        openings_elements(bs.drop_last()) + ext_elements(bs.last().values@)
    }
}

/// `c` is the challenge drawn from history `history` at draw `round`,
/// materialized in wire `wire`.
pub open spec fn is_challenge_of(c: Constraint, history: Seq<Target>, round: int, wire: int) -> bool {
    c matches Constraint::Challenge { inputs, round: r, out } && inputs@ == history && r == round
        && out.index == wire
}

/// The wire a challenge constraint defines.
pub open spec fn challenge_out(c: Constraint) -> Target {
    match c {
        Constraint::Challenge { out, .. } => out,
        _ => Target { index: 0 },
    }
}

/// Transcript determinism: a challenge is a function of the observed
/// history, the draw counter and the arena position alone.  Two
/// verifications that have observed the same values, drawn the same number
/// of challenges and allocated the same wires derive the identical
/// challenge wire — the whole challenge sequence follows inductively, one
/// draw at a time.
pub proof fn lemma_transcript_determinism(
    ca: Constraint,
    cb: Constraint,
    history: Seq<Target>,
    round: int,
    wire: int,
)
    requires
        is_challenge_of(ca, history, round, wire),
        is_challenge_of(cb, history, round, wire),
    ensures
        challenge_out(ca) == challenge_out(cb),
{
}

/// The transcript state: the observed history and the number of values
/// drawn from it so far.
pub struct RecursiveChallenger {
    pub observed: Vec<Target>,
    pub num_draws: usize,
}

impl RecursiveChallenger {
    pub fn new() -> (r: Self)
        ensures
            r.observed@.len() == 0,
            r.num_draws == 0,
    {
        RecursiveChallenger { observed: Vec::new(), num_draws: 0 }
    }

    /// Commits one wire to the transcript; order-sensitive.
    pub fn observe_target(&mut self, t: Target)
        ensures
            final(self).observed@ == old(self).observed@.push(t),
            final(self).num_draws == old(self).num_draws,
    {
        self.observed.push(t);
    }

    /// Commits an extension value, low coefficient first.
    pub fn observe_extension(&mut self, e: ExtTarget)
        ensures
            final(self).observed@ == old(self).observed@ + seq![e.c0, e.c1],
            final(self).num_draws == old(self).num_draws,
    {
        self.observed.push(e.c0);
        self.observed.push(e.c1);
        proof {
            assert(final(self).observed@ =~= old(self).observed@ + seq![e.c0, e.c1]);
        }
    }

    /// Commits a list of extension values, in order.
    pub fn observe_extension_elements(&mut self, es: &Vec<ExtTarget>)
        ensures
            final(self).observed@ == old(self).observed@ + ext_elements(es@),
            final(self).num_draws == old(self).num_draws,
    {
        let mut i: usize = 0;
        while i < es.len()
            invariant
                i <= es@.len(),
                self.num_draws == old(self).num_draws,
                self.observed@ == old(self).observed@ + ext_elements(es@.subrange(0, i as int)),
            decreases es@.len() - i,
        {
            let e = es[i];
            proof {
                let pre = es@.subrange(0, i as int);
                let post = es@.subrange(0, i + 1);
                assert(post.drop_last() =~= pre);
                assert(post.last() == es@[i as int]);
            }
            self.observe_extension(e);
            proof {
                assert(self.observed@ =~= old(self).observed@ + ext_elements(
                    es@.subrange(0, i + 1),
                ));
            }
            i = i + 1;
        }
        proof {
            assert(es@.subrange(0, es@.len() as int) =~= es@);
        }
    }

    /// Commits every digest of a Merkle cap, in order.
    pub fn observe_cap(&mut self, cap: &MerkleCapTarget)
        ensures
            final(self).observed@ == old(self).observed@ + cap_elements(cap.digests@),
            final(self).num_draws == old(self).num_draws,
    {
        let mut i: usize = 0;
        while i < cap.digests.len()
            invariant
                i <= cap.digests@.len(),
                self.num_draws == old(self).num_draws,
                self.observed@ == old(self).observed@ + cap_elements(
                    cap.digests@.subrange(0, i as int),
                ),
            decreases cap.digests@.len() - i,
        {
            let h = cap.digests[i];
            proof {
                let pre = cap.digests@.subrange(0, i as int);
                let post = cap.digests@.subrange(0, i + 1);
                assert(post.drop_last() =~= pre);
                assert(post.last() == cap.digests@[i as int]);
            }
            self.observed.push(h.e0);
            self.observed.push(h.e1);
            self.observed.push(h.e2);
            self.observed.push(h.e3);
            proof {
                assert(self.observed@ =~= old(self).observed@ + cap_elements(
                    cap.digests@.subrange(0, i + 1),
                ));
            }
            i = i + 1;
        }
        proof {
            assert(cap.digests@.subrange(0, cap.digests@.len() as int) =~= cap.digests@);
        }
    }

    /// Commits a whole claimed opening set, batch by batch.
    pub fn observe_openings(&mut self, os: &FriOpeningsTarget)
        ensures
            final(self).observed@ == old(self).observed@ + openings_elements(os.batches@),
            final(self).num_draws == old(self).num_draws,
    {
        let mut i: usize = 0;
        while i < os.batches.len()
            invariant
                i <= os.batches@.len(),
                self.num_draws == old(self).num_draws,
                self.observed@ == old(self).observed@ + openings_elements(
                    os.batches@.subrange(0, i as int),
                ),
            decreases os.batches@.len() - i,
        {
            proof {
                let pre = os.batches@.subrange(0, i as int);
                let post = os.batches@.subrange(0, i + 1);
                assert(post.drop_last() =~= pre);
                assert(post.last() == os.batches@[i as int]);
            }
            self.observe_extension_elements(&os.batches[i].values);
            proof {
                assert(self.observed@ =~= old(self).observed@ + openings_elements(
                    os.batches@.subrange(0, i + 1),
                ));
            }
            i = i + 1;
        }
        proof {
            assert(os.batches@.subrange(0, os.batches@.len() as int) =~= os.batches@);
        }
    }

    /// Draws one pseudo-random challenge: a fresh wire whose defining
    /// constraint names the observed history and the draw counter.
    pub fn get_challenge(&mut self, b: &mut CircuitBuilder) -> (t: Target)
        requires
            old(self).num_draws < usize::MAX,
        ensures
            final(self).observed@ == old(self).observed@,
            final(self).num_draws == old(self).num_draws + 1,
            final(b).extends(*old(b)),
            final(b).wire_count() == old(b).wire_count() + 1,
            final(b).appended_since(*old(b)).len() == 1,
            is_challenge_of(
                final(b).appended_since(*old(b))[0],
                old(self).observed@,
                old(self).num_draws as int,
                old(b).wire_count() as int,
            ),
            final(b).high_degree_interp_gates == old(b).high_degree_interp_gates,
            final(b).low_degree_interp_gates == old(b).low_degree_interp_gates,
            t.index == old(b).wire_count(),
            target_ok(t, final(b).wire_count()),
    {
        let inputs = copy_vec(&self.observed);
        let t = b.add_virtual_target();
        b.constraints.push(Constraint::Challenge { inputs, round: self.num_draws, out: t });
        self.num_draws = self.num_draws + 1;
        proof {
            assert(final(b).appended_since(*old(b)) =~= seq![
                Constraint::Challenge {
                    inputs: inputs,
                    round: old(self).num_draws as usize,
                    out: t,
                },
            ]);
        }
        t
    }

    /// Draws an extension-field challenge: one challenge per coefficient.
    pub fn get_extension_challenge(&mut self, b: &mut CircuitBuilder) -> (e: ExtTarget)
        requires
            old(self).num_draws + 2 <= usize::MAX,
        ensures
            final(self).observed@ == old(self).observed@,
            final(self).num_draws == old(self).num_draws + 2,
            final(b).extends(*old(b)),
            final(b).wire_count() == old(b).wire_count() + 2,
            final(b).appended_since(*old(b)).len() == 2,
            is_challenge_of(
                final(b).appended_since(*old(b))[0],
                old(self).observed@,
                old(self).num_draws as int,
                old(b).wire_count() as int,
            ),
            is_challenge_of(
                final(b).appended_since(*old(b))[1],
                old(self).observed@,
                old(self).num_draws + 1,
                old(b).wire_count() + 1int,
            ),
            final(b).high_degree_interp_gates == old(b).high_degree_interp_gates,
            final(b).low_degree_interp_gates == old(b).low_degree_interp_gates,
            e.c0.index == old(b).wire_count(),
            e.c1.index == old(b).wire_count() + 1,
            ext_ok(e, final(b).wire_count()),
    {
        let ghost b0 = *b;
        let c0 = self.get_challenge(b);
        let ghost b1 = *b;
        let c1 = self.get_challenge(b);
        proof {
            CircuitBuilder::lemma_extends_transitive(b0, b1, *b);
        }
        ExtTarget { c0, c1 }
    }

    /// Materializes the current transcript state as a digest, for hashing
    /// together with auxiliary witnesses.
    pub fn get_hash(&mut self, b: &mut CircuitBuilder) -> (h: HashOutTarget)
        requires
            old(self).num_draws < usize::MAX,
        ensures
            final(self).observed@ == old(self).observed@,
            final(self).num_draws == old(self).num_draws + 1,
            final(b).extends(*old(b)),
            final(b).wire_count() == old(b).wire_count() + 4,
            final(b).appended_since(*old(b)).len() == 1,
            final(b).appended_since(*old(b))[0] matches Constraint::TranscriptHash {
                inputs,
                round,
                out,
            } && inputs@ == old(self).observed@ && round == old(self).num_draws && out == h,
            final(b).high_degree_interp_gates == old(b).high_degree_interp_gates,
            final(b).low_degree_interp_gates == old(b).low_degree_interp_gates,
            hash_ok(h, final(b).wire_count()),
    {
        let inputs = copy_vec(&self.observed);
        let e0 = b.add_virtual_target();
        let e1 = b.add_virtual_target();
        let e2 = b.add_virtual_target();
        let e3 = b.add_virtual_target();
        let h = HashOutTarget { e0, e1, e2, e3 };
        b.constraints.push(
            Constraint::TranscriptHash { inputs, round: self.num_draws, out: h },
        );
        self.num_draws = self.num_draws + 1;
        proof {
            assert(final(b).appended_since(*old(b)) =~= seq![
                Constraint::TranscriptHash {
                    inputs: inputs,
                    round: old(self).num_draws as usize,
                    out: h,
                },
            ]);
        }
        h
    }
}

} // verus!
