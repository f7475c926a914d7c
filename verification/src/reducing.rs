//! The running Horner accumulator for `alpha`-weighted combinations.
//!
//! `reduce` folds a value list into `v_0 + alpha v_1 + alpha^2 v_2 + ...`;
//! the accumulator counts how many powers it has consumed, and `shift`
//! multiplies a running sum by `alpha^count` and resets the count, which is
//! what lets one reduction continue across several batches instead of
//! restarting at `alpha^0` in each.

use vstd::prelude::*;

use crate::builder::CircuitBuilder;
use crate::constraint::{
    arithmetic_only, const_out, horner_result, is_base_reduction, is_fresh_reduction,
    is_horner_chain, is_power_shift, lifted_values, mul_add_out, Constraint,
};
use crate::target::{ext_ok, exts_ok, targets_ok, ExtTarget, Target};

verus! {

/// A reduction by ascending powers of a fixed extension element.
pub struct ReducingFactorTarget {
    pub base: ExtTarget,
    pub count: u64,
}

impl ReducingFactorTarget {
    pub fn new(base: ExtTarget) -> (r: Self)
        ensures
            r.base == base,
            r.count == 0,
    {
        ReducingFactorTarget { base, count: 0 }
    }

    /// Horner-folds extension values: a fresh zero start, then one
    /// multiply-add per value, highest power first, each chained on the
    /// previous out; `r` is the chain's result, and `values.len()` powers
    /// of the base are consumed.
    #[verifier::rlimit(80)]
    pub fn reduce(&mut self, values: &Vec<ExtTarget>, b: &mut CircuitBuilder) -> (r: ExtTarget)
        requires
            ext_ok(old(self).base, old(b).wire_count()),
            exts_ok(values@, old(b).wire_count()),
            old(self).count + values@.len() <= u64::MAX,
        ensures
            final(self).base == old(self).base,
            final(self).count == old(self).count + values@.len(),
            final(b).extends(*old(b)),
            final(b).wire_count() == old(b).wire_count() + 2 + 2 * values@.len(),
            is_fresh_reduction(
                final(b).appended_since(*old(b)),
                old(self).base,
                values@,
                r,
            ),
            arithmetic_only(final(b).appended_since(*old(b))),
            final(b).high_degree_interp_gates == old(b).high_degree_interp_gates,
            final(b).low_degree_interp_gates == old(b).low_degree_interp_gates,
            ext_ok(r, final(b).wire_count()),
    {
        let ghost b0 = *b;
        let mut acc = b.zero_extension();
        let ghost b1 = *b;
        let ghost start = acc;
        proof {
            let s = b1.appended_since(b0);
            assert(s[0] is Constant && s[1] is Constant);
            assert(const_out(s[0]) == start.c0 && const_out(s[1]) == start.c1);
            assert(arithmetic_only(s));
        }
        let mut i: usize = values.len();
        while i > 0
            invariant
                i <= values@.len(),
                b1.extends(b0),
                b1.appended_since(b0).len() == 2,
                b1.appended_since(b0)[0] matches Constraint::Constant { value, out } && value == 0
                    && out == start.c0,
                b1.appended_since(b0)[1] matches Constraint::Constant { value, out } && value == 0
                    && out == start.c1,
                b1.wire_count() == b0.wire_count() + 2,
                self == old(self),
                ext_ok(self.base, b1.wire_count()),
                exts_ok(values@, b0.wire_count()),
                b.extends(b1),
                b.wire_count() == b1.wire_count() + 2 * (values@.len() - i),
                is_horner_chain(b.appended_since(b1), self.base, start, values@.skip(i as int)),
                acc == horner_result(b.appended_since(b1), start),
                arithmetic_only(b.appended_since(b1)),
                b.high_degree_interp_gates == b0.high_degree_interp_gates,
                b.low_degree_interp_gates == b0.low_degree_interp_gates,
                ext_ok(acc, b.wire_count()),
            decreases i,
        {
            i = i - 1;
            let v = values[i];
            let ghost pre = *b;
            let next = b.mul_add_extension(acc, self.base, v);
            proof {
                let s = b.appended_since(b1);
                let sp = pre.appended_since(b1);
                assert(s.drop_last() =~= sp);
                assert(s.last() == (Constraint::MulAddExt {
                    a: acc,
                    b: self.base,
                    addend: v,
                    out: next,
                }));
                let ad = values@.skip(i as int);
                assert(ad.skip(1) =~= values@.skip(i + 1));
                assert(ad[0] == values@[i as int]);
                assert(is_horner_chain(s, self.base, start, ad));
                assert(arithmetic_only(s)) by {
                    assert(forall|k: int| 0 <= k < sp.len() ==> s[k] == sp[k]);
                }
            }
            acc = next;
        }
        let count_add = values.len() as u64;
        self.count = self.count + count_add;
        proof {
            CircuitBuilder::lemma_extends_transitive(b0, b1, *b);
            let t = b.appended_since(b0);
            let u = b1.appended_since(b0);
            let v = b.appended_since(b1);
            assert(t == u + v);
            assert(values@.skip(0) =~= values@);
            assert(t.skip(2) =~= v);
            assert(t[0] == u[0] && t[1] == u[1]);
            assert(crate::constraint::arithmetic_only(t)) by {
                assert(forall|k: int| 0 <= k < u.len() ==> t[k] == u[k]);
                assert(forall|k: int| u.len() <= k < t.len() ==> t[k] == v[k - u.len()]);
            }
        }
        acc
    }

    /// As [`ReducingFactorTarget::reduce`], for base-field values: a shared
    /// zero high coefficient is emitted first, and the chain's addends are
    /// exactly the given values lifted with it.
    #[verifier::rlimit(80)]
    pub fn reduce_base(&mut self, values: &Vec<Target>, b: &mut CircuitBuilder) -> (r: ExtTarget)
        requires
            ext_ok(old(self).base, old(b).wire_count()),
            targets_ok(values@, old(b).wire_count()),
            old(self).count + values@.len() <= u64::MAX,
        ensures
            final(self).base == old(self).base,
            final(self).count == old(self).count + values@.len(),
            final(b).extends(*old(b)),
            is_base_reduction(
                final(b).appended_since(*old(b)),
                old(self).base,
                values@,
                r,
            ),
            arithmetic_only(final(b).appended_since(*old(b))),
            final(b).high_degree_interp_gates == old(b).high_degree_interp_gates,
            final(b).low_degree_interp_gates == old(b).low_degree_interp_gates,
            ext_ok(r, final(b).wire_count()),
    {
        let ghost b0 = *b;
        let zero = b.constant(0);
        let ghost ba = *b;
        let mut acc = b.zero_extension();
        let ghost b1 = *b;
        let ghost start = acc;
        proof {
            CircuitBuilder::lemma_extends_transitive(b0, ba, b1);
            let s = b1.appended_since(b0);
            assert(s.len() == 3);
            assert(s[0] == ba.appended_since(b0)[0]);
            assert(s[0] == (Constraint::Constant { value: 0u64, out: zero }));
            assert(s[1] == b1.appended_since(ba)[0]);
            assert(s[2] == b1.appended_since(ba)[1]);
            assert(const_out(s[1]) == start.c0 && const_out(s[2]) == start.c1);
            assert(arithmetic_only(s));
        }
        let mut i: usize = values.len();
        while i > 0
            invariant
                i <= values@.len(),
                b1.extends(b0),
                b1.appended_since(b0).len() == 3,
                b1.appended_since(b0)[0] == (Constraint::Constant { value: 0u64, out: zero }),
                b1.appended_since(b0)[1] matches Constraint::Constant { value, out } && value == 0
                    && out == start.c0,
                b1.appended_since(b0)[2] matches Constraint::Constant { value, out } && value == 0
                    && out == start.c1,
                arithmetic_only(b1.appended_since(b0)),
                self == old(self),
                ext_ok(self.base, b1.wire_count()),
                targets_ok(values@, b0.wire_count()),
                zero.index < b1.wire_count(),
                b.extends(b1),
                is_horner_chain(
                    b.appended_since(b1),
                    self.base,
                    start,
                    lifted_values(values@.skip(i as int), zero),
                ),
                acc == horner_result(b.appended_since(b1), start),
                arithmetic_only(b.appended_since(b1)),
                b.high_degree_interp_gates == b0.high_degree_interp_gates,
                b.low_degree_interp_gates == b0.low_degree_interp_gates,
                ext_ok(acc, b.wire_count()),
            decreases i,
        {
            i = i - 1;
            let v = values[i];
            let lifted = ExtTarget { c0: v, c1: zero };
            let ghost pre = *b;
            let next = b.mul_add_extension(acc, self.base, lifted);
            proof {
                let s = b.appended_since(b1);
                let sp = pre.appended_since(b1);
                assert(s.drop_last() =~= sp);
                assert(s.last() == (Constraint::MulAddExt {
                    a: acc,
                    b: self.base,
                    addend: lifted,
                    out: next,
                }));
                let ad = lifted_values(values@.skip(i as int), zero);
                assert(ad.skip(1) =~= lifted_values(values@.skip(i + 1), zero));
                assert(ad[0] == lifted);
                assert(is_horner_chain(s, self.base, start, ad));
                assert(arithmetic_only(s)) by {
                    assert(forall|k: int| 0 <= k < sp.len() ==> s[k] == sp[k]);
                }
            }
            acc = next;
        }
        let count_add = values.len() as u64;
        self.count = self.count + count_add;
        proof {
            CircuitBuilder::lemma_extends_transitive(b0, b1, *b);
            let t = b.appended_since(b0);
            let u = b1.appended_since(b0);
            let v = b.appended_since(b1);
            assert(t == u + v);
            assert(values@.skip(0) =~= values@);
            assert(t.skip(1).skip(2) =~= v);
            assert(t.skip(1).len() == 2 + values@.len());
            assert(t[0] == u[0] && t[1] == u[1] && t[2] == u[2]);
            assert(t.skip(1)[0] == t[1] && t.skip(1)[1] == t[2]);
            assert(const_out(t.skip(1)[0]) == start.c0 && const_out(t.skip(1)[1]) == start.c1);
            assert(crate::constraint::arithmetic_only(t)) by {
                assert(forall|k: int| 0 <= k < u.len() ==> t[k] == u[k]);
                assert(forall|k: int| u.len() <= k < t.len() ==> t[k] == v[k - u.len()]);
            }
        }
        acc
    }

    /// Multiplies `x` by `base^count` and resets the count: the pending
    /// powers are folded into the running sum exactly once.
    pub fn shift(&mut self, x: ExtTarget, b: &mut CircuitBuilder) -> (r: ExtTarget)
        requires
            ext_ok(old(self).base, old(b).wire_count()),
            ext_ok(x, old(b).wire_count()),
        ensures
            final(self).base == old(self).base,
            final(self).count == 0,
            final(b).extends(*old(b)),
            is_power_shift(
                final(b).appended_since(*old(b)),
                old(self).base,
                old(self).count,
                x,
                r,
            ),
            arithmetic_only(final(b).appended_since(*old(b))),
            final(b).high_degree_interp_gates == old(b).high_degree_interp_gates,
            final(b).low_degree_interp_gates == old(b).low_degree_interp_gates,
            ext_ok(r, final(b).wire_count()),
    {
        let ghost b0 = *b;
        let power = b.exp_u64_extension(self.base, self.count);
        let ghost b1 = *b;
        let zero = b.zero_extension();
        let ghost b2 = *b;
        let r = b.mul_add_extension(power, x, zero);
        self.count = 0;
        proof {
            CircuitBuilder::lemma_extends_transitive(b0, b1, b2);
            CircuitBuilder::lemma_extends_transitive(b0, b2, *b);
            let t = b.appended_since(b0);
            assert(t.len() == 4);
            assert(t[0] == b1.appended_since(b0)[0]);
            assert(t[1] == b2.appended_since(b1)[0]);
            assert(t[2] == b2.appended_since(b1)[1]);
            assert(t[3] == b.appended_since(b2)[0]);
            assert(t[3] == (Constraint::MulAddExt { a: power, b: x, addend: zero, out: r }));
            assert(const_out(t[1]) == zero.c0 && const_out(t[2]) == zero.c1);
            assert(crate::constraint::arithmetic_only(t));
        }
        r
    }
}

} // verus!
