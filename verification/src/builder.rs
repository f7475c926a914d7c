//! The constraint arena and the elementary gadgets that grow it.
//!
//! A [`CircuitBuilder`] exclusively owns a wire arena and the list of
//! emitted constraints.  Every gadget appends to both and never removes or
//! rewrites anything: the contracts below pin exactly which constraint each
//! gadget appends and which fresh wires it allocates, so a whole
//! verification is a deterministic function of the builder state it starts
//! from.

use vstd::prelude::*;

use crate::config::CircuitConfig;
use crate::constraint::Constraint;
use crate::field::{mul_mod, pow_sq_spec, FIELD_ORDER};
use crate::target::{
    bool_ok, bools_ok, copy_vec, ext_ok, exts_ok, hash_ok, hashes_ok, target_ok, targets_ok,
    BoolTarget, ExtTarget, HashOutTarget, Target,
};

verus! {

/// How a wire came to exist: assigned from outside the circuit, or defined
/// by the constraint that produced it.
#[derive(Clone, Copy, PartialEq, Eq, Structural, Debug)]
pub enum WireOrigin {
    Virtual,
    Derived,
}

/// The exclusively owned build context: wire arena, constraint list, and
/// the row counters of the two interpolation strategies.
pub struct CircuitBuilder {
    pub config: CircuitConfig,
    pub wires: Vec<WireOrigin>,
    pub constraints: Vec<Constraint>,
    /// Rounds folded with the single-gate, higher-degree strategy.
    pub high_degree_interp_gates: usize,
    /// Rounds folded with the lower-degree, more-gates strategy.
    pub low_degree_interp_gates: usize,
}

impl CircuitBuilder {
    /// Number of wires allocated so far.
    pub open spec fn wire_count(self) -> nat {
        self.wires@.len()
    }

    /// The arena only grows: everything `pre` held is still there,
    /// unchanged, and the configuration is untouched.
    pub open spec fn extends(self, pre: Self) -> bool {
        &&& self.config == pre.config
        &&& pre.wires@.is_prefix_of(self.wires@)
        &&& pre.constraints@.is_prefix_of(self.constraints@)
    }

    /// The constraints emitted since `pre`.
    pub open spec fn appended_since(self, pre: Self) -> Seq<Constraint> {
        self.constraints@.skip(pre.constraints@.len() as int)
    }

    pub proof fn lemma_extends_transitive(a: Self, b: Self, c: Self)
        requires
            b.extends(a),
            c.extends(b),
        ensures
            c.extends(a),
            c.appended_since(a) == b.appended_since(a) + c.appended_since(b),
    {
        assert(a.constraints@.is_prefix_of(c.constraints@));
        assert(a.wires@.is_prefix_of(c.wires@));
        let al = a.constraints@.len() as int;
        let bl = b.constraints@.len() as int;
        assert(c.appended_since(a) =~= b.appended_since(a) + c.appended_since(b)) by {
            assert forall|i: int| 0 <= i < c.constraints@.len() - al implies c.appended_since(a)[i]
                == (b.appended_since(a) + c.appended_since(b))[i] by {
                if i < bl - al {
                    assert(b.constraints@[al + i] == c.constraints@[al + i]);
                }
            }
        }
    }

    pub fn new(config: CircuitConfig) -> (r: Self)
        ensures
            r.config == config,
            r.wire_count() == 0,
            r.constraints@.len() == 0,
            r.high_degree_interp_gates == 0,
            r.low_degree_interp_gates == 0,
    {
        CircuitBuilder {
            config,
            wires: Vec::new(),
            constraints: Vec::new(),
            high_degree_interp_gates: 0,
            low_degree_interp_gates: 0,
        }
    }

    /// A fresh wire whose value the surrounding system must assign.
    pub fn add_virtual_target(&mut self) -> (t: Target)
        ensures
            final(self).extends(*old(self)),
            final(self).wire_count() == old(self).wire_count() + 1,
            final(self).constraints@ == old(self).constraints@,
            final(self).high_degree_interp_gates == old(self).high_degree_interp_gates,
            final(self).low_degree_interp_gates == old(self).low_degree_interp_gates,
            t.index == old(self).wire_count(),
    {
        let index = self.wires.len();
        self.wires.push(WireOrigin::Virtual);
        Target { index }
    }

    /// A fresh extension value made of two virtual wires.
    pub fn add_virtual_ext(&mut self) -> (e: ExtTarget)
        ensures
            final(self).extends(*old(self)),
            final(self).wire_count() == old(self).wire_count() + 2,
            final(self).constraints@ == old(self).constraints@,
            e.c0.index == old(self).wire_count(),
            e.c1.index == old(self).wire_count() + 1,
            ext_ok(e, final(self).wire_count()),
    {
        let c0 = self.add_virtual_target();
        let c1 = self.add_virtual_target();
        ExtTarget { c0, c1 }
    }

    /// A fresh digest made of four virtual wires.
    pub fn add_virtual_hash(&mut self) -> (h: HashOutTarget)
        ensures
            final(self).extends(*old(self)),
            final(self).wire_count() == old(self).wire_count() + 4,
            final(self).constraints@ == old(self).constraints@,
            hash_ok(h, final(self).wire_count()),
    {
        let e0 = self.add_virtual_target();
        let e1 = self.add_virtual_target();
        let e2 = self.add_virtual_target();
        let e3 = self.add_virtual_target();
        HashOutTarget { e0, e1, e2, e3 }
    }

    pub(crate) fn alloc_derived(&mut self) -> (t: Target)
        ensures
            final(self).extends(*old(self)),
            final(self).wire_count() == old(self).wire_count() + 1,
            final(self).constraints@ == old(self).constraints@,
            final(self).high_degree_interp_gates == old(self).high_degree_interp_gates,
            final(self).low_degree_interp_gates == old(self).low_degree_interp_gates,
            t.index == old(self).wire_count(),
    {
        let index = self.wires.len();
        self.wires.push(WireOrigin::Derived);
        Target { index }
    }

    pub(crate) fn alloc_derived_ext(&mut self) -> (e: ExtTarget)
        ensures
            final(self).extends(*old(self)),
            final(self).wire_count() == old(self).wire_count() + 2,
            final(self).constraints@ == old(self).constraints@,
            final(self).high_degree_interp_gates == old(self).high_degree_interp_gates,
            final(self).low_degree_interp_gates == old(self).low_degree_interp_gates,
            e.c0.index == old(self).wire_count(),
            e.c1.index == old(self).wire_count() + 1,
            ext_ok(e, final(self).wire_count()),
    {
        let c0 = self.alloc_derived();
        let c1 = self.alloc_derived();
        ExtTarget { c0, c1 }
    }

    pub(crate) fn alloc_derived_hash(&mut self) -> (h: HashOutTarget)
        ensures
            final(self).extends(*old(self)),
            final(self).wire_count() == old(self).wire_count() + 4,
            final(self).constraints@ == old(self).constraints@,
            final(self).high_degree_interp_gates == old(self).high_degree_interp_gates,
            final(self).low_degree_interp_gates == old(self).low_degree_interp_gates,
            h.e0.index == old(self).wire_count(),
            h.e1.index == old(self).wire_count() + 1,
            h.e2.index == old(self).wire_count() + 2,
            h.e3.index == old(self).wire_count() + 3,
            hash_ok(h, final(self).wire_count()),
    {
        let e0 = self.alloc_derived();
        let e1 = self.alloc_derived();
        let e2 = self.alloc_derived();
        let e3 = self.alloc_derived();
        HashOutTarget { e0, e1, e2, e3 }
    }

    /// A wire pinned to the written field element.
    pub fn constant(&mut self, value: u64) -> (t: Target)
        ensures
            final(self).extends(*old(self)),
            final(self).wire_count() == old(self).wire_count() + 1,
            final(self).constraints@ == old(self).constraints@.push(
                Constraint::Constant { value, out: t },
            ),
            final(self).high_degree_interp_gates == old(self).high_degree_interp_gates,
            final(self).low_degree_interp_gates == old(self).low_degree_interp_gates,
            t.index == old(self).wire_count(),
    {
        let t = self.alloc_derived();
        self.constraints.push(Constraint::Constant { value, out: t });
        t
    }

    /// The extension value with both coefficients pinned to zero.
    pub fn zero_extension(&mut self) -> (e: ExtTarget)
        ensures
            final(self).extends(*old(self)),
            final(self).wire_count() == old(self).wire_count() + 2,
            final(self).appended_since(*old(self)).len() == 2,
            final(self).appended_since(*old(self))[0] == (Constraint::Constant {
                value: 0u64,
                out: e.c0,
            }),
            final(self).appended_since(*old(self))[1] == (Constraint::Constant {
                value: 0u64,
                out: e.c1,
            }),
            final(self).high_degree_interp_gates == old(self).high_degree_interp_gates,
            final(self).low_degree_interp_gates == old(self).low_degree_interp_gates,
            ext_ok(e, final(self).wire_count()),
    {
        let c0 = self.constant(0);
        let c1 = self.constant(0);
        proof {
            assert(final(self).appended_since(*old(self)) =~= old(self).constraints@.push(
                Constraint::Constant { value: 0u64, out: c0 },
            ).push(Constraint::Constant { value: 0u64, out: c1 }).skip(
                old(self).constraints@.len() as int,
            ));
        }
        ExtTarget { c0, c1 }
    }

    /// Lifts a base-field wire into the extension: the high coefficient is
    /// a fresh zero constant.
    pub fn convert_to_ext(&mut self, x: Target) -> (e: ExtTarget)
        requires
            target_ok(x, old(self).wire_count()),
        ensures
            final(self).extends(*old(self)),
            final(self).wire_count() == old(self).wire_count() + 1,
            final(self).appended_since(*old(self)).len() == 1,
            final(self).appended_since(*old(self))[0] == (Constraint::Constant {
                value: 0u64,
                out: e.c1,
            }),
            final(self).high_degree_interp_gates == old(self).high_degree_interp_gates,
            final(self).low_degree_interp_gates == old(self).low_degree_interp_gates,
            e.c0 == x,
            ext_ok(e, final(self).wire_count()),
    {
        let c1 = self.constant(0);
        ExtTarget { c0: x, c1 }
    }

    /// `out == a * b` over base-field wires.
    pub fn mul(&mut self, a: Target, b: Target) -> (t: Target)
        requires
            target_ok(a, old(self).wire_count()),
            target_ok(b, old(self).wire_count()),
        ensures
            final(self).extends(*old(self)),
            final(self).wire_count() == old(self).wire_count() + 1,
            final(self).constraints@ == old(self).constraints@.push(
                Constraint::Mul { a, b, out: t },
            ),
            final(self).high_degree_interp_gates == old(self).high_degree_interp_gates,
            final(self).low_degree_interp_gates == old(self).low_degree_interp_gates,
            t.index == old(self).wire_count(),
    {
        let t = self.alloc_derived();
        self.constraints.push(Constraint::Mul { a, b, out: t });
        t
    }

    /// `out == a - b` in the extension field.
    pub fn sub_extension(&mut self, a: ExtTarget, b: ExtTarget) -> (r: ExtTarget)
        requires
            ext_ok(a, old(self).wire_count()),
            ext_ok(b, old(self).wire_count()),
        ensures
            final(self).extends(*old(self)),
            final(self).wire_count() == old(self).wire_count() + 2,
            final(self).constraints@ == old(self).constraints@.push(
                Constraint::SubExt { a, b, out: r },
            ),
            final(self).high_degree_interp_gates == old(self).high_degree_interp_gates,
            final(self).low_degree_interp_gates == old(self).low_degree_interp_gates,
            ext_ok(r, final(self).wire_count()),
    {
        let r = self.alloc_derived_ext();
        self.constraints.push(Constraint::SubExt { a, b, out: r });
        r
    }

    /// `out == a * b + addend` in the extension field.
    pub fn mul_add_extension(&mut self, a: ExtTarget, b: ExtTarget, addend: ExtTarget) -> (r:
        ExtTarget)
        requires
            ext_ok(a, old(self).wire_count()),
            ext_ok(b, old(self).wire_count()),
            ext_ok(addend, old(self).wire_count()),
        ensures
            final(self).extends(*old(self)),
            final(self).wire_count() == old(self).wire_count() + 2,
            final(self).constraints@ == old(self).constraints@.push(
                Constraint::MulAddExt { a, b, addend, out: r },
            ),
            final(self).high_degree_interp_gates == old(self).high_degree_interp_gates,
            final(self).low_degree_interp_gates == old(self).low_degree_interp_gates,
            ext_ok(r, final(self).wire_count()),
    {
        let r = self.alloc_derived_ext();
        self.constraints.push(Constraint::MulAddExt { a, b, addend, out: r });
        r
    }

    /// `out == numerator / denominator + addend` in the extension field.
    pub fn div_add_extension(
        &mut self,
        numerator: ExtTarget,
        denominator: ExtTarget,
        addend: ExtTarget,
    ) -> (r: ExtTarget)
        requires
            ext_ok(numerator, old(self).wire_count()),
            ext_ok(denominator, old(self).wire_count()),
            ext_ok(addend, old(self).wire_count()),
        ensures
            final(self).extends(*old(self)),
            final(self).wire_count() == old(self).wire_count() + 2,
            final(self).constraints@ == old(self).constraints@.push(
                Constraint::DivAddExt { numerator, denominator, addend, out: r },
            ),
            final(self).high_degree_interp_gates == old(self).high_degree_interp_gates,
            final(self).low_degree_interp_gates == old(self).low_degree_interp_gates,
            ext_ok(r, final(self).wire_count()),
    {
        let r = self.alloc_derived_ext();
        self.constraints.push(Constraint::DivAddExt { numerator, denominator, addend, out: r });
        r
    }

    /// `out == base ^ exponent` in the extension field, for a circuit-time
    /// exponent.
    pub fn exp_u64_extension(&mut self, base: ExtTarget, exponent: u64) -> (r: ExtTarget)
        requires
            ext_ok(base, old(self).wire_count()),
        ensures
            final(self).extends(*old(self)),
            final(self).wire_count() == old(self).wire_count() + 2,
            final(self).constraints@ == old(self).constraints@.push(
                Constraint::ExpExt { base, exponent, out: r },
            ),
            final(self).high_degree_interp_gates == old(self).high_degree_interp_gates,
            final(self).low_degree_interp_gates == old(self).low_degree_interp_gates,
            ext_ok(r, final(self).wire_count()),
    {
        let r = self.alloc_derived_ext();
        self.constraints.push(Constraint::ExpExt { base, exponent, out: r });
        r
    }

    /// `a == b` in the extension field, as an emitted equality constraint.
    pub fn connect_extension(&mut self, a: ExtTarget, b: ExtTarget)
        requires
            ext_ok(a, old(self).wire_count()),
            ext_ok(b, old(self).wire_count()),
        ensures
            final(self).extends(*old(self)),
            final(self).wire_count() == old(self).wire_count(),
            final(self).constraints@ == old(self).constraints@.push(Constraint::ConnectExt { a, b }),
            final(self).high_degree_interp_gates == old(self).high_degree_interp_gates,
            final(self).low_degree_interp_gates == old(self).low_degree_interp_gates,
    {
        self.constraints.push(Constraint::ConnectExt { a, b });
    }

    /// `out == sum of bits[i] * 2^i`: recomposes little-endian bits.
    pub fn le_sum(&mut self, bits: &Vec<BoolTarget>) -> (t: Target)
        requires
            bools_ok(bits@, old(self).wire_count()),
        ensures
            final(self).extends(*old(self)),
            final(self).wire_count() == old(self).wire_count() + 1,
            final(self).appended_since(*old(self)).len() == 1,
            final(self).appended_since(*old(self))[0] matches Constraint::WeightedSum {
                bits: cb,
                out,
            } && cb@ == bits@ && out == t,
            final(self).high_degree_interp_gates == old(self).high_degree_interp_gates,
            final(self).low_degree_interp_gates == old(self).low_degree_interp_gates,
            t.index == old(self).wire_count(),
    {
        let cb = copy_vec(bits);
        let t = self.alloc_derived();
        self.constraints.push(Constraint::WeightedSum { bits: cb, out: t });
        proof {
            assert(final(self).appended_since(*old(self)) =~= seq![
                Constraint::WeightedSum { bits: cb, out: t },
            ]);
        }
        t
    }

    /// Splits `x` into `total_bits` boolean wires (low bit first) whose
    /// recomposition is constrained to equal `x` modulo the field order —
    /// deliberately without forcing the canonical encoding — and hands back
    /// the low `num_low_bits` of them.
    pub fn low_bits(&mut self, x: Target, num_low_bits: usize, total_bits: usize) -> (r: Vec<
        BoolTarget,
    >)
        requires
            target_ok(x, old(self).wire_count()),
            num_low_bits <= total_bits,
        ensures
            final(self).extends(*old(self)),
            final(self).wire_count() == old(self).wire_count() + total_bits,
            final(self).appended_since(*old(self)).len() == 1,
            final(self).appended_since(*old(self))[0] matches Constraint::BitDecompose {
                input,
                bits,
            } && input == x && bits@.len() == total_bits && (forall|j: int|
                0 <= j < total_bits ==> (#[trigger] bits@[j]).target.index == old(self).wire_count()
                    + j),
            final(self).high_degree_interp_gates == old(self).high_degree_interp_gates,
            final(self).low_degree_interp_gates == old(self).low_degree_interp_gates,
            r@.len() == num_low_bits,
            forall|j: int|
                0 <= j < num_low_bits ==> (#[trigger] r@[j]).target.index == old(self).wire_count()
                    + j,
            bools_ok(r@, final(self).wire_count()),
    {
        let mut bits: Vec<BoolTarget> = Vec::new();
        let mut i: usize = 0;
        while i < total_bits
            invariant
                i <= total_bits,
                bits@.len() == i,
                self.extends(*old(self)),
                self.wire_count() == old(self).wire_count() + i,
                self.constraints@ == old(self).constraints@,
                self.high_degree_interp_gates == old(self).high_degree_interp_gates,
                self.low_degree_interp_gates == old(self).low_degree_interp_gates,
                forall|j: int|
                    0 <= j < i ==> (#[trigger] bits@[j]).target.index == old(self).wire_count() + j,
            decreases total_bits - i,
        {
            let t = self.add_virtual_target();
            bits.push(BoolTarget { target: t });
            i = i + 1;
        }
        let mut r: Vec<BoolTarget> = Vec::new();
        let mut i: usize = 0;
        while i < num_low_bits
            invariant
                i <= num_low_bits,
                num_low_bits <= bits@.len(),
                r@ == bits@.subrange(0, i as int),
            decreases num_low_bits - i,
        {
            let b = bits[i];
            r.push(b);
            proof {
                assert(r@ =~= bits@.subrange(0, i + 1));
            }
            i = i + 1;
        }
        self.constraints.push(Constraint::BitDecompose { input: x, bits });
        proof {
            assert(final(self).appended_since(*old(self)) =~= self.constraints@.skip(
                old(self).constraints@.len() as int,
            ));
            assert(final(self).appended_since(*old(self)).len() == 1);
        }
        r
    }

    /// Emits the multiplexer constraint `list[index] == claimed`.
    pub fn random_access_extension(
        &mut self,
        index: Target,
        claimed: ExtTarget,
        list: &Vec<ExtTarget>,
    )
        requires
            target_ok(index, old(self).wire_count()),
            ext_ok(claimed, old(self).wire_count()),
            exts_ok(list@, old(self).wire_count()),
        ensures
            final(self).extends(*old(self)),
            final(self).wire_count() == old(self).wire_count(),
            final(self).appended_since(*old(self)).len() == 1,
            final(self).appended_since(*old(self))[0] matches Constraint::RandomAccessExt {
                index: i2,
                claimed: c2,
                list: l2,
            } && i2 == index && c2 == claimed && l2@ == list@,
            final(self).high_degree_interp_gates == old(self).high_degree_interp_gates,
            final(self).low_degree_interp_gates == old(self).low_degree_interp_gates,
    {
        let l2 = copy_vec(list);
        self.constraints.push(Constraint::RandomAccessExt { index, claimed, list: l2 });
        proof {
            assert(final(self).appended_since(*old(self)) =~= seq![
                Constraint::RandomAccessExt { index, claimed, list: l2 },
            ]);
        }
    }

    /// `out == x ^ (2^power_log)`, by `power_log` squarings.
    pub fn exp_power_of_2(&mut self, x: Target, power_log: usize) -> (t: Target)
        requires
            target_ok(x, old(self).wire_count()),
        ensures
            final(self).extends(*old(self)),
            final(self).wire_count() == old(self).wire_count() + power_log,
            final(self).appended_since(*old(self)).len() == power_log,
            crate::constraint::arithmetic_only(final(self).appended_since(*old(self))),
            forall|j: int|
                0 <= j < power_log ==> (#[trigger] final(self).appended_since(*old(self))[j]
                    matches Constraint::Mul { a, b, out } && a == b && out.index == old(
                    self,
                ).wire_count() + j && a == (if j == 0 {
                    x
                } else {
                    Target { index: (old(self).wire_count() + j - 1) as usize }
                })),
            final(self).high_degree_interp_gates == old(self).high_degree_interp_gates,
            final(self).low_degree_interp_gates == old(self).low_degree_interp_gates,
            target_ok(t, final(self).wire_count()),
            t == (if power_log == 0 {
                x
            } else {
                Target { index: (old(self).wire_count() + power_log - 1) as usize }
            }),
    {
        let mut cur = x;
        let mut i: usize = 0;
        while i < power_log
            invariant
                i <= power_log,
                self.extends(*old(self)),
                self.wire_count() == old(self).wire_count() + i,
                self.appended_since(*old(self)).len() == i,
                self.high_degree_interp_gates == old(self).high_degree_interp_gates,
                self.low_degree_interp_gates == old(self).low_degree_interp_gates,
                target_ok(cur, self.wire_count()),
                cur == (if i == 0 {
                    x
                } else {
                    Target { index: (old(self).wire_count() + i - 1) as usize }
                }),
                forall|j: int|
                    0 <= j < i ==> (#[trigger] self.appended_since(*old(self))[j]
                        matches Constraint::Mul { a, b, out } && a == b && out.index == old(
                        self,
                    ).wire_count() + j && a == (if j == 0 {
                        x
                    } else {
                        Target { index: (old(self).wire_count() + j - 1) as usize }
                    })),
            decreases power_log - i,
        {
            let ghost pre = *self;
            let next = self.mul(cur, cur);
            proof {
                assert(self.appended_since(*old(self)) =~= pre.appended_since(*old(self)).push(
                    Constraint::Mul { a: cur, b: cur, out: next },
                ));
            }
            cur = next;
            i = i + 1;
        }
        proof {
            let s = self.appended_since(*old(self));
            assert forall|i: int| 0 <= i < s.len() implies {
                let c = #[trigger] s[i];
                &&& !(c is Challenge)
                &&& !(c is TranscriptHash)
                &&& !(c is CapSelect)
                &&& !(c is ConnectExt)
                &&& !(c is LeadingZeros)
                &&& !(c is BitDecompose)
            } by {
                assert(s[i] matches Constraint::Mul { a, b, out } && a == b);
            }
        }
        cur
    }

    /// The running product `prod (bit_j ? base^(2^j) : 1)`: raises the
    /// circuit-time constant `base` to the exponent the bits write, low bit
    /// first.  Each step multiplies by the next iterated square of `base`.
    pub fn exp_from_bits_const_base(&mut self, base: u64, bits: &Vec<BoolTarget>) -> (t: Target)
        requires
            bools_ok(bits@, old(self).wire_count()),
        ensures
            final(self).extends(*old(self)),
            final(self).wire_count() == old(self).wire_count() + bits@.len() + 1,
            final(self).appended_since(*old(self)).len() == bits@.len() + 1,
            crate::constraint::arithmetic_only(final(self).appended_since(*old(self))),
            final(self).appended_since(*old(self))[0] == (Constraint::Constant {
                value: 1u64,
                out: Target { index: old(self).wire_count() as usize },
            }),
            forall|j: int|
                0 <= j < bits@.len() ==> (#[trigger] final(self).appended_since(*old(self))[j + 1]
                    matches Constraint::CondMulConst { bit, factor, input, out } && bit == bits@[j]
                    && factor as int == pow_sq_spec(base, j as nat) && input.index == old(
                    self,
                ).wire_count() + j && out.index == old(self).wire_count() + j + 1),
            final(self).high_degree_interp_gates == old(self).high_degree_interp_gates,
            final(self).low_degree_interp_gates == old(self).low_degree_interp_gates,
            t.index == old(self).wire_count() + bits@.len(),
    {
        let t0 = self.constant(1);
        let mut acc = t0;
        let mut factor: u64 = base % FIELD_ORDER;
        let mut i: usize = 0;
        while i < bits.len()
            invariant
                i <= bits@.len(),
                bools_ok(bits@, old(self).wire_count()),
                self.extends(*old(self)),
                self.wire_count() == old(self).wire_count() + i + 1,
                self.appended_since(*old(self)).len() == i + 1,
                self.appended_since(*old(self))[0] == (Constraint::Constant {
                    value: 1u64,
                    out: Target { index: old(self).wire_count() as usize },
                }),
                self.high_degree_interp_gates == old(self).high_degree_interp_gates,
                self.low_degree_interp_gates == old(self).low_degree_interp_gates,
                acc.index == old(self).wire_count() + i,
                factor as int == pow_sq_spec(base, i as nat),
                forall|j: int|
                    0 <= j < i ==> (#[trigger] self.appended_since(*old(self))[j + 1]
                        matches Constraint::CondMulConst { bit, factor, input, out } && bit
                        == bits@[j] && factor as int == pow_sq_spec(base, j as nat) && input.index
                        == old(self).wire_count() + j && out.index == old(self).wire_count() + j
                        + 1),
            decreases bits@.len() - i,
        {
            let ghost pre = *self;
            let bit = bits[i];
            let out = self.alloc_derived();
            self.constraints.push(
                Constraint::CondMulConst { bit, factor, input: acc, out },
            );
            proof {
                assert(self.appended_since(*old(self)) =~= pre.appended_since(*old(self)).push(
                    Constraint::CondMulConst { bit, factor, input: acc, out },
                ));
            }
            acc = out;
            factor = mul_mod(factor, factor);
            i = i + 1;
        }
        proof {
            let s = self.appended_since(*old(self));
            assert forall|k: int| 0 <= k < s.len() implies {
                let c = #[trigger] s[k];
                &&& !(c is Challenge)
                &&& !(c is TranscriptHash)
                &&& !(c is CapSelect)
                &&& !(c is ConnectExt)
                &&& !(c is LeadingZeros)
                &&& !(c is BitDecompose)
            } by {
                if k == 0 {
                    assert(s[0] is Constant);
                } else {
                    assert(s[(k - 1) + 1] matches Constraint::CondMulConst { bit, factor, input, out });
                }
            }
        }
        acc
    }
}

} // verus!
