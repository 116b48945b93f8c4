//! Comparators over numeric series: greater / less / equal, against a
//! series or against a scalar, in two families with one consistent null
//! rule each.
//!
//! The plain family propagates nulls: a comparison is null unless both
//! operands are present.  The "safe" family (prefixed `s`) is total: it
//! resolves any comparison touching a null to `false`, so long AND-chains
//! of predicates stay fully present and never leak a null into a hard
//! failure.  The two policies are never mixed within a family.
//!
//! All verdicts are IEEE comparisons of the underlying bit patterns: the
//! two zeros compare equal, and a NaN compares unordered with everything
//! (so every ordered verdict on it is false).

use vstd::prelude::*;

use crate::fbits::cmp_bits;
use crate::fbits::cmp_f32;
use crate::ops::const_num_seq;
use crate::series::Series;

verus! {

/// The null-propagating comparison model: null unless both operands are
/// present, otherwise the verdict of `p`.
pub open spec fn cmp_seq(
    a: Seq<Option<u32>>,
    b: Seq<Option<u32>>,
    p: spec_fn(u32, u32) -> bool,
) -> Seq<Option<bool>> {
    Seq::new(
        a.len(),
        |i: int|
            match (a[i], b[i]) {
                (Some(x), Some(y)) => Some(p(x, y)),
                _ => None,
            },
    )
}

/// The safe comparison model: fully present, `false` wherever either
/// operand is null, otherwise the verdict of `p`.
pub open spec fn scmp_seq(
    a: Seq<Option<u32>>,
    b: Seq<Option<u32>>,
    p: spec_fn(u32, u32) -> bool,
) -> Seq<Option<bool>> {
    Seq::new(
        a.len(),
        |i: int|
            match (a[i], b[i]) {
                (Some(x), Some(y)) => Some(p(x, y)),
                _ => Some(false),
            },
    )
}

/// IEEE strictly-greater on bit patterns.
pub open spec fn gt_bits(x: u32, y: u32) -> bool {
    cmp_bits(x, y) == 1
}

/// IEEE greater-or-equal on bit patterns.
pub open spec fn ge_bits(x: u32, y: u32) -> bool {
    cmp_bits(x, y) == 1 || cmp_bits(x, y) == 0
}

/// IEEE strictly-less on bit patterns.
pub open spec fn lt_bits(x: u32, y: u32) -> bool {
    cmp_bits(x, y) == -1
}

/// IEEE less-or-equal on bit patterns.
pub open spec fn le_bits(x: u32, y: u32) -> bool {
    cmp_bits(x, y) == -1 || cmp_bits(x, y) == 0
}

/// IEEE equality on bit patterns.
pub open spec fn eq_bits(x: u32, y: u32) -> bool {
    cmp_bits(x, y) == 0
}

impl Series<u32> {
    /// Elementwise strictly-greater: null unless both operands are
    /// present.
    pub fn gt(&self, rhs: &Series<u32>) -> (r: Series<bool>)
        requires
            self@.len() == rhs@.len(),
        ensures
            r@ == cmp_seq(self@, rhs@, |x: u32, y: u32| gt_bits(x, y)),
            r@.len() == self@.len(),
    {
        let f = |a: Option<u32>, b: Option<u32>| -> (o: Option<bool>)
            ensures
                o == (match (a, b) {
                    (Some(x), Some(y)) => Some(gt_bits(x, y)),
                    _ => None,
                }),
            {
                match (a, b) {
                    (Some(x), Some(y)) => Some(cmp_f32(x, y) == 1),
                    _ => None,
                }
            };
        let r = self.zip_with(rhs, f);
        proof {
            let m = cmp_seq(self@, rhs@, |x: u32, y: u32| gt_bits(x, y));
            assert forall|i: int| 0 <= i < self@.len() implies (#[trigger] r@[i]) == m[i] by {}
            assert(r@ =~= m);
        }
        r
    }

    /// Elementwise strictly-less: null unless both operands are present.
    pub fn lt(&self, rhs: &Series<u32>) -> (r: Series<bool>)
        requires
            self@.len() == rhs@.len(),
        ensures
            r@ == cmp_seq(self@, rhs@, |x: u32, y: u32| lt_bits(x, y)),
            r@.len() == self@.len(),
    {
        let f = |a: Option<u32>, b: Option<u32>| -> (o: Option<bool>)
            ensures
                o == (match (a, b) {
                    (Some(x), Some(y)) => Some(lt_bits(x, y)),
                    _ => None,
                }),
            {
                match (a, b) {
                    (Some(x), Some(y)) => Some(cmp_f32(x, y) == -1),
                    _ => None,
                }
            };
        let r = self.zip_with(rhs, f);
        proof {
            let m = cmp_seq(self@, rhs@, |x: u32, y: u32| lt_bits(x, y));
            assert forall|i: int| 0 <= i < self@.len() implies (#[trigger] r@[i]) == m[i] by {}
            assert(r@ =~= m);
        }
        r
    }

    /// Safe strictly-greater: fully present, false wherever either
    /// operand is null.
    pub fn sgt(&self, rhs: &Series<u32>) -> (r: Series<bool>)
        requires
            self@.len() == rhs@.len(),
        ensures
            r@ == scmp_seq(self@, rhs@, |x: u32, y: u32| gt_bits(x, y)),
            r@.len() == self@.len(),
    {
        let f = |a: Option<u32>, b: Option<u32>| -> (o: Option<bool>)
            ensures
                o == (match (a, b) {
                    (Some(x), Some(y)) => Some(gt_bits(x, y)),
                    _ => Some(false),
                }),
            {
                match (a, b) {
                    (Some(x), Some(y)) => Some(cmp_f32(x, y) == 1),
                    _ => Some(false),
                }
            };
        let r = self.zip_with(rhs, f);
        proof {
            let m = scmp_seq(self@, rhs@, |x: u32, y: u32| gt_bits(x, y));
            assert forall|i: int| 0 <= i < self@.len() implies (#[trigger] r@[i]) == m[i] by {}
            assert(r@ =~= m);
        }
        r
    }

    /// Safe greater-or-equal: fully present, false wherever either
    /// operand is null.
    pub fn sge(&self, rhs: &Series<u32>) -> (r: Series<bool>)
        requires
            self@.len() == rhs@.len(),
        ensures
            r@ == scmp_seq(self@, rhs@, |x: u32, y: u32| ge_bits(x, y)),
            r@.len() == self@.len(),
    {
        let f = |a: Option<u32>, b: Option<u32>| -> (o: Option<bool>)
            ensures
                o == (match (a, b) {
                    (Some(x), Some(y)) => Some(ge_bits(x, y)),
                    _ => Some(false),
                }),
            {
                match (a, b) {
                    (Some(x), Some(y)) => {
                        let c = cmp_f32(x, y);
                        Some(c == 1 || c == 0)
                    },
                    _ => Some(false),
                }
            };
        let r = self.zip_with(rhs, f);
        proof {
            let m = scmp_seq(self@, rhs@, |x: u32, y: u32| ge_bits(x, y));
            assert forall|i: int| 0 <= i < self@.len() implies (#[trigger] r@[i]) == m[i] by {}
            assert(r@ =~= m);
        }
        r
    }

    /// Safe strictly-less: fully present, false wherever either operand
    /// is null.
    pub fn slt(&self, rhs: &Series<u32>) -> (r: Series<bool>)
        requires
            self@.len() == rhs@.len(),
        ensures
            r@ == scmp_seq(self@, rhs@, |x: u32, y: u32| lt_bits(x, y)),
            r@.len() == self@.len(),
    {
        let f = |a: Option<u32>, b: Option<u32>| -> (o: Option<bool>)
            ensures
                o == (match (a, b) {
                    (Some(x), Some(y)) => Some(lt_bits(x, y)),
                    _ => Some(false),
                }),
            {
                match (a, b) {
                    (Some(x), Some(y)) => Some(cmp_f32(x, y) == -1),
                    _ => Some(false),
                }
            };
        let r = self.zip_with(rhs, f);
        proof {
            let m = scmp_seq(self@, rhs@, |x: u32, y: u32| lt_bits(x, y));
            assert forall|i: int| 0 <= i < self@.len() implies (#[trigger] r@[i]) == m[i] by {}
            assert(r@ =~= m);
        }
        r
    }

    /// Safe less-or-equal: fully present, false wherever either operand
    /// is null.
    pub fn sle(&self, rhs: &Series<u32>) -> (r: Series<bool>)
        requires
            self@.len() == rhs@.len(),
        ensures
            r@ == scmp_seq(self@, rhs@, |x: u32, y: u32| le_bits(x, y)),
            r@.len() == self@.len(),
    {
        let f = |a: Option<u32>, b: Option<u32>| -> (o: Option<bool>)
            ensures
                o == (match (a, b) {
                    (Some(x), Some(y)) => Some(le_bits(x, y)),
                    _ => Some(false),
                }),
            {
                match (a, b) {
                    (Some(x), Some(y)) => {
                        let c = cmp_f32(x, y);
                        Some(c == -1 || c == 0)
                    },
                    _ => Some(false),
                }
            };
        let r = self.zip_with(rhs, f);
        proof {
            let m = scmp_seq(self@, rhs@, |x: u32, y: u32| le_bits(x, y));
            assert forall|i: int| 0 <= i < self@.len() implies (#[trigger] r@[i]) == m[i] by {}
            assert(r@ =~= m);
        }
        r
    }

    /// Safe equality: fully present, false wherever either operand is
    /// null.
    pub fn s_eq(&self, rhs: &Series<u32>) -> (r: Series<bool>)
        requires
            self@.len() == rhs@.len(),
        ensures
            r@ == scmp_seq(self@, rhs@, |x: u32, y: u32| eq_bits(x, y)),
            r@.len() == self@.len(),
    {
        let f = |a: Option<u32>, b: Option<u32>| -> (o: Option<bool>)
            ensures
                o == (match (a, b) {
                    (Some(x), Some(y)) => Some(eq_bits(x, y)),
                    _ => Some(false),
                }),
            {
                match (a, b) {
                    (Some(x), Some(y)) => Some(cmp_f32(x, y) == 0),
                    _ => Some(false),
                }
            };
        let r = self.zip_with(rhs, f);
        proof {
            let m = scmp_seq(self@, rhs@, |x: u32, y: u32| eq_bits(x, y));
            assert forall|i: int| 0 <= i < self@.len() implies (#[trigger] r@[i]) == m[i] by {}
            assert(r@ =~= m);
        }
        r
    }

    /// Safe equality against a broadcast scalar: fully present, false
    /// wherever the series is null.
    pub fn s_eq_scalar(&self, scalar: u32) -> (r: Series<bool>)
        ensures
            r@ == scmp_seq(self@, const_num_seq(self@.len(), scalar), |x: u32, y: u32| eq_bits(x, y)),
            r@.len() == self@.len(),
    {
        let filled = Series::fill(scalar, self.len());
        proof {
            assert(filled@ =~= const_num_seq(self@.len(), scalar));
        }
        self.s_eq(&filled)
    }

    /// Safe strictly-greater against a broadcast scalar.
    pub fn sgt_scalar(&self, scalar: u32) -> (r: Series<bool>)
        ensures
            r@ == scmp_seq(self@, const_num_seq(self@.len(), scalar), |x: u32, y: u32| gt_bits(x, y)),
            r@.len() == self@.len(),
    {
        let filled = Series::fill(scalar, self.len());
        proof {
            assert(filled@ =~= const_num_seq(self@.len(), scalar));
        }
        self.sgt(&filled)
    }

    /// Safe strictly-less against a broadcast scalar.
    pub fn slt_scalar(&self, scalar: u32) -> (r: Series<bool>)
        ensures
            r@ == scmp_seq(self@, const_num_seq(self@.len(), scalar), |x: u32, y: u32| lt_bits(x, y)),
            r@.len() == self@.len(),
    {
        let filled = Series::fill(scalar, self.len());
        proof {
            assert(filled@ =~= const_num_seq(self@.len(), scalar));
        }
        self.slt(&filled)
    }
}

} // verus!
