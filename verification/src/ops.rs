//! Elementwise algebra over numeric and boolean series.
//!
//! Binary numeric operations are null unless both operands are present.
//! Series division additionally guards a zero divisor (null, not an
//! error).  Scalar operations broadcast over every present value and
//! preserve null positions; scalar division by an exactly-zero scalar is
//! defined as 0.0 rather than null — a deliberate asymmetry from the
//! series/series division rule.  A boolean series can mask a numeric
//! series, and boolean series combine under conjunction and disjunction
//! with the same null propagation as the numeric operations.
//!
//! Subtraction and division are not commutative, so the scalar-minus-
//! series and scalar-over-series forms are defined explicitly: the first
//! as negate-then-offset, the second as fill-then-divide.

use vstd::prelude::*;

use crate::fbits::F32_ZERO;
use crate::fbits::add_bits;
use crate::fbits::add_f32;
use crate::fbits::cmp_bits;
use crate::fbits::cmp_f32;
use crate::fbits::div_bits;
use crate::fbits::div_f32;
use crate::fbits::mul_bits;
use crate::fbits::mul_f32;
use crate::fbits::neg_bits;
use crate::fbits::neg_f32;
use crate::fbits::sub_bits;
use crate::fbits::sub_f32;
use crate::series::Series;

verus! {

/// Null-propagating elementwise combination: present exactly where both
/// operands are present.
pub open spec fn zip_num_seq(
    a: Seq<Option<u32>>,
    b: Seq<Option<u32>>,
    f: spec_fn(u32, u32) -> u32,
) -> Seq<Option<u32>> {
    Seq::new(
        a.len(),
        |i: int|
            match (a[i], b[i]) {
                (Some(x), Some(y)) => Some(f(x, y)),
                _ => None,
            },
    )
}

/// Null-preserving elementwise map over the present values.
pub open spec fn map_num_seq(a: Seq<Option<u32>>, f: spec_fn(u32) -> u32) -> Seq<Option<u32>> {
    Seq::new(
        a.len(),
        |i: int|
            match a[i] {
                Some(x) => Some(f(x)),
                None => None,
            },
    )
}

/// A fully present constant sequence.
pub open spec fn const_num_seq(n: nat, v: u32) -> Seq<Option<u32>> {
    Seq::new(n, |i: int| Some(v))
}

/// The model of series addition.
pub open spec fn add_seq(a: Seq<Option<u32>>, b: Seq<Option<u32>>) -> Seq<Option<u32>> {
    zip_num_seq(a, b, |x: u32, y: u32| add_bits(x, y))
}

/// The model of series subtraction.
pub open spec fn sub_seq(a: Seq<Option<u32>>, b: Seq<Option<u32>>) -> Seq<Option<u32>> {
    zip_num_seq(a, b, |x: u32, y: u32| sub_bits(x, y))
}

/// The model of series multiplication.
pub open spec fn mul_seq(a: Seq<Option<u32>>, b: Seq<Option<u32>>) -> Seq<Option<u32>> {
    zip_num_seq(a, b, |x: u32, y: u32| mul_bits(x, y))
}

/// The model of series division: null unless both operands are present
/// and the divisor compares unequal to zero.
pub open spec fn div_seq(a: Seq<Option<u32>>, b: Seq<Option<u32>>) -> Seq<Option<u32>> {
    Seq::new(
        a.len(),
        |i: int|
            match (a[i], b[i]) {
                (Some(x), Some(y)) => if cmp_bits(y, F32_ZERO) != 0 {
                    Some(div_bits(x, y))
                } else {
                    None
                },
                _ => None,
            },
    )
}

/// The model of negation.
pub open spec fn neg_seq(a: Seq<Option<u32>>) -> Seq<Option<u32>> {
    map_num_seq(a, |x: u32| neg_bits(x))
}

/// The model of scalar division: a present value is divided by the
/// scalar, unless the scalar compares equal to zero, in which case the
/// result is defined as 0.0 rather than null.
pub open spec fn div_scalar_seq(a: Seq<Option<u32>>, s: u32) -> Seq<Option<u32>> {
    Seq::new(
        a.len(),
        |i: int|
            match a[i] {
                Some(x) => Some(
                    if cmp_bits(s, F32_ZERO) != 0 {
                        div_bits(x, s)
                    } else {
                        F32_ZERO
                    },
                ),
                None => None,
            },
    )
}

/// The model of scalar-minus-series: negate, then subtract the negated
/// scalar.
pub open spec fn scalar_sub_seq(s: u32, a: Seq<Option<u32>>) -> Seq<Option<u32>> {
    map_num_seq(a, |x: u32| sub_bits(neg_bits(x), neg_bits(s)))
}

/// The model of boolean masking: the numeric value where the mask is
/// true, 0.0 where it is false, null where either side is null.
pub open spec fn mask_seq(b: Seq<Option<bool>>, a: Seq<Option<u32>>) -> Seq<Option<u32>> {
    Seq::new(
        b.len(),
        |i: int|
            match (b[i], a[i]) {
                (Some(c), Some(x)) => Some(if c {
                    x
                } else {
                    F32_ZERO
                }),
                _ => None,
            },
    )
}

/// The model of boolean conjunction: null unless both operands are
/// present.
pub open spec fn and_seq(a: Seq<Option<bool>>, b: Seq<Option<bool>>) -> Seq<Option<bool>> {
    Seq::new(
        a.len(),
        |i: int|
            match (a[i], b[i]) {
                (Some(x), Some(y)) => Some(x && y),
                _ => None,
            },
    )
}

/// The model of boolean disjunction: null unless both operands are
/// present.
pub open spec fn or_seq(a: Seq<Option<bool>>, b: Seq<Option<bool>>) -> Seq<Option<bool>> {
    Seq::new(
        a.len(),
        |i: int|
            match (a[i], b[i]) {
                (Some(x), Some(y)) => Some(x || y),
                _ => None,
            },
    )
}

impl Series<u32> {
    /// A constant-zero series of the given length.
    pub fn zero(len: usize) -> (r: Series<u32>)
        ensures
            r@ == const_num_seq(len as nat, F32_ZERO),
            r@.len() == len,
    {
        let r = Series::fill(F32_ZERO, len);
        proof {
            assert(r@ =~= const_num_seq(len as nat, F32_ZERO));
        }
        r
    }

    /// Elementwise addition: null exactly where at least one operand is.
    pub fn add_series(&self, rhs: &Series<u32>) -> (r: Series<u32>)
        requires
            self@.len() == rhs@.len(),
        ensures
            r@ == add_seq(self@, rhs@),
            r@.len() == self@.len(),
            forall|i: int|
                0 <= i < self@.len()
                    ==> ((#[trigger] r@[i]) is None <==> (self@[i] is None || rhs@[i] is None)),
    {
        let f = |a: Option<u32>, b: Option<u32>| -> (o: Option<u32>)
            ensures
                o == (match (a, b) {
                    (Some(x), Some(y)) => Some(add_bits(x, y)),
                    _ => None,
                }),
            {
                match (a, b) {
                    (Some(x), Some(y)) => Some(add_f32(x, y)),
                    _ => None,
                }
            };
        let r = self.zip_with(rhs, f);
        proof {
            assert forall|i: int| 0 <= i < self@.len() implies (#[trigger] r@[i]) == add_seq(
                self@,
                rhs@,
            )[i] by {}
            assert(r@ =~= add_seq(self@, rhs@));
        }
        r
    }

    /// Elementwise subtraction: null exactly where at least one operand
    /// is.
    pub fn sub_series(&self, rhs: &Series<u32>) -> (r: Series<u32>)
        requires
            self@.len() == rhs@.len(),
        ensures
            r@ == sub_seq(self@, rhs@),
            r@.len() == self@.len(),
            forall|i: int|
                0 <= i < self@.len()
                    ==> ((#[trigger] r@[i]) is None <==> (self@[i] is None || rhs@[i] is None)),
    {
        let f = |a: Option<u32>, b: Option<u32>| -> (o: Option<u32>)
            ensures
                o == (match (a, b) {
                    (Some(x), Some(y)) => Some(sub_bits(x, y)),
                    _ => None,
                }),
            {
                match (a, b) {
                    (Some(x), Some(y)) => Some(sub_f32(x, y)),
                    _ => None,
                }
            };
        let r = self.zip_with(rhs, f);
        proof {
            assert forall|i: int| 0 <= i < self@.len() implies (#[trigger] r@[i]) == sub_seq(
                self@,
                rhs@,
            )[i] by {}
            assert(r@ =~= sub_seq(self@, rhs@));
        }
        r
    }

    /// Elementwise multiplication: null exactly where at least one
    /// operand is.
    pub fn mul_series(&self, rhs: &Series<u32>) -> (r: Series<u32>)
        requires
            self@.len() == rhs@.len(),
        ensures
            r@ == mul_seq(self@, rhs@),
            r@.len() == self@.len(),
            forall|i: int|
                0 <= i < self@.len()
                    ==> ((#[trigger] r@[i]) is None <==> (self@[i] is None || rhs@[i] is None)),
    {
        let f = |a: Option<u32>, b: Option<u32>| -> (o: Option<u32>)
            ensures
                o == (match (a, b) {
                    (Some(x), Some(y)) => Some(mul_bits(x, y)),
                    _ => None,
                }),
            {
                match (a, b) {
                    (Some(x), Some(y)) => Some(mul_f32(x, y)),
                    _ => None,
                }
            };
        let r = self.zip_with(rhs, f);
        proof {
            assert forall|i: int| 0 <= i < self@.len() implies (#[trigger] r@[i]) == mul_seq(
                self@,
                rhs@,
            )[i] by {}
            assert(r@ =~= mul_seq(self@, rhs@));
        }
        r
    }

    /// Elementwise division.  The result is null exactly where an
    /// operand is null or the divisor compares equal to zero — a guarded
    /// division is "unavailable", never an error and never an infinity.
    pub fn div_series(&self, rhs: &Series<u32>) -> (r: Series<u32>)
        requires
            self@.len() == rhs@.len(),
        ensures
            r@ == div_seq(self@, rhs@),
            r@.len() == self@.len(),
            forall|i: int|
                0 <= i < self@.len()
                    ==> ((#[trigger] r@[i]) is None <==> (self@[i] is None || rhs@[i] is None
                    || (rhs@[i] matches Some(y) && cmp_bits(y, F32_ZERO) == 0))),
            forall|i: int|
                0 <= i < self@.len()
                    ==> (self@[i] matches Some(x) ==> (rhs@[i] matches Some(y) ==> (cmp_bits(
                    y,
                    F32_ZERO,
                ) != 0 ==> (#[trigger] r@[i]) == Some(div_bits(x, y))))),
    {
        let f = |a: Option<u32>, b: Option<u32>| -> (o: Option<u32>)
            ensures
                o == (match (a, b) {
                    (Some(x), Some(y)) => if cmp_bits(y, F32_ZERO) != 0 {
                        Some(div_bits(x, y))
                    } else {
                        None
                    },
                    _ => None,
                }),
            {
                match (a, b) {
                    (Some(x), Some(y)) => if cmp_f32(y, F32_ZERO) != 0 {
                        Some(div_f32(x, y))
                    } else {
                        None
                    },
                    _ => None,
                }
            };
        let r = self.zip_with(rhs, f);
        proof {
            assert forall|i: int| 0 <= i < self@.len() implies (#[trigger] r@[i]) == div_seq(
                self@,
                rhs@,
            )[i] by {}
            assert(r@ =~= div_seq(self@, rhs@));
        }
        r
    }

    /// Elementwise sign flip of the present values.
    pub fn neg(&self) -> (r: Series<u32>)
        ensures
            r@ == neg_seq(self@),
            r@.len() == self@.len(),
            forall|i: int|
                0 <= i < self@.len() ==> ((#[trigger] r@[i]) is None <==> self@[i] is None),
    {
        let f = |a: Option<u32>| -> (o: Option<u32>)
            ensures
                o == (match a {
                    Some(x) => Some(neg_bits(x)),
                    None => None,
                }),
            {
                match a {
                    Some(x) => Some(neg_f32(x)),
                    None => None,
                }
            };
        let r = self.fmap(f);
        proof {
            assert forall|i: int| 0 <= i < self@.len() implies (#[trigger] r@[i]) == neg_seq(
                self@,
            )[i] by {}
            assert(r@ =~= neg_seq(self@));
        }
        r
    }

    /// Broadcast addition of a scalar over every present value.
    pub fn add_scalar(&self, scalar: u32) -> (r: Series<u32>)
        ensures
            r@ == map_num_seq(self@, |x: u32| add_bits(x, scalar)),
            r@.len() == self@.len(),
            forall|i: int|
                0 <= i < self@.len() ==> ((#[trigger] r@[i]) is None <==> self@[i] is None),
    {
        let f = |a: Option<u32>| -> (o: Option<u32>)
            ensures
                o == (match a {
                    Some(x) => Some(add_bits(x, scalar)),
                    None => None,
                }),
            {
                match a {
                    Some(x) => Some(add_f32(x, scalar)),
                    None => None,
                }
            };
        let r = self.fmap(f);
        proof {
            let m = map_num_seq(self@, |x: u32| add_bits(x, scalar));
            assert forall|i: int| 0 <= i < self@.len() implies (#[trigger] r@[i]) == m[i] by {}
            assert(r@ =~= m);
        }
        r
    }

    /// Broadcast multiplication by a scalar over every present value.
    pub fn mul_scalar(&self, scalar: u32) -> (r: Series<u32>)
        ensures
            r@ == map_num_seq(self@, |x: u32| mul_bits(x, scalar)),
            r@.len() == self@.len(),
            forall|i: int|
                0 <= i < self@.len() ==> ((#[trigger] r@[i]) is None <==> self@[i] is None),
    {
        let f = |a: Option<u32>| -> (o: Option<u32>)
            ensures
                o == (match a {
                    Some(x) => Some(mul_bits(x, scalar)),
                    None => None,
                }),
            {
                match a {
                    Some(x) => Some(mul_f32(x, scalar)),
                    None => None,
                }
            };
        let r = self.fmap(f);
        proof {
            let m = map_num_seq(self@, |x: u32| mul_bits(x, scalar));
            assert forall|i: int| 0 <= i < self@.len() implies (#[trigger] r@[i]) == m[i] by {}
            assert(r@ =~= m);
        }
        r
    }

    /// Broadcast subtraction of a scalar from every present value.
    pub fn sub_scalar(&self, scalar: u32) -> (r: Series<u32>)
        ensures
            r@ == map_num_seq(self@, |x: u32| sub_bits(x, scalar)),
            r@.len() == self@.len(),
            forall|i: int|
                0 <= i < self@.len() ==> ((#[trigger] r@[i]) is None <==> self@[i] is None),
    {
        let f = |a: Option<u32>| -> (o: Option<u32>)
            ensures
                o == (match a {
                    Some(x) => Some(sub_bits(x, scalar)),
                    None => None,
                }),
            {
                match a {
                    Some(x) => Some(sub_f32(x, scalar)),
                    None => None,
                }
            };
        let r = self.fmap(f);
        proof {
            let m = map_num_seq(self@, |x: u32| sub_bits(x, scalar));
            assert forall|i: int| 0 <= i < self@.len() implies (#[trigger] r@[i]) == m[i] by {}
            assert(r@ =~= m);
        }
        r
    }

    /// Broadcast division of every present value by a scalar.  An
    /// exactly-zero scalar divisor yields 0.0, not null — a deliberate
    /// asymmetry from the series/series division rule.
    pub fn div_scalar(&self, scalar: u32) -> (r: Series<u32>)
        ensures
            r@ == div_scalar_seq(self@, scalar),
            r@.len() == self@.len(),
            forall|i: int|
                0 <= i < self@.len() ==> ((#[trigger] r@[i]) is None <==> self@[i] is None),
    {
        let zero_divisor = cmp_f32(scalar, F32_ZERO) == 0;
        let f = |a: Option<u32>| -> (o: Option<u32>)
            ensures
                o == (match a {
                    Some(x) => Some(
                        if cmp_bits(scalar, F32_ZERO) != 0 {
                            div_bits(x, scalar)
                        } else {
                            F32_ZERO
                        },
                    ),
                    None => None,
                }),
            {
                match a {
                    Some(x) => if zero_divisor {
                        Some(F32_ZERO)
                    } else {
                        Some(div_f32(x, scalar))
                    },
                    None => None,
                }
            };
        let r = self.fmap(f);
        proof {
            assert forall|i: int| 0 <= i < self@.len() implies (#[trigger] r@[i]) == div_scalar_seq(
                self@,
                scalar,
            )[i] by {}
            assert(r@ =~= div_scalar_seq(self@, scalar));
        }
        r
    }

    /// Scalar minus series, defined explicitly as negate-then-offset:
    /// the series is negated, then the negated scalar is subtracted.
    pub fn scalar_sub(&self, scalar: u32) -> (r: Series<u32>)
        ensures
            r@ == scalar_sub_seq(scalar, self@),
            r@.len() == self@.len(),
            forall|i: int|
                0 <= i < self@.len() ==> ((#[trigger] r@[i]) is None <==> self@[i] is None),
    {
        let r = self.neg().sub_scalar(neg_f32(scalar));
        proof {
            assert forall|i: int| 0 <= i < self@.len() implies (#[trigger] r@[i]) == scalar_sub_seq(
                scalar,
                self@,
            )[i] by {}
            assert(r@ =~= scalar_sub_seq(scalar, self@));
        }
        r
    }

    /// Scalar over series, defined explicitly as fill-then-divide: a
    /// constant series of the scalar is divided by this series, with the
    /// series/series zero-divisor guard.
    pub fn scalar_div(&self, scalar: u32) -> (r: Series<u32>)
        ensures
            r@ == div_seq(const_num_seq(self@.len(), scalar), self@),
            r@.len() == self@.len(),
    {
        let filled = Series::fill(scalar, self.len());
        proof {
            assert(filled@ =~= const_num_seq(self@.len(), scalar));
        }
        filled.div_series(self)
    }
}

impl Series<bool> {
    /// Elementwise combination of two boolean series under an arbitrary
    /// binary boolean operation: null unless both operands are present,
    /// otherwise whatever the operation returns for the two values.
    pub fn logical_op<F: Fn(bool, bool) -> bool>(&self, rhs: &Series<bool>, operation: F) -> (r:
        Series<bool>)
        requires
            self@.len() == rhs@.len(),
            forall|x: bool, y: bool| #[trigger] call_requires(operation, (x, y)),
        ensures
            r@.len() == self@.len(),
            forall|i: int|
                0 <= i < self@.len()
                    ==> ((#[trigger] r@[i]) is None <==> (self@[i] is None || rhs@[i] is None)),
            forall|i: int|
                0 <= i < self@.len()
                    ==> (self@[i] matches Some(x) ==> (rhs@[i] matches Some(y) ==> ((
                    #[trigger] r@[i]) matches Some(z) && call_ensures(operation, (x, y), z)))),
    {
        let n = self.len();
        let mut out: Vec<Option<bool>> = Vec::new();
        let mut j: usize = 0;
        while j < n
            invariant
                n == self@.len(),
                self@.len() == rhs@.len(),
                forall|x: bool, y: bool| #[trigger] call_requires(operation, (x, y)),
                j <= n,
                out@.len() == j,
                forall|i: int|
                    0 <= i < j
                        ==> ((#[trigger] out@[i]) is None <==> (self@[i] is None
                        || rhs@[i] is None)),
                forall|i: int|
                    0 <= i < j
                        ==> (self@[i] matches Some(x) ==> (rhs@[i] matches Some(y) ==> ((
                        #[trigger] out@[i]) matches Some(z) && call_ensures(
                            operation,
                            (x, y),
                            z,
                        )))),
            decreases n - j,
        {
            let o = match (self.at(j), rhs.at(j)) {
                (Some(x), Some(y)) => Some(operation(x, y)),
                _ => None,
            };
            out.push(o);
            j += 1;
        }
        Series::from_options(out)
    }

    /// Boolean conjunction: null unless both operands are present.
    pub fn bitand(&self, rhs: &Series<bool>) -> (r: Series<bool>)
        requires
            self@.len() == rhs@.len(),
        ensures
            r@ == and_seq(self@, rhs@),
            r@.len() == self@.len(),
            forall|i: int|
                0 <= i < self@.len()
                    ==> ((#[trigger] r@[i]) is None <==> (self@[i] is None || rhs@[i] is None)),
    {
        let op = |x: bool, y: bool| -> (z: bool)
            ensures
                z == (x && y),
            { x && y };
        let r = self.logical_op(rhs, op);
        proof {
            assert forall|i: int| 0 <= i < self@.len() implies (#[trigger] r@[i]) == and_seq(
                self@,
                rhs@,
            )[i] by {}
            assert(r@ =~= and_seq(self@, rhs@));
        }
        r
    }

    /// Boolean disjunction: null unless both operands are present.
    pub fn bitor(&self, rhs: &Series<bool>) -> (r: Series<bool>)
        requires
            self@.len() == rhs@.len(),
        ensures
            r@ == or_seq(self@, rhs@),
            r@.len() == self@.len(),
            forall|i: int|
                0 <= i < self@.len()
                    ==> ((#[trigger] r@[i]) is None <==> (self@[i] is None || rhs@[i] is None)),
    {
        let op = |x: bool, y: bool| -> (z: bool)
            ensures
                z == (x || y),
            { x || y };
        let r = self.logical_op(rhs, op);
        proof {
            assert forall|i: int| 0 <= i < self@.len() implies (#[trigger] r@[i]) == or_seq(
                self@,
                rhs@,
            )[i] by {}
            assert(r@ =~= or_seq(self@, rhs@));
        }
        r
    }

    /// Mask-multiply: select the numeric value where the mask is true,
    /// 0.0 where it is false, null where either operand is null.
    pub fn mul_series(&self, rhs: &Series<u32>) -> (r: Series<u32>)
        requires
            self@.len() == rhs@.len(),
        ensures
            r@ == mask_seq(self@, rhs@),
            r@.len() == self@.len(),
            forall|i: int|
                0 <= i < self@.len()
                    ==> ((#[trigger] r@[i]) is None <==> (self@[i] is None || rhs@[i] is None)),
    {
        let f = |a: Option<bool>, b: Option<u32>| -> (o: Option<u32>)
            ensures
                o == (match (a, b) {
                    (Some(c), Some(x)) => Some(
                        if c {
                            x
                        } else {
                            F32_ZERO
                        },
                    ),
                    _ => None,
                }),
            {
                match (a, b) {
                    (Some(c), Some(x)) => if c {
                        Some(x)
                    } else {
                        Some(F32_ZERO)
                    },
                    _ => None,
                }
            };
        let r = self.zip_with(rhs, f);
        proof {
            assert forall|i: int| 0 <= i < self@.len() implies (#[trigger] r@[i]) == mask_seq(
                self@,
                rhs@,
            )[i] by {}
            assert(r@ =~= mask_seq(self@, rhs@));
        }
        r
    }
}

} // verus!
