//! The generic null-aware sequence type and its foundational combinators.
//!
//! A `Series<T>` is an immutable, fixed-length, positionally indexed
//! sequence of optional values: position 0 is the oldest observation,
//! position `len - 1` the most recent.  A missing value (a "null",
//! `None`) means "not available" — insufficient history, a guarded
//! division, or an unresolved recurrence bootstrap.  Every operation
//! produces a fresh series; values are never mutated in place.
//!
//! The view of a series is the mathematical sequence of its optional
//! values, `Seq<Option<T>>`, and every contract in the engine is stated
//! over that view.

use vstd::prelude::*;

verus! {

/// An immutable, fixed-length sequence of optional values.
pub struct Series<T> {
    values: Vec<Option<T>>,
}

impl<T> View for Series<T> {
    type V = Seq<Option<T>>;

    closed spec fn view(&self) -> Seq<Option<T>> {
        self.values@
    }
}

/// The lag combinator's model: element `i` reads the source `k` positions
/// earlier, and the first `k` positions are null.
pub open spec fn shift_seq<T>(s: Seq<Option<T>>, k: nat) -> Seq<Option<T>> {
    Seq::new(s.len(), |i: int| if i >= k { s[i - k] } else { None })
}

/// The null-test combinator's model: a fully present boolean sequence
/// marking the null positions of the source.
pub open spec fn na_seq<T>(s: Seq<Option<T>>) -> Seq<Option<bool>> {
    Seq::new(s.len(), |i: int| Some(s[i] is None))
}

/// The null-substitution combinator's model: nulls are replaced by the
/// caller's default, present values pass through unchanged.
pub open spec fn nz_seq<T>(s: Seq<Option<T>>, default: Option<T>) -> Seq<Option<T>> {
    Seq::new(s.len(), |i: int| if s[i] is Some { s[i] } else { default })
}

/// A lag of zero is the identity transform: the result has the same
/// length, no position is nulled, and every position reads itself.
pub proof fn lemma_shift_zero_identity<T>(s: Seq<Option<T>>)
    ensures
        shift_seq(s, 0) == s,
{
    assert(shift_seq(s, 0) =~= s);
}

/// Determinism: every combinator of the engine states in its contract
/// that the view of its result equals a spec-level model of the views of
/// its inputs, so two evaluations of the same combinator on identical
/// inputs yield bit-identical output.  This lemma is that argument, for
/// any model value.
pub proof fn lemma_eval_deterministic<V>(model: V, r1: V, r2: V)
    requires
        r1 == model,
        r2 == model,
    ensures
        r1 == r2,
{
}

/// What the windowed-reduction combinator guarantees of one output
/// element: null while the window is still filling, and otherwise a
/// possible result of the reduction function on the gathered window, the
/// nominal width and the index.
pub open spec fn window_result_ok<T, F: Fn(Vec<Option<T>>, usize, usize) -> Option<T>>(
    f: F,
    s: Seq<Option<T>>,
    period: usize,
    i: int,
    o: Option<T>,
) -> bool {
    if i + 1 >= period {
        exists|w: Vec<Option<T>>|
            w@ == s.subrange(i + 1 - period, i + 1) && #[trigger] call_ensures(
                f,
                (w, period, i as usize),
                o,
            )
    } else {
        o is None
    }
}

impl<T: Copy> Series<T> {
    /// The number of positions in the series, fixed at construction.
    pub fn len(&self) -> (n: usize)
        ensures
            n == self@.len(),
    {
        self.values.len()
    }

    /// Wraps each raw value as present; the length is the input's length.
    pub fn from_values(values: Vec<T>) -> (r: Series<T>)
        ensures
            r@.len() == values@.len(),
            forall|i: int| 0 <= i < values@.len() ==> r@[i] == Some(values@[i]),
    {
        let n = values.len();
        let mut out: Vec<Option<T>> = Vec::new();
        let mut j: usize = 0;
        while j < n
            invariant
                n == values@.len(),
                j <= n,
                out@.len() == j,
                forall|i: int| 0 <= i < j ==> out@[i] == Some(values@[i]),
            decreases n - j,
        {
            out.push(Some(values[j]));
            j += 1;
        }
        Series { values: out }
    }

    /// Adopts a sequence of optional values as a series.
    pub fn from_options(values: Vec<Option<T>>) -> (r: Series<T>)
        ensures
            r@ == values@,
    {
        Series { values }
    }

    /// A constant, fully present series of the given length.
    pub fn fill(scalar: T, len: usize) -> (r: Series<T>)
        ensures
            r@.len() == len,
            forall|i: int| 0 <= i < len ==> r@[i] == Some(scalar),
    {
        let mut out: Vec<Option<T>> = Vec::new();
        let mut j: usize = 0;
        while j < len
            invariant
                j <= len,
                out@.len() == j,
                forall|i: int| 0 <= i < j ==> out@[i] == Some(scalar),
            decreases len - j,
        {
            out.push(Some(scalar));
            j += 1;
        }
        Series { values: out }
    }

    /// An all-null series of the given length.
    pub fn empty(len: usize) -> (r: Series<T>)
        ensures
            r@.len() == len,
            forall|i: int| 0 <= i < len ==> r@[i] is None,
    {
        let mut out: Vec<Option<T>> = Vec::new();
        let mut j: usize = 0;
        while j < len
            invariant
                j <= len,
                out@.len() == j,
                forall|i: int| 0 <= i < j ==> out@[i] is None,
            decreases len - j,
        {
            out.push(None);
            j += 1;
        }
        Series { values: out }
    }

    /// Lag by `k` positions: element `i` reads the source at `i - k`; the
    /// first `k` elements are null; the length is unchanged.  A lag of 0
    /// is the identity transform.
    pub fn shift(&self, k: usize) -> (r: Series<T>)
        ensures
            r@ == shift_seq(self@, k as nat),
            r@.len() == self@.len(),
            forall|i: int| 0 <= i < k && i < self@.len() ==> r@[i] is None,
            forall|i: int| k <= i < self@.len() ==> r@[i] == self@[i - k],
    {
        let n = self.values.len();
        let mut out: Vec<Option<T>> = Vec::new();
        let mut j: usize = 0;
        while j < n
            invariant
                n == self@.len(),
                j <= n,
                out@.len() == j,
                forall|i: int| 0 <= i < j ==> out@[i] == shift_seq(self@, k as nat)[i],
            decreases n - j,
        {
            if j >= k {
                out.push(self.values[j - k]);
            } else {
                out.push(None);
            }
            j += 1;
        }
        proof {
            assert(out@ =~= shift_seq(self@, k as nat));
        }
        Series { values: out }
    }

    /// True where the series is null.
    pub fn na(&self) -> (r: Series<bool>)
        ensures
            r@ == na_seq(self@),
            r@.len() == self@.len(),
            forall|i: int| 0 <= i < self@.len() ==> r@[i] == Some(self@[i] is None),
    {
        let n = self.values.len();
        let mut out: Vec<Option<bool>> = Vec::new();
        let mut j: usize = 0;
        while j < n
            invariant
                n == self@.len(),
                j <= n,
                out@.len() == j,
                forall|i: int| 0 <= i < j ==> out@[i] == na_seq(self@)[i],
            decreases n - j,
        {
            out.push(Some(self.values[j].is_none()));
            j += 1;
        }
        proof {
            assert(out@ =~= na_seq(self@));
        }
        Series { values: out }
    }

    /// Substitutes the caller's default wherever the series is null and
    /// passes present values through unchanged.
    pub fn nz(&self, default: Option<T>) -> (r: Series<T>)
        ensures
            r@ == nz_seq(self@, default),
            r@.len() == self@.len(),
            forall|i: int| 0 <= i < self@.len() && self@[i] is Some ==> r@[i] == self@[i],
            forall|i: int| 0 <= i < self@.len() && self@[i] is None ==> r@[i] == default,
    {
        let n = self.values.len();
        let mut out: Vec<Option<T>> = Vec::new();
        let mut j: usize = 0;
        while j < n
            invariant
                n == self@.len(),
                j <= n,
                out@.len() == j,
                forall|i: int| 0 <= i < j ==> out@[i] == nz_seq(self@, default)[i],
            decreases n - j,
        {
            match self.values[j] {
                Some(v) => out.push(Some(v)),
                None => out.push(default),
            }
            j += 1;
        }
        proof {
            assert(out@ =~= nz_seq(self@, default));
        }
        Series { values: out }
    }

    /// Materializes the series into a plain vector of optional values for
    /// consumption at a system boundary.
    pub fn to_options(&self) -> (r: Vec<Option<T>>)
        ensures
            r@ == self@,
    {
        let n = self.values.len();
        let mut out: Vec<Option<T>> = Vec::new();
        let mut j: usize = 0;
        while j < n
            invariant
                n == self@.len(),
                j <= n,
                out@.len() == j,
                forall|i: int| 0 <= i < j ==> out@[i] == self@[i],
            decreases n - j,
        {
            out.push(self.values[j]);
            j += 1;
        }
        proof {
            assert(out@ =~= self@);
        }
        out
    }

    /// Materializes the series into a plain vector of underlying values,
    /// substituting the caller's default wherever the series is null:
    /// the substitution policy at a boundary belongs to the caller.
    pub fn to_values(&self, default: T) -> (r: Vec<T>)
        ensures
            r@.len() == self@.len(),
            forall|i: int|
                0 <= i < self@.len() ==> r@[i] == (match self@[i] {
                    Some(v) => v,
                    None => default,
                }),
    {
        let n = self.values.len();
        let mut out: Vec<T> = Vec::new();
        let mut j: usize = 0;
        while j < n
            invariant
                n == self@.len(),
                j <= n,
                out@.len() == j,
                forall|i: int|
                    0 <= i < j ==> out@[i] == (match self@[i] {
                        Some(v) => v,
                        None => default,
                    }),
            decreases n - j,
        {
            match self.values[j] {
                Some(v) => out.push(v),
                None => out.push(default),
            }
            j += 1;
        }
        out
    }

    /// Reads one position of the series.
    pub fn at(&self, i: usize) -> (r: Option<T>)
        requires
            i < self@.len(),
        ensures
            r == self@[i as int],
    {
        self.values[i]
    }

    /// Elementwise combination of two series of equal length: element `i`
    /// of the result is whatever the combining function returns for the
    /// two operand elements at `i`.  Null handling is entirely the
    /// combining function's choice.
    pub fn zip_with<U: Copy, V, F: Fn(Option<T>, Option<U>) -> Option<V>>(
        &self,
        other: &Series<U>,
        f: F,
    ) -> (r: Series<V>)
        requires
            self@.len() == other@.len(),
            forall|i: int|
                0 <= i < self@.len() ==> call_requires(f, (self@[i], other@[i])),
        ensures
            r@.len() == self@.len(),
            forall|i: int|
                0 <= i < self@.len() ==> call_ensures(f, (self@[i], other@[i]), #[trigger] r@[i]),
    {
        let n = self.values.len();
        let mut out: Vec<Option<V>> = Vec::new();
        let mut j: usize = 0;
        while j < n
            invariant
                n == self@.len(),
                self@.len() == other@.len(),
                forall|i: int|
                    0 <= i < self@.len() ==> call_requires(f, (self@[i], other@[i])),
                j <= n,
                out@.len() == j,
                forall|i: int|
                    0 <= i < j ==> call_ensures(f, (self@[i], other@[i]), #[trigger] out@[i]),
            decreases n - j,
        {
            out.push(f(self.values[j], other.values[j]));
            j += 1;
        }
        Series { values: out }
    }

    /// Windowed reduction.  For each index `i` from `period - 1` on, the
    /// trailing window of `period` optional values ending at `i` is
    /// gathered and handed to `f` together with the nominal window width
    /// and the index, and the result becomes element `i`.  Indices before
    /// the window is fully populated yield null — a warm-up prefix of
    /// length `period - 1` — regardless of how `f` treats null entries
    /// inside the window.
    pub fn sliding_map<F: Fn(Vec<Option<T>>, usize, usize) -> Option<T>>(
        &self,
        period: usize,
        f: F,
    ) -> (r: Series<T>)
        requires
            forall|w: Vec<Option<T>>, i: usize|
                i < self@.len() && i + 1 >= period && w@ == self@.subrange(i + 1 - period, i + 1)
                    ==> #[trigger] call_requires(f, (w, period, i)),
        ensures
            r@.len() == self@.len(),
            forall|i: int|
                0 <= i < self@.len() ==> window_result_ok(f, self@, period, i, #[trigger] r@[i]),
    {
        let n = self.values.len();
        let mut out: Vec<Option<T>> = Vec::new();
        let mut j: usize = 0;
        while j < n
            invariant
                n == self@.len(),
                forall|w: Vec<Option<T>>, i: usize|
                    i < self@.len() && i + 1 >= period && w@ == self@.subrange(i + 1 - period, i
                        + 1) ==> #[trigger] call_requires(f, (w, period, i)),
                j <= n,
                out@.len() == j,
                forall|i: int|
                    0 <= i < j ==> window_result_ok(f, self@, period, i, #[trigger] out@[i]),
            decreases n - j,
        {
            if j + 1 >= period {
                let lo = j + 1 - period;
                let mut w: Vec<Option<T>> = Vec::new();
                let mut k: usize = lo;
                while k < j + 1
                    invariant
                        n == self@.len(),
                        j < n,
                        lo == j + 1 - period,
                        lo <= k <= j + 1,
                        w@.len() == k - lo,
                        forall|m: int| 0 <= m < k - lo ==> w@[m] == self@[lo + m],
                    decreases j + 1 - k,
                {
                    w.push(self.values[k]);
                    k += 1;
                }
                proof {
                    assert(w@ =~= self@.subrange(j + 1 - period, j + 1));
                }
                let o = f(w, period, j);
                out.push(o);
                proof {
                    assert(call_ensures(f, (w, period, j), o));
                    assert(window_result_ok(f, self@, period, j as int, o));
                }
            } else {
                out.push(None);
            }
            j += 1;
        }
        Series { values: out }
    }

    /// Elementwise map over the optional value: element `i` of the result
    /// is whatever the mapped function returns for the operand element at
    /// `i`, so nullness is preserved exactly when the function preserves
    /// it.
    pub fn fmap<V, F: Fn(Option<T>) -> Option<V>>(&self, f: F) -> (r: Series<V>)
        requires
            forall|i: int| 0 <= i < self@.len() ==> call_requires(f, (self@[i],)),
        ensures
            r@.len() == self@.len(),
            forall|i: int|
                0 <= i < self@.len() ==> call_ensures(f, (self@[i],), #[trigger] r@[i]),
    {
        let n = self.values.len();
        let mut out: Vec<Option<V>> = Vec::new();
        let mut j: usize = 0;
        while j < n
            invariant
                n == self@.len(),
                forall|i: int| 0 <= i < self@.len() ==> call_requires(f, (self@[i],)),
                j <= n,
                out@.len() == j,
                forall|i: int|
                    0 <= i < j ==> call_ensures(f, (self@[i],), #[trigger] out@[i]),
            decreases n - j,
        {
            out.push(f(self.values[j]));
            j += 1;
        }
        Series { values: out }
    }
}

} // verus!
