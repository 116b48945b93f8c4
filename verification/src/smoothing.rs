//! Recurrence-based smoothing: the moving-average family and the generic
//! exponentially-weighted recurrence it is built from.
//!
//! Every transform here is a pure, total function over a whole series:
//! feedback ("today's output depends on yesterday's output") is expressed
//! as a single left-to-right pass with an explicit carry, and warm-up is
//! expressed as a null prefix.  No numeric edge case raises an error —
//! all are resolved to null; only mismatched operand lengths are a
//! contract violation, excluded by `requires`.

use vstd::prelude::*;

use crate::fbits::F32_NEG_ONE;
use crate::fbits::F32_ONE;
use crate::fbits::F32_TWO;
use crate::fbits::F32_ZERO;
use crate::fbits::add_bits;
use crate::fbits::add_f32;
use crate::fbits::div_bits;
use crate::fbits::div_f32;
use crate::fbits::mul_bits;
use crate::fbits::mul_f32;
use crate::fbits::neg_bits;
use crate::fbits::neg_f32;
use crate::fbits::sub_bits;
use crate::fbits::sub_f32;
use crate::fbits::usize_bits;
use crate::fbits::usize_f32;
use crate::fbits::F32_SIX;
use crate::ops::add_seq;
use crate::ops::const_num_seq;
use crate::ops::div_scalar_seq;
use crate::ops::div_seq;
use crate::ops::map_num_seq;
use crate::ops::mul_seq;
use crate::ops::sub_seq;
use crate::series::Series;
use crate::series::shift_seq;

verus! {

/// The complementary weight `1 - alpha`, composed exactly as the scalar-
/// minus-series operation composes it: negate, then subtract -1.
pub open spec fn one_minus_bits(a: u32) -> u32 {
    sub_bits(neg_bits(a), F32_NEG_ONE)
}

fn one_minus_f32(a: u32) -> (r: u32)
    ensures
        r == one_minus_bits(a),
{
    sub_f32(neg_f32(a), F32_NEG_ONE)
}

/// One element of the exponentially-weighted recurrence.  Element 0 is
/// the seed.  Later elements blend the source into the previous output
/// under the per-index weight — unless the previous output is null, in
/// which case the recurrence bootstraps from the seed again.
pub open spec fn ew_at(
    src: Seq<Option<u32>>,
    alpha: Seq<Option<u32>>,
    seed: Seq<Option<u32>>,
    i: int,
) -> Option<u32>
    decreases i,
{
    if i <= 0 {
        seed[0]
    } else {
        match ew_at(src, alpha, seed, i - 1) {
            None => seed[i],
            Some(prev) => match (alpha[i], src[i]) {
                (Some(al), Some(x)) => Some(
                    add_bits(mul_bits(al, x), mul_bits(one_minus_bits(al), prev)),
                ),
                _ => None,
            },
        }
    }
}

/// The model of the exponentially-weighted recurrence over a whole
/// series.
pub open spec fn ew_seq(
    src: Seq<Option<u32>>,
    alpha: Seq<Option<u32>>,
    seed: Seq<Option<u32>>,
) -> Seq<Option<u32>> {
    Seq::new(src.len(), |i: int| ew_at(src, alpha, seed, i))
}

/// The constant weight of the exponential moving average,
/// 2 / (period + 1).
pub open spec fn ema_alpha(period: usize) -> u32 {
    div_bits(F32_TWO, add_bits(usize_bits(period), F32_ONE))
}

/// The model of the exponential moving average: the recurrence under the
/// constant weight 2 / (period + 1), seeded by the source itself, so
/// every reset falls back to the raw source value.
pub open spec fn ema_seq(s: Seq<Option<u32>>, period: usize) -> Seq<Option<u32>> {
    ew_seq(s, const_num_seq(s.len(), ema_alpha(period)), s)
}

/// The running sum of the first `k` lag terms of the weighted moving
/// average: lag `j` carries the integer weight `period - j`.
pub open spec fn wma_acc(s: Seq<Option<u32>>, period: usize, k: int) -> Seq<Option<u32>>
    decreases k,
{
    if k <= 0 {
        const_num_seq(s.len(), F32_ZERO)
    } else {
        add_seq(
            wma_acc(s, period, k - 1),
            map_num_seq(
                shift_seq(s, (k - 1) as nat),
                |x: u32| mul_bits(x, usize_bits((period - (k - 1)) as usize)),
            ),
        )
    }
}

/// The running IEEE sum of the first `k` integer weights of the weighted
/// moving average.
pub open spec fn wma_norm(period: usize, k: int) -> u32
    decreases k,
{
    if k <= 0 {
        F32_ZERO
    } else {
        add_bits(wma_norm(period, k - 1), usize_bits((period - (k - 1)) as usize))
    }
}

/// The model of the weighted moving average: the weighted sum of the
/// lags 0 .. period - 1, scaled by the accumulated weight sum.  It is
/// null wherever any contributing lag is null, so the first period - 1
/// indices are null.
pub open spec fn wma_seq(s: Seq<Option<u32>>, period: usize) -> Seq<Option<u32>> {
    div_scalar_seq(wma_acc(s, period, period as int), wma_norm(period, period as int))
}

/// The model of the symmetric weighted moving average: the fixed 4-tap
/// kernel [1, 2, 2, 1] / 6 over the current value and its three
/// predecessors, accumulated term by term.
pub open spec fn swma_seq(s: Seq<Option<u32>>) -> Seq<Option<u32>> {
    let t3 = div_scalar_seq(map_num_seq(shift_seq(s, 3), |x: u32| mul_bits(x, F32_ONE)), F32_SIX);
    let t2 = div_scalar_seq(map_num_seq(shift_seq(s, 2), |x: u32| mul_bits(x, F32_TWO)), F32_SIX);
    let t1 = div_scalar_seq(map_num_seq(shift_seq(s, 1), |x: u32| mul_bits(x, F32_TWO)), F32_SIX);
    let t0 = div_scalar_seq(map_num_seq(s, |x: u32| mul_bits(x, F32_ONE)), F32_SIX);
    add_seq(add_seq(add_seq(t3, t2), t1), t0)
}

/// Each partial weighted sum spans the whole source.
proof fn lemma_wma_acc_len(s: Seq<Option<u32>>, period: usize, k: int)
    ensures
        wma_acc(s, period, k).len() == s.len(),
    decreases k,
{
    if k > 0 {
        lemma_wma_acc_len(s, period, k - 1);
    }
}

/// Each partial weighted sum is present exactly where every contributing
/// lag is, which over a fully present source means from index `k - 1`
/// on.
proof fn lemma_wma_acc_presence(s: Seq<Option<u32>>, period: usize, k: int, i: int)
    requires
        forall|j: int| 0 <= j < s.len() ==> s[j] is Some,
        0 <= i < s.len(),
        k <= period,
    ensures
        wma_acc(s, period, k)[i] is Some <==> i >= k - 1,
    decreases k,
{
    if k > 0 {
        lemma_wma_acc_presence(s, period, k - 1, i);
        lemma_wma_acc_len(s, period, k - 1);
        if i >= k - 1 {
            assert(s[i - (k - 1)] is Some);
        }
        assert(shift_seq(s, (k - 1) as nat)[i] is Some <==> i >= k - 1);
        assert(map_num_seq(
            shift_seq(s, (k - 1) as nat),
            |x: u32| mul_bits(x, usize_bits((period - (k - 1)) as usize)),
        )[i] is Some <==> i >= k - 1);
        assert(wma_acc(s, period, k)[i] is Some <==> (wma_acc(s, period, k - 1)[i] is Some && i
            >= k - 1));
    }
}

/// The weighted moving average of a fully present source is null exactly
/// on the warm-up prefix: the first `period - 1` indices and nowhere
/// else.
pub proof fn lemma_wma_null_prefix(s: Seq<Option<u32>>, period: usize, i: int)
    requires
        forall|j: int| 0 <= j < s.len() ==> s[j] is Some,
        0 <= i < s.len(),
    ensures
        wma_seq(s, period)[i] is Some <==> i + 1 >= period,
{
    lemma_wma_acc_presence(s, period, period as int, i);
    lemma_wma_acc_len(s, period, period as int);
    assert(wma_seq(s, period)[i] is Some <==> wma_acc(s, period, period as int)[i] is Some);
}

/// The smoothed moving average of a fully present source becomes
/// non-null exactly where its seed — the simple moving average — does:
/// the recurrence bootstraps from the null seed through the warm-up
/// prefix and stays present from index `period - 1` on.
pub proof fn lemma_smma_presence(s: Seq<Option<u32>>, period: usize, i: int)
    requires
        forall|j: int| 0 <= j < s.len() ==> s[j] is Some,
        0 <= i < s.len(),
    ensures
        smma_seq(s, period)[i] is Some <==> ma_seq(s, period)[i] is Some,
        smma_seq(s, period)[i] is Some <==> i + 1 >= period,
    decreases i,
{
    if i > 0 {
        lemma_smma_presence(s, period, i - 1);
    }
}

/// The integer square root, truncated toward zero: the largest `r` with
/// `r * r <= n`, built up one candidate at a time.
pub open spec fn sqrt_floor(n: nat) -> nat
    decreases n,
{
    if n == 0 {
        0
    } else if (sqrt_floor((n - 1) as nat) + 1) * (sqrt_floor((n - 1) as nat) + 1) <= n {
        sqrt_floor((n - 1) as nat) + 1
    } else {
        sqrt_floor((n - 1) as nat)
    }
}

/// The integer square root is bracketed by the two neighbouring squares.
proof fn lemma_sqrt_floor_bounds(n: nat)
    ensures
        sqrt_floor(n) * sqrt_floor(n) <= n,
        n < (sqrt_floor(n) + 1) * (sqrt_floor(n) + 1),
    decreases n,
{
    if n > 0 {
        lemma_sqrt_floor_bounds((n - 1) as nat);
        let p = sqrt_floor((n - 1) as nat);
        if (p + 1) * (p + 1) <= n {
            assert(sqrt_floor(n) == p + 1);
            assert(n == (p + 1) * (p + 1));
            assert(n < (p + 2) * (p + 2)) by (nonlinear_arith)
                requires
                    n == (p + 1) * (p + 1),
                    p >= 0;
            assert(sqrt_floor(n) * sqrt_floor(n) <= n);
            assert(n < (sqrt_floor(n) + 1) * (sqrt_floor(n) + 1));
        } else {
            assert(sqrt_floor(n) == p);
            assert(sqrt_floor(n) * sqrt_floor(n) <= n);
            assert(n < (sqrt_floor(n) + 1) * (sqrt_floor(n) + 1));
        }
    } else {
        assert(sqrt_floor(n) == 0);
        assert(sqrt_floor(n) * sqrt_floor(n) <= n);
        assert((sqrt_floor(n) + 1) * (sqrt_floor(n) + 1) == 1) by (nonlinear_arith)
            requires
                sqrt_floor(n) == 0;
        assert(n < (sqrt_floor(n) + 1) * (sqrt_floor(n) + 1));
    }
}

/// Any value bracketed by its neighbouring squares is the integer square
/// root: the bracketing pins it down uniquely.
proof fn lemma_sqrt_floor_unique(n: nat, r: nat)
    requires
        r * r <= n,
        n < (r + 1) * (r + 1),
    ensures
        r == sqrt_floor(n),
{
    lemma_sqrt_floor_bounds(n);
    let s = sqrt_floor(n);
    if r < s {
        assert((r + 1) * (r + 1) <= s * s) by (nonlinear_arith)
            requires
                r + 1 <= s,
                r >= 0;
    }
    if s < r {
        assert((s + 1) * (s + 1) <= r * r) by (nonlinear_arith)
            requires
                s + 1 <= r,
                s >= 0;
    }
}

/// The integer square root of `n`, truncated toward zero.
pub fn isqrt(n: usize) -> (r: usize)
    ensures
        r == sqrt_floor(n as nat),
        r * r <= n,
{
    let mut r: usize = 0;
    loop
        invariant
            (r as nat) * (r as nat) <= n as nat,
            r < 0x1_0000_0000,
            r <= n,
        ensures
            (r as nat) * (r as nat) <= n as nat,
            (n as nat) < (r as nat + 1) * (r as nat + 1),
        decreases n - r,
    {
        proof {
            assert((r as u128 + 1) * (r as u128 + 1) < 0x1_0000_0000_0000_0000_0000_0000_0000_0000)
                by (nonlinear_arith)
                requires
                    (r as u128) < 0x1_0000_0000;
        }
        let next = (r as u128 + 1) * (r as u128 + 1);
        if next <= n as u128 {
            proof {
                assert(r as u128 + 1 <= next) by (nonlinear_arith)
                    requires
                        next == (r as u128 + 1) * (r as u128 + 1),
                        r as u128 >= 0;
                assert(r as u128 + 1 < 0x1_0000_0000) by (nonlinear_arith)
                    requires
                        (r as u128 + 1) * (r as u128 + 1) <= n as u128,
                        (n as u128) < 0x1_0000_0000_0000_0000;
            }
            r = r + 1;
        } else {
            break ;
        }
    }
    proof {
        lemma_sqrt_floor_unique(n as nat, r as nat);
        assert(r * r <= n) by (nonlinear_arith)
            requires
                (r as nat) * (r as nat) <= n as nat;
    }
    r
}

/// The half-period lag of the hull moving average: half the period,
/// rounded half away from zero.
pub open spec fn half_up(period: usize) -> usize {
    ((period + 1) / 2) as usize
}

/// The model of the hull moving average: a three-stage cascade — the
/// weighted moving averages at the rounded half period and at the full
/// period, combined as twice the first minus the second, then smoothed
/// again by a weighted moving average at the truncated square root of
/// the period.
pub open spec fn hma_seq(s: Seq<Option<u32>>, period: usize) -> Seq<Option<u32>> {
    wma_seq(
        sub_seq(
            map_num_seq(wma_seq(s, half_up(period)), |x: u32| mul_bits(x, F32_TWO)),
            wma_seq(s, period),
        ),
        sqrt_floor(period as nat) as usize,
    )
}

/// The synthetic index series 0, 1, 2, .., n - 1, each index rounded to
/// its single-precision pattern, fully present.
pub open spec fn idx_seq(n: nat) -> Seq<Option<u32>> {
    Seq::new(n, |i: int| Some(usize_bits(i as usize)))
}

/// The model of the rolling ordinary-least-squares fit: rolling means of
/// the synthetic index x, the source y, x·y and x², a slope and an
/// intercept from those means under the guarded division rule, and the
/// regression line evaluated at the current absolute index.
pub open spec fn linreg_seq(s: Seq<Option<u32>>, period: usize) -> Seq<Option<u32>> {
    let x = idx_seq(s.len());
    let x_mean = ma_seq(x, period);
    let y_mean = ma_seq(s, period);
    let xy_ma = ma_seq(mul_seq(x, s), period);
    let xx_ma = ma_seq(mul_seq(x, x), period);
    let slope = div_seq(
        sub_seq(xy_ma, mul_seq(x_mean, y_mean)),
        sub_seq(xx_ma, mul_seq(x_mean, x_mean)),
    );
    let intercept = sub_seq(y_mean, mul_seq(slope, x_mean));
    add_seq(intercept, mul_seq(slope, x))
}

/// The constant weight of the smoothed moving average, 1 / period.
pub open spec fn smma_alpha(period: usize) -> u32 {
    div_bits(F32_ONE, usize_bits(period))
}

/// The model of the smoothed moving average: the recurrence under the
/// constant weight 1 / period, seeded by the simple moving average.
pub open spec fn smma_seq(s: Seq<Option<u32>>, period: usize) -> Seq<Option<u32>> {
    ew_seq(s, const_num_seq(s.len(), smma_alpha(period)), ma_seq(s, period))
}

/// The running IEEE sum of the present values of `s` at positions
/// `lo..hi`, accumulated left to right from 0.0, skipping nulls.
pub open spec fn win_sum(s: Seq<Option<u32>>, lo: int, hi: int) -> u32
    decreases hi - lo,
{
    if hi <= lo {
        F32_ZERO
    } else {
        match s[hi - 1] {
            Some(v) => add_bits(win_sum(s, lo, hi - 1), v),
            None => win_sum(s, lo, hi - 1),
        }
    }
}

/// The window sum reads only the positions `lo..hi`.
proof fn lemma_win_sum_congruent(s1: Seq<Option<u32>>, s2: Seq<Option<u32>>, lo: int, hi: int)
    requires
        forall|m: int| lo <= m < hi ==> s1[m] == s2[m],
    ensures
        win_sum(s1, lo, hi) == win_sum(s2, lo, hi),
    decreases hi - lo,
{
    if hi > lo {
        lemma_win_sum_congruent(s1, s2, lo, hi - 1);
    }
}

/// Summing a gathered window is the same as summing the source positions
/// the window was gathered from.
proof fn lemma_win_sum_subrange(s: Seq<Option<u32>>, lo: int, hi: int)
    requires
        0 <= lo <= hi <= s.len(),
    ensures
        win_sum(s.subrange(lo, hi), 0, hi - lo) == win_sum(s, lo, hi),
    decreases hi - lo,
{
    if hi > lo {
        lemma_win_sum_subrange(s, lo, hi - 1);
        lemma_win_sum_congruent(s.subrange(lo, hi - 1), s.subrange(lo, hi), 0, hi - 1 - lo);
        assert(s.subrange(lo, hi)[hi - 1 - lo] == s[hi - 1]);
    }
}

/// The model of the simple moving average: from index `period - 1` on,
/// the present values of the trailing window are summed and divided by
/// the nominal window width — not by the count of present values — and
/// earlier indices are null.
pub open spec fn ma_seq(s: Seq<Option<u32>>, period: usize) -> Seq<Option<u32>> {
    Seq::new(
        s.len(),
        |i: int|
            if i + 1 >= period {
                Some(div_bits(win_sum(s, i + 1 - period, i + 1), usize_bits(period)))
            } else {
                None
            },
    )
}

/// A tagged choice among the named smoothing transforms, for callers
/// that select a smoother dynamically rather than by name.
#[derive(Clone, Copy, PartialEq, Eq, Structural, Debug)]
pub enum SmoothKind {
    Simple,
    Exponential,
    Smoothed,
    Weighted,
    Hull,
}

/// The model of the dispatching transform: each tag selects the model of
/// the transform it names.
pub open spec fn smooth_seq(kind: SmoothKind, s: Seq<Option<u32>>, period: usize) -> Seq<
    Option<u32>,
> {
    match kind {
        SmoothKind::Simple => ma_seq(s, period),
        SmoothKind::Exponential => ema_seq(s, period),
        SmoothKind::Smoothed => smma_seq(s, period),
        SmoothKind::Weighted => wma_seq(s, period),
        SmoothKind::Hull => hma_seq(s, period),
    }
}

impl Series<u32> {
    /// Simple moving average over a trailing window of nominal width
    /// `period`, computed by windowed reduction: the present values in
    /// the window are summed and divided by the nominal width, and the
    /// warm-up prefix of length `period - 1` is null.
    pub fn ma(&self, period: usize) -> (r: Series<u32>)
        ensures
            r@ == ma_seq(self@, period),
            r@.len() == self@.len(),
            forall|i: int| 0 <= i < self@.len() && i + 1 < period ==> (#[trigger] r@[i]) is None,
            forall|i: int| 0 <= i < self@.len() && i + 1 >= period ==> (#[trigger] r@[i]) is Some,
    {
        let g = |w: Vec<Option<u32>>, size: usize, idx: usize| -> (o: Option<u32>)
            ensures
                o == Some(div_bits(win_sum(w@, 0, w@.len() as int), usize_bits(size))),
            {
                let m = w.len();
                let mut sum: u32 = F32_ZERO;
                let mut k: usize = 0;
                while k < m
                    invariant
                        m == w@.len(),
                        k <= m,
                        sum == win_sum(w@, 0, k as int),
                    decreases m - k,
                {
                    match w[k] {
                        Some(v) => {
                            sum = add_f32(sum, v);
                        },
                        None => {},
                    }
                    k += 1;
                }
                Some(div_f32(sum, usize_f32(size)))
            };
        let r = self.sliding_map(period, g);
        proof {
            assert forall|i: int| 0 <= i < self@.len() implies (#[trigger] r@[i]) == ma_seq(
                self@,
                period,
            )[i] by {
                if i + 1 >= period {
                    let w = choose|w: Vec<Option<u32>>|
                        w@ == self@.subrange(i + 1 - period, i + 1) && call_ensures(
                            g,
                            (w, period, i as usize),
                            r@[i],
                        );
                    assert(w@.len() == period);
                    lemma_win_sum_subrange(self@, i + 1 - period, i + 1);
                }
            }
            assert(r@ =~= ma_seq(self@, period));
        }
        r
    }

    /// The generic exponentially-weighted recurrence: element 0 is the
    /// seed, and each later element blends the source into the previous
    /// output under the per-index weight, bootstrapping from the seed
    /// wherever the previous output is null.  Computed as a single
    /// left-to-right pass with an explicit carry.
    pub fn ew(&self, alpha: &Series<u32>, seed: &Series<u32>) -> (r: Series<u32>)
        requires
            alpha@.len() == self@.len(),
            seed@.len() == self@.len(),
        ensures
            r@ == ew_seq(self@, alpha@, seed@),
            r@.len() == self@.len(),
    {
        let n = self.len();
        let mut out: Vec<Option<u32>> = Vec::new();
        let mut carry: Option<u32> = None;
        let mut j: usize = 0;
        while j < n
            invariant
                n == self@.len(),
                alpha@.len() == n,
                seed@.len() == n,
                j <= n,
                out@.len() == j,
                forall|i: int| 0 <= i < j ==> out@[i] == ew_at(self@, alpha@, seed@, i),
                carry == (if j == 0 {
                    None::<u32>
                } else {
                    ew_at(self@, alpha@, seed@, j - 1)
                }),
            decreases n - j,
        {
            let cur: Option<u32> = match carry {
                None => seed.at(j),
                Some(prev) => match (alpha.at(j), self.at(j)) {
                    (Some(al), Some(x)) => Some(
                        add_f32(mul_f32(al, x), mul_f32(one_minus_f32(al), prev)),
                    ),
                    _ => None,
                },
            };
            out.push(cur);
            carry = cur;
            j += 1;
        }
        proof {
            assert(out@ =~= ew_seq(self@, alpha@, seed@));
        }
        Series::from_options(out)
    }

    /// Exponential moving average: the recurrence under the constant
    /// weight 2 / (period + 1), seeded by the source itself.
    pub fn ema(&self, period: usize) -> (r: Series<u32>)
        ensures
            r@ == ema_seq(self@, period),
            r@.len() == self@.len(),
    {
        let a = div_f32(F32_TWO, add_f32(usize_f32(period), F32_ONE));
        let alpha = Series::fill(a, self.len());
        proof {
            assert(alpha@ =~= const_num_seq(self@.len(), ema_alpha(period)));
        }
        self.ew(&alpha, self)
    }

    /// Smoothed moving average: the recurrence under the constant weight
    /// 1 / period, seeded by the simple moving average, so it becomes
    /// non-null where the seed does.
    pub fn smma(&self, period: usize) -> (r: Series<u32>)
        ensures
            r@ == smma_seq(self@, period),
            r@.len() == self@.len(),
    {
        let a = div_f32(F32_ONE, usize_f32(period));
        let alpha = Series::fill(a, self.len());
        proof {
            assert(alpha@ =~= const_num_seq(self@.len(), smma_alpha(period)));
        }
        self.ew(&alpha, &self.ma(period))
    }

    /// Weighted moving average: the lags 0 .. period - 1 weighted by the
    /// integers period, period - 1, .., 1, scaled by the accumulated
    /// weight sum.  Null wherever any contributing lag is null, so the
    /// first period - 1 indices are null.
    pub fn wma(&self, period: usize) -> (r: Series<u32>)
        ensures
            r@ == wma_seq(self@, period),
            r@.len() == self@.len(),
    {
        let n = self.len();
        let mut sum = Series::zero(n);
        let mut norm: u32 = F32_ZERO;
        let mut k: usize = 0;
        while k < period
            invariant
                n == self@.len(),
                k <= period,
                sum@ == wma_acc(self@, period, k as int),
                sum@.len() == n,
                norm == wma_norm(period, k as int),
            decreases period - k,
        {
            let w = usize_f32(period - k);
            norm = add_f32(norm, w);
            let term = self.shift(k).mul_scalar(w);
            proof {
                assert(term@ =~= map_num_seq(
                    shift_seq(self@, k as nat),
                    |x: u32| mul_bits(x, usize_bits((period - k) as usize)),
                ));
            }
            sum = sum.add_series(&term);
            proof {
                assert(sum@ == wma_acc(self@, period, k + 1));
            }
            k += 1;
        }
        sum.div_scalar(norm)
    }

    /// Symmetric weighted moving average: the fixed 4-tap kernel
    /// [1, 2, 2, 1] / 6 over the current value and its three
    /// predecessors.  The first three outputs are null, and an output is
    /// present exactly where all four contributing values are.
    pub fn swma(&self) -> (r: Series<u32>)
        ensures
            r@ == swma_seq(self@),
            r@.len() == self@.len(),
            forall|i: int| 0 <= i < 3 && i < self@.len() ==> (#[trigger] r@[i]) is None,
            forall|i: int|
                3 <= i < self@.len()
                    ==> ((#[trigger] r@[i]) is Some <==> (self@[i] is Some && self@[i - 1] is Some
                    && self@[i - 2] is Some && self@[i - 3] is Some)),
    {
        let x1 = self.shift(1);
        let x2 = self.shift(2);
        let x3 = self.shift(3);
        let t3 = x3.mul_scalar(F32_ONE).div_scalar(F32_SIX);
        let t2 = x2.mul_scalar(F32_TWO).div_scalar(F32_SIX);
        let t1 = x1.mul_scalar(F32_TWO).div_scalar(F32_SIX);
        let t0 = self.mul_scalar(F32_ONE).div_scalar(F32_SIX);
        let r = t3.add_series(&t2).add_series(&t1).add_series(&t0);
        proof {
            assert(r@ =~= swma_seq(self@));
        }
        r
    }

    /// Hull moving average: twice the weighted moving average at half
    /// the period (rounded half away from zero) minus the one at the
    /// full period, smoothed again by a weighted moving average at the
    /// truncated square root of the period.
    pub fn hma(&self, period: usize) -> (r: Series<u32>)
        requires
            period < usize::MAX,
        ensures
            r@ == hma_seq(self@, period),
            r@.len() == self@.len(),
    {
        let lag = (period + 1) / 2;
        let sqrt_period = isqrt(period);
        self.wma(lag).mul_scalar(F32_TWO).sub_series(&self.wma(period)).wma(sqrt_period)
    }

    /// Rolling ordinary-least-squares fit over a trailing window: the
    /// regression line through the window, evaluated at the current
    /// absolute index.  It inherits the null warm-up prefix of the
    /// rolling means, and a degenerate slope denominator resolves to
    /// null under the guarded division rule.
    pub fn linreg(&self, period: usize) -> (r: Series<u32>)
        ensures
            r@ == linreg_seq(self@, period),
            r@.len() == self@.len(),
    {
        let n = self.len();
        let mut xv: Vec<Option<u32>> = Vec::new();
        let mut j: usize = 0;
        while j < n
            invariant
                n == self@.len(),
                j <= n,
                xv@.len() == j,
                forall|i: int| 0 <= i < j ==> xv@[i] == Some(usize_bits(i as usize)),
            decreases n - j,
        {
            xv.push(Some(usize_f32(j)));
            j += 1;
        }
        let x = Series::from_options(xv);
        proof {
            assert(x@ =~= idx_seq(self@.len()));
        }
        let x_mean = x.ma(period);
        let y_mean = self.ma(period);
        let xy = x.mul_series(self);
        let xx = x.mul_series(&x);
        let xy_ma = xy.ma(period);
        let xx_ma = xx.ma(period);
        let slope = xy_ma.sub_series(&x_mean.mul_series(&y_mean)).div_series(
            &xx_ma.sub_series(&x_mean.mul_series(&x_mean)),
        );
        let intercept = y_mean.sub_series(&slope.mul_series(&x_mean));
        intercept.add_series(&slope.mul_series(&x))
    }

    /// Applies the smoothing transform a tag selects.
    pub fn smooth(&self, kind: SmoothKind, period: usize) -> (r: Series<u32>)
        requires
            period < usize::MAX,
        ensures
            r@ == smooth_seq(kind, self@, period),
            r@.len() == self@.len(),
    {
        match kind {
            SmoothKind::Simple => self.ma(period),
            SmoothKind::Exponential => self.ema(period),
            SmoothKind::Smoothed => self.smma(period),
            SmoothKind::Weighted => self.wma(period),
            SmoothKind::Hull => self.hma(period),
        }
    }
}

} // verus!
