//! Single-pass windowed statistics: moving sum and sliding mean, variance,
//! standard deviation, skewness and kurtosis.
//!
//! All kernels share one cumulative-sum core: a Kahan-Babuska-Neumaier
//! compensated summation, specified operation for operation over the scalar
//! trait, so that each output position is pinned exactly.

use vstd::prelude::*;

use crate::traits::{DspFloat, IntoFloat, Transform1D};
use core::marker::PhantomData;

verus! {

/// The input row converted to the scalar kind.
pub open spec fn floats_of<F: DspFloat, S: IntoFloat<F>>(input: Seq<S>) -> Seq<F> {
    input.map(|i: int, x: S| x.into_float_spec())
}

/// Plain running sum of the first `j` elements (the compensated summation's
/// main accumulator).
pub open spec fn kbn_acc<F: DspFloat>(xs: Seq<F>, j: int) -> F
    decreases j,
{
    if j <= 0 {
        F::zero_spec()
    } else {
        kbn_acc(xs, j - 1).add_spec(xs[j - 1])
    }
}

/// Accumulated compensation term after the first `j` elements.
pub open spec fn kbn_err<F: DspFloat>(xs: Seq<F>, j: int) -> F
    decreases j,
{
    if j <= 0 {
        F::zero_spec()
    } else {
        let s = kbn_acc(xs, j - 1);
        let x = xs[j - 1];
        let t = s.add_spec(x);
        let e = kbn_err(xs, j - 1);
        if s.abs_spec().ge_spec(x.abs_spec()) {
            e.add_spec(s.sub_spec(t).add_spec(x))
        } else {
            e.add_spec(x.sub_spec(t).add_spec(s))
        }
    }
}

/// Compensated cumulative sum of the first `j` elements.
pub open spec fn kbn_cum<F: DspFloat>(xs: Seq<F>, j: int) -> F {
    kbn_acc(xs, j).add_spec(kbn_err(xs, j))
}

/// The exact row written by the moving sum for window size `w` and scale
/// factor `scale`: differences of compensated cumulative sums at the window
/// boundaries, windows at the tail shortened to what remains.
pub open spec fn moving_sum_row<F: DspFloat>(xs: Seq<F>, w: int, scale: F) -> Seq<F> {
    Seq::new(
        xs.len(),
        |j: int|
            {
                let s_end = if j + w <= xs.len() {
                    kbn_cum(xs, j + w)
                } else {
                    kbn_cum(xs, xs.len() as int)
                };
                let s_prev = if j == 0 {
                    F::zero_spec()
                } else {
                    kbn_cum(xs, j)
                };
                let tmp = s_end.sub_spec(s_prev);
                if scale.eq_spec(F::one_spec()) {
                    tmp
                } else {
                    tmp.mul_spec(scale)
                }
            },
    )
}


/// An all-ones row over the exact integer scalar.
pub open spec fn ones_row(n: int) -> Seq<i64> {
    Seq::new(n as nat, |i: int| 1i64)
}

/// Over the exact integer scalar, the compensated cumulative sum of an
/// all-ones row is exact and its compensation term stays zero.
proof fn lemma_kbn_ones(n: int, m: int)
    requires
        0 <= m <= n <= i64::MAX,
    ensures
        kbn_acc(ones_row(n), m) == m as i64,
        kbn_err(ones_row(n), m) == 0i64,
    decreases m,
{
    if m > 0 {
        lemma_kbn_ones(n, m - 1);
        assert(ones_row(n)[m - 1] == 1i64);
        assert(kbn_acc(ones_row(n), m) == kbn_acc(ones_row(n), m - 1).add_spec(1i64));
        assert(((m - 1) as i64).add_spec(1i64) == m as i64);
    }
}

/// Moving-sum law: for an all-ones row over the exact integer scalar, every
/// output position whose window lies fully inside the row holds exactly the
/// window size.
pub proof fn lemma_moving_sum_all_ones(n: int, w: int, j: int)
    requires
        1 <= w <= n <= i64::MAX,
        0 <= j <= n - w,
    ensures
        moving_sum_row::<i64>(ones_row(n), w, 1i64)[j] == w as i64,
{
    lemma_kbn_ones(n, j + w);
    lemma_kbn_ones(n, j);
    assert(kbn_cum(ones_row(n), j + w) == ((j + w) as i64).add_spec(0i64));
    assert(kbn_cum(ones_row(n), j) == (j as i64).add_spec(0i64));
    assert((1i64).eq_spec(i64::one_spec()));
    assert(((j + w) as i64).sub_spec(j as i64) == w as i64);
}

/// Windowed summation over a row, scaled by a caller-supplied factor.
pub struct MovingSum<Dst, Src> {
    window_size: usize,
    scale: Dst,
    _src: PhantomData<Src>,
}

impl<Dst: DspFloat, Src: IntoFloat<Dst>> MovingSum<Dst, Src> {
    pub fn new(window_size: usize, scale: Dst) -> (r: Self)
        ensures
            r.wf(),
            forall|s: Seq<Src>| #[trigger]
                r.accepts(s) <==> (window_size >= 1 && s.len() >= window_size),
            forall|n: int| #[trigger] r.output_len_spec(n) == n,
            forall|s: Seq<Src>| #[trigger]
                r.row_spec(s) == moving_sum_row(floats_of::<Dst, Src>(s), window_size as int, scale),
    {
        MovingSum { window_size, scale, _src: PhantomData }
    }
}

impl<Dst: DspFloat, Src: IntoFloat<Dst>> Clone for MovingSum<Dst, Src> {
    /// A clone computes the same rows as the original.
    fn clone(&self) -> (r: Self)
        ensures
            r.wf() == self.wf(),
            forall|s: Seq<Src>| #[trigger] r.row_spec(s) == self.row_spec(s),
            forall|s: Seq<Src>| #[trigger] r.accepts(s) == self.accepts(s),
            forall|n: int| #[trigger] r.output_len_spec(n) == self.output_len_spec(n),
    {
        MovingSum { window_size: self.window_size, scale: self.scale, _src: PhantomData }
    }
}

/// One step of the compensated summation.
fn kbn_step<F: DspFloat>(
    sum: F,
    error: F,
    x: F,
    Ghost(xs): Ghost<Seq<F>>,
    Ghost(j): Ghost<int>,
) -> (r: (F, F))
    requires
        0 <= j < xs.len(),
        sum == kbn_acc(xs, j),
        error == kbn_err(xs, j),
        x == xs[j],
    ensures
        r.0 == kbn_acc(xs, j + 1),
        r.1 == kbn_err(xs, j + 1),
{
    let t = sum.add(x);
    let e = if sum.abs().ge(x.abs()) {
        error.add(sum.sub(t).add(x))
    } else {
        error.add(x.sub(t).add(sum))
    };
    proof {
        assert(kbn_acc(xs, j + 1) == kbn_acc(xs, j).add_spec(xs[j]));
        assert(kbn_err(xs, j + 1) == {
            let s = kbn_acc(xs, j);
            let t2 = s.add_spec(xs[j]);
            let e2 = kbn_err(xs, j);
            if s.abs_spec().ge_spec(xs[j].abs_spec()) {
                e2.add_spec(s.sub_spec(t2).add_spec(xs[j]))
            } else {
                e2.add_spec(xs[j].sub_spec(t2).add_spec(s))
            }
        });
    }
    (t, e)
}

impl<Dst: DspFloat, Src: IntoFloat<Dst>> Transform1D<Dst, Src> for MovingSum<Dst, Src> {
    closed spec fn wf(self) -> bool {
        true
    }

    closed spec fn accepts(self, input: Seq<Src>) -> bool {
        self.window_size >= 1 && input.len() >= self.window_size
    }

    closed spec fn output_len_spec(self, input_len: int) -> int {
        input_len
    }

    closed spec fn row_spec(self, input: Seq<Src>) -> Seq<Dst> {
        moving_sum_row(floats_of::<Dst, Src>(input), self.window_size as int, self.scale)
    }

    proof fn lemma_row_spec_len(self, input: Seq<Src>) {
    }

    fn output_len(&self, input_samples: usize) -> usize {
        input_samples
    }

    fn apply_inplace(&mut self, output: &mut Vec<Dst>, input: &Vec<Src>) {
        let window_size = self.window_size;
        let n = output.len();
        let ghost xs = floats_of::<Dst, Src>(input@);
        proof {
            assert(xs.len() == input@.len());
        }

        // First pass: compensated cumulative sum.
        let mut sum = Dst::zero();
        let mut error = Dst::zero();
        let mut j: usize = 0;
        while j < n
            invariant
                n == input@.len(),
                n == output@.len(),
                j <= n,
                xs == floats_of::<Dst, Src>(input@),
                sum == kbn_acc(xs, j as int),
                error == kbn_err(xs, j as int),
                forall|k: int| 0 <= k < j ==> output@[k] == kbn_cum(xs, k + 1),
            decreases n - j,
        {
            let x = input[j].into_float();
            proof {
                assert(xs[j as int] == input@[j as int].into_float_spec());
            }
            let (t, e) = kbn_step(sum, error, x, Ghost(xs), Ghost(j as int));
            sum = t;
            error = e;
            output[j] = t.add(e);
            j += 1;
        }

        // Second pass: windowed differences.
        let ghost row = moving_sum_row(xs, window_size as int, self.scale);
        let mut s_prev = Dst::zero();
        let j_last = n - 1;
        let j_end = n - window_size;
        let mut j: usize = 0;
        while j < n
            invariant
                n == input@.len(),
                n == output@.len(),
                j <= n,
                1 <= window_size <= n,
                j_last == n - 1,
                j_end == n - window_size,
                xs == floats_of::<Dst, Src>(input@),
                xs.len() == n,
                row == moving_sum_row(xs, window_size as int, self.scale),
                s_prev == if j == 0 {
                    Dst::zero_spec()
                } else {
                    kbn_cum(xs, j as int)
                },
                forall|k: int| 0 <= k < j ==> output@[k] == row[k],
                forall|k: int| j <= k < n ==> output@[k] == kbn_cum(xs, k + 1),
            decreases n - j,
        {
            let s_curr = output[j];
            let s_end = if j <= j_end {
                output[j + window_size - 1]
            } else {
                output[j_last]
            };
            let mut tmp = s_end.sub(s_prev);
            if !self.scale.eq_val(Dst::one()) {
                tmp = tmp.mul(self.scale);
            }
            output[j] = tmp;
            s_prev = s_curr;
            proof {
                assert(output@[j as int] == row[j as int]);
            }
            j += 1;
        }
        proof {
            assert(output@ =~= self.row_spec(input@));
        }
    }

    fn duplicate(&self) -> (r: Self) {
        MovingSum { window_size: self.window_size, scale: self.scale, _src: PhantomData }
    }
}

/// One output position of the sliding Euclidean-distance matcher:
/// `xx - 2 * xp + p_square`, combining the windowed sum of squared samples
/// with the correlation value at the same alignment.
pub open spec fn euclidean_combine_spec<F: DspFloat>(xx: F, xp: F, p_square: F) -> F {
    xx.sub_spec(F::from_count_spec(2).mul_spec(xp)).add_spec(p_square)
}

/// Combination stage of the sliding Euclidean-distance matcher, applied to
/// the first `count` alignments.  The correlation values come from the host
/// layer's frequency-domain pass; everything after it is pinned here.
pub fn euclidean_combine<F: DspFloat>(
    count: usize,
    xx: &Vec<F>,
    xp_tail: &Vec<F>,
    p_square: F,
) -> (r: Vec<F>)
    requires
        count <= xx@.len(),
        count <= xp_tail@.len(),
    ensures
        r@.len() == count,
        forall|k: int|
            0 <= k < count ==> #[trigger] r@[k] == euclidean_combine_spec(
                xx@[k],
                xp_tail@[k],
                p_square,
            ),
{
    let two = F::from_count(2);
    let mut out: Vec<F> = Vec::new();
    let mut k: usize = 0;
    while k < count
        invariant
            k <= count,
            count <= xx@.len(),
            count <= xp_tail@.len(),
            two == F::from_count_spec(2),
            out@.len() == k,
            forall|k2: int|
                0 <= k2 < k ==> #[trigger] out@[k2] == euclidean_combine_spec(
                    xx@[k2],
                    xp_tail@[k2],
                    p_square,
                ),
        decreases count - k,
    {
        out.push(xx[k].sub(two.mul(xp_tail[k])).add(p_square));
        k += 1;
    }
    out
}

/// One output position of the sliding normalized cross-correlation matcher:
/// `(xp - x_ms * p_mean) / (x_std * p_std)`.
pub open spec fn correlation_combine_spec<F: DspFloat>(
    xp: F,
    x_ms: F,
    x_std: F,
    p_mean: F,
    p_std: F,
) -> F {
    xp.sub_spec(x_ms.mul_spec(p_mean)).div_spec(x_std.mul_spec(p_std))
}

/// Combination stage of the sliding normalized cross-correlation matcher,
/// applied to the first `count` alignments.
pub fn correlation_combine<F: DspFloat>(
    count: usize,
    xp_tail: &Vec<F>,
    x_ms: &Vec<F>,
    x_std_tail: &Vec<F>,
    p_mean: F,
    p_std: F,
) -> (r: Vec<F>)
    requires
        count <= xp_tail@.len(),
        count <= x_ms@.len(),
        count <= x_std_tail@.len(),
    ensures
        r@.len() == count,
        forall|k: int|
            0 <= k < count ==> #[trigger] r@[k] == correlation_combine_spec(
                xp_tail@[k],
                x_ms@[k],
                x_std_tail@[k],
                p_mean,
                p_std,
            ),
{
    let mut out: Vec<F> = Vec::new();
    let mut k: usize = 0;
    while k < count
        invariant
            k <= count,
            count <= xp_tail@.len(),
            count <= x_ms@.len(),
            count <= x_std_tail@.len(),
            out@.len() == k,
            forall|k2: int|
                0 <= k2 < k ==> #[trigger] out@[k2] == correlation_combine_spec(
                    xp_tail@[k2],
                    x_ms@[k2],
                    x_std_tail@[k2],
                    p_mean,
                    p_std,
                ),
        decreases count - k,
    {
        out.push(xp_tail[k].sub(x_ms[k].mul(p_mean)).div(x_std_tail[k].mul(p_std)));
        k += 1;
    }
    out
}

/// Which sliding statistic an executor computes.
#[derive(Clone, Copy)]
pub enum SlidingType {
    Mean,
    Var,
    Std,
    Skew,
    Kurt,
}

/// Sum over the window starting at `start` of squared deviations from `mean`,
/// accumulated left to right over the first `j` window positions.
pub open spec fn central_sum2<F: DspFloat>(xs: Seq<F>, start: int, mean: F, j: int) -> F
    decreases j,
{
    if j <= 0 {
        F::zero_spec()
    } else {
        let d = xs[start + j - 1].sub_spec(mean);
        central_sum2(xs, start, mean, j - 1).add_spec(d.mul_spec(d))
    }
}

/// As `central_sum2`, with cubed deviations.
pub open spec fn central_sum3<F: DspFloat>(xs: Seq<F>, start: int, mean: F, j: int) -> F
    decreases j,
{
    if j <= 0 {
        F::zero_spec()
    } else {
        let d = xs[start + j - 1].sub_spec(mean);
        central_sum3(xs, start, mean, j - 1).add_spec(d.mul_spec(d).mul_spec(d))
    }
}

/// As `central_sum2`, with fourth-power deviations.
pub open spec fn central_sum4<F: DspFloat>(xs: Seq<F>, start: int, mean: F, j: int) -> F
    decreases j,
{
    if j <= 0 {
        F::zero_spec()
    } else {
        let d = xs[start + j - 1].sub_spec(mean);
        central_sum4(xs, start, mean, j - 1).add_spec(d.mul_spec(d).mul_spec(d).mul_spec(d))
    }
}

/// Windowed mean at position `i` as the mean statistic computes it: a
/// difference of plain running sums, divided by the window size.
pub open spec fn window_mean_plain<F: DspFloat>(xs: Seq<F>, w: int, i: int) -> F {
    kbn_acc(xs, i + 1).sub_spec(kbn_acc(xs, i + 1 - w)).div_spec(F::from_count_spec(w as u64))
}

/// Windowed mean at position `i` as the moment statistics compute it: the
/// compensated cumulative sum minus the plain running sum one window back,
/// divided by the window size.
pub open spec fn window_mean_comp<F: DspFloat>(xs: Seq<F>, w: int, i: int) -> F {
    kbn_cum(xs, i + 1).sub_spec(kbn_acc(xs, i + 1 - w)).div_spec(F::from_count_spec(w as u64))
}

/// Bias-correction coefficient an executor of kind `st` carries.
pub open spec fn sliding_coef<F: DspFloat>(st: SlidingType, w: int) -> F {
    match st {
        SlidingType::Skew => F::skew_coef_spec(w as u64),
        SlidingType::Kurt => F::kurt_coef_spec(w as u64),
        _ => F::zero_spec(),
    }
}

/// Constant subtracted by an executor of kind `st`.
pub open spec fn sliding_subs<F: DspFloat>(st: SlidingType, w: int) -> F {
    match st {
        SlidingType::Kurt => F::kurt_excess_spec(w as u64),
        _ => F::zero_spec(),
    }
}

/// Padding value written to the first `w - 1` output positions.
pub open spec fn pad_of<F: DspFloat>(p: Option<F>) -> F {
    match p {
        Some(v) => v,
        None => F::zero_spec(),
    }
}

/// The statistic of kind `st` at output position `i` (valid for `i >= w - 1`).
pub open spec fn sliding_value<F: DspFloat>(
    st: SlidingType,
    w: int,
    coef: F,
    subs: F,
    xs: Seq<F>,
    i: int,
) -> F {
    let wf = F::from_count_spec(w as u64);
    let start = i + 1 - w;
    match st {
        SlidingType::Mean => window_mean_plain(xs, w, i),
        SlidingType::Var => {
            let m = window_mean_comp(xs, w, i);
            central_sum2(xs, start, m, w).div_spec(wf.sub_spec(F::one_spec()))
        },
        SlidingType::Std => {
            let m = window_mean_comp(xs, w, i);
            central_sum2(xs, start, m, w).div_spec(wf.sub_spec(F::one_spec())).sqrt_spec()
        },
        SlidingType::Skew => {
            let m = window_mean_comp(xs, w, i);
            let upper = central_sum3(xs, start, m, w).div_spec(wf);
            let lower = central_sum2(xs, start, m, w).div_spec(wf.sub_spec(F::one_spec()));
            upper.div_spec(lower.pow_three_halves_spec()).mul_spec(coef)
        },
        SlidingType::Kurt => {
            let m = window_mean_comp(xs, w, i);
            let upper = central_sum4(xs, start, m, w);
            let lower = central_sum2(xs, start, m, w).div_spec(wf.sub_spec(F::one_spec()));
            coef.mul_spec(upper.div_spec(lower.mul_spec(lower))).sub_spec(subs)
        },
    }
}

/// The exact row written by an executor: padding over the first `w - 1`
/// positions, the windowed statistic everywhere else.
pub open spec fn sliding_row<F: DspFloat>(
    st: SlidingType,
    w: int,
    pad: F,
    coef: F,
    subs: F,
    xs: Seq<F>,
) -> Seq<F> {
    Seq::new(
        xs.len(),
        |i: int|
            if i < w - 1 {
                pad
            } else {
                sliding_value(st, w, coef, subs, xs, i)
            },
    )
}

/// Sliding-window statistics executor: one state machine, five statistic
/// kinds, sharing one compensated cumulative-sum traversal.
///
/// The circular buffer holds the last `window_size` running-sum values; it is
/// reinitialized at the start of every call and carries no information between
/// calls.
pub struct SlidingExecutor<Dst, Src> {
    sliding_type: SlidingType,
    window_size: usize,
    padding_value: Option<Dst>,
    win_sized_cache1: Vec<Dst>,
    coef: Dst,
    subs: Dst,
    phantom: PhantomData<Src>,
}

impl<Dst: DspFloat, Src: IntoFloat<Dst>> SlidingExecutor<Dst, Src> {
    pub fn new(sliding_type: SlidingType, window_size: usize, padding_value: Option<Dst>) -> (r:
        Self)
        requires
            sliding_type == SlidingType::Skew ==> 2 <= window_size <= 0xFFFF_FFFF,
            sliding_type == SlidingType::Kurt ==> 3 <= window_size <= 0x1F_FFFF,
        ensures
            r.wf(),
            forall|s: Seq<Src>| #[trigger]
                r.accepts(s) <==> (window_size > 1 && s.len() >= window_size),
            forall|n: int| #[trigger] r.output_len_spec(n) == n,
            forall|s: Seq<Src>| #[trigger]
                r.row_spec(s) == sliding_row(
                    sliding_type,
                    window_size as int,
                    pad_of(padding_value),
                    sliding_coef::<Dst>(sliding_type, window_size as int),
                    sliding_subs::<Dst>(sliding_type, window_size as int),
                    floats_of::<Dst, Src>(s),
                ),
    {
        let (coef, subs) = match sliding_type {
            SlidingType::Mean => (Dst::zero(), Dst::zero()),
            SlidingType::Var => (Dst::zero(), Dst::zero()),
            SlidingType::Std => (Dst::zero(), Dst::zero()),
            SlidingType::Skew => (Dst::skew_coef(window_size as u64), Dst::zero()),
            SlidingType::Kurt => (
                Dst::kurt_coef(window_size as u64),
                Dst::kurt_excess(window_size as u64),
            ),
        };
        let mut cache: Vec<Dst> = Vec::new();
        let mut k: usize = 0;
        while k < window_size
            invariant
                k <= window_size,
                cache@.len() == k,
            decreases window_size - k,
        {
            cache.push(Dst::zero());
            k += 1;
        }
        SlidingExecutor {
            sliding_type,
            window_size,
            padding_value,
            win_sized_cache1: cache,
            coef,
            subs,
            phantom: PhantomData,
        }
    }

    /// One traversal computing the configured statistic at every valid
    /// position; positions before `window_size - 1` are left untouched.
    fn sliding_pass(&mut self, in_array: &Vec<Src>, out_array: &mut Vec<Dst>)
        requires
            old(self).wf(),
            old(self).window_size > 1,
            in_array@.len() >= old(self).window_size,
            old(out_array)@.len() == in_array@.len(),
        ensures
            final(self).sliding_type == old(self).sliding_type,
            final(self).window_size == old(self).window_size,
            final(self).padding_value == old(self).padding_value,
            final(self).coef == old(self).coef,
            final(self).subs == old(self).subs,
            final(self).win_sized_cache1@.len() == old(self).win_sized_cache1@.len(),
            final(out_array)@.len() == old(out_array)@.len(),
            forall|k: int|
                0 <= k < old(self).window_size - 1 ==> final(out_array)@[k] == old(out_array)@[k],
            forall|i: int|
                old(self).window_size - 1 <= i < in_array@.len() ==> final(out_array)@[i]
                    == sliding_value(
                    old(self).sliding_type,
                    old(self).window_size as int,
                    old(self).coef,
                    old(self).subs,
                    floats_of::<Dst, Src>(in_array@),
                    i,
                ),
    {
        let w = self.window_size;
        let n = in_array.len();
        let ghost xs = floats_of::<Dst, Src>(in_array@);
        let ghost st = self.sliding_type;
        let ghost out0 = out_array@;
        let ghost self0 = *self;

        let mut error = Dst::zero();
        let mut acc = Dst::zero();
        let o_win_size = Dst::from_count(w as u64);

        self.win_sized_cache1[w - 1] = Dst::zero();

        let mut i: usize = 0;
        while i < n
            invariant
                1 < w <= n,
                i <= n,
                n == in_array@.len(),
                xs == floats_of::<Dst, Src>(in_array@),
                xs.len() == n,
                out_array@.len() == n,
                self.win_sized_cache1@.len() == w,
                acc == kbn_acc(xs, i as int),
                error == kbn_err(xs, i as int),
                o_win_size == Dst::from_count_spec(w as u64),
                st == self0.sliding_type,
                self.sliding_type == self0.sliding_type,
                self.window_size == self0.window_size,
                self.padding_value == self0.padding_value,
                self.coef == self0.coef,
                self.subs == self0.subs,
                forall|m: int|
                    0 <= m && i - w <= m && m < i ==> #[trigger] self.win_sized_cache1@[m % (
                    w as int)] == kbn_acc(xs, m + 1),
                i as int <= w - 1 ==> self.win_sized_cache1@[w - 1] == Dst::zero_spec(),
                forall|k: int| 0 <= k < w - 1 ==> out_array@[k] == out0[k],
                forall|k: int|
                    w - 1 <= k < i ==> out_array@[k] == sliding_value(
                        st,
                        w as int,
                        self0.coef,
                        self0.subs,
                        xs,
                        k,
                    ),
                forall|k: int| i <= k < n ==> out_array@[k] == out0[k],
            decreases n - i,
        {
            let x = in_array[i].into_float();
            proof {
                assert(xs[i as int] == in_array@[i as int].into_float_spec());
            }
            let (t, e) = kbn_step(acc, error, x, Ghost(xs), Ghost(i as int));
            acc = t;
            error = e;

            if i >= w - 1 {
                let c = self.win_sized_cache1[i % w];
                proof {
                    if i == w - 1 {
                        vstd::arithmetic::div_mod::lemma_small_mod(i as nat, w as nat);
                        assert(c == kbn_acc(xs, i as int + 1 - w as int));
                    } else {
                        vstd::arithmetic::div_mod::lemma_mod_sub_multiples_vanish(
                            i as int,
                            w as int,
                        );
                        assert(self.win_sized_cache1@[(i - w) as int % (w as int)] == kbn_acc(
                            xs,
                            i as int - w as int + 1,
                        ));
                        assert(c == kbn_acc(xs, i as int + 1 - w as int));
                    }
                }
                let start = i - (w - 1);
                let value = match self.sliding_type {
                    SlidingType::Mean => acc.sub(c).div(o_win_size),
                    SlidingType::Var => {
                        let acc_x = acc.add(error);
                        let mean_i = acc_x.sub(c).div(o_win_size);
                        let m2 = central2(in_array, start, w, mean_i, Ghost(xs));
                        m2.div(o_win_size.sub(Dst::one()))
                    },
                    SlidingType::Std => {
                        let acc_x = acc.add(error);
                        let mean_i = acc_x.sub(c).div(o_win_size);
                        let m2 = central2(in_array, start, w, mean_i, Ghost(xs));
                        m2.div(o_win_size.sub(Dst::one())).sqrt()
                    },
                    SlidingType::Skew => {
                        let acc_x = acc.add(error);
                        let mean_i = acc_x.sub(c).div(o_win_size);
                        let m3 = central3(in_array, start, w, mean_i, Ghost(xs));
                        let m2 = central2(in_array, start, w, mean_i, Ghost(xs));
                        let upper = m3.div(o_win_size);
                        let lower = m2.div(o_win_size.sub(Dst::one()));
                        upper.div(lower.pow_three_halves()).mul(self.coef)
                    },
                    SlidingType::Kurt => {
                        let acc_x = acc.add(error);
                        let mean_i = acc_x.sub(c).div(o_win_size);
                        let m4 = central4(in_array, start, w, mean_i, Ghost(xs));
                        let m2 = central2(in_array, start, w, mean_i, Ghost(xs));
                        let lower = m2.div(o_win_size.sub(Dst::one()));
                        self.coef.mul(m4.div(lower.mul(lower))).sub(self.subs)
                    },
                };
                out_array[i] = value;
                proof {
                    assert(out_array@[i as int] == sliding_value(
                        st,
                        w as int,
                        self0.coef,
                        self0.subs,
                        xs,
                        i as int,
                    ));
                }
            }
            self.win_sized_cache1[i % w] = acc;
            proof {
                let wi = w as int;
                assert forall|m: int|
                    0 <= m && i + 1 - wi <= m && m < i + 1 implies #[trigger] self.win_sized_cache1@[m
                    % wi] == kbn_acc(xs, m + 1) by {
                    if m == i as int {
                        vstd::arithmetic::div_mod::lemma_mod_pos_bound(m, wi);
                    } else {
                        vstd::arithmetic::div_mod::lemma_mod_equivalence(i as int, m, wi);
                        vstd::arithmetic::div_mod::lemma_small_mod((i - m) as nat, w as nat);
                        vstd::arithmetic::div_mod::lemma_mod_pos_bound(m, wi);
                    }
                }
                if i + 1 <= w - 1 {
                    vstd::arithmetic::div_mod::lemma_small_mod(i as nat, w as nat);
                    assert(self.win_sized_cache1@[w - 1] == Dst::zero_spec());
                }
            }
            i += 1;
        }
    }
}

/// Windowed sum of squared deviations from `mean`.
fn central2<Dst: DspFloat, Src: IntoFloat<Dst>>(
    in_array: &Vec<Src>,
    start: usize,
    w: usize,
    mean: Dst,
    Ghost(xs): Ghost<Seq<Dst>>,
) -> (r: Dst)
    requires
        xs == floats_of::<Dst, Src>(in_array@),
        start + w <= in_array@.len(),
        in_array@.len() <= usize::MAX,
    ensures
        r == central_sum2(xs, start as int, mean, w as int),
{
    let mut sum = Dst::zero();
    let mut j: usize = 0;
    while j < w
        invariant
            j <= w,
            start + w <= in_array@.len(),
            in_array@.len() <= usize::MAX,
            xs == floats_of::<Dst, Src>(in_array@),
            sum == central_sum2(xs, start as int, mean, j as int),
        decreases w - j,
    {
        let x = in_array[start + j].into_float();
        proof {
            assert(xs[start as int + j as int] == in_array@[start as int
                + j as int].into_float_spec());
        }
        let d = x.sub(mean);
        sum = sum.add(d.mul(d));
        j += 1;
    }
    sum
}

/// Windowed sum of cubed deviations from `mean`.
fn central3<Dst: DspFloat, Src: IntoFloat<Dst>>(
    in_array: &Vec<Src>,
    start: usize,
    w: usize,
    mean: Dst,
    Ghost(xs): Ghost<Seq<Dst>>,
) -> (r: Dst)
    requires
        xs == floats_of::<Dst, Src>(in_array@),
        start + w <= in_array@.len(),
        in_array@.len() <= usize::MAX,
    ensures
        r == central_sum3(xs, start as int, mean, w as int),
{
    let mut sum = Dst::zero();
    let mut j: usize = 0;
    while j < w
        invariant
            j <= w,
            start + w <= in_array@.len(),
            in_array@.len() <= usize::MAX,
            xs == floats_of::<Dst, Src>(in_array@),
            sum == central_sum3(xs, start as int, mean, j as int),
        decreases w - j,
    {
        let x = in_array[start + j].into_float();
        proof {
            assert(xs[start as int + j as int] == in_array@[start as int
                + j as int].into_float_spec());
        }
        let d = x.sub(mean);
        sum = sum.add(d.mul(d).mul(d));
        j += 1;
    }
    sum
}

/// Windowed sum of fourth-power deviations from `mean`.
fn central4<Dst: DspFloat, Src: IntoFloat<Dst>>(
    in_array: &Vec<Src>,
    start: usize,
    w: usize,
    mean: Dst,
    Ghost(xs): Ghost<Seq<Dst>>,
) -> (r: Dst)
    requires
        xs == floats_of::<Dst, Src>(in_array@),
        start + w <= in_array@.len(),
        in_array@.len() <= usize::MAX,
    ensures
        r == central_sum4(xs, start as int, mean, w as int),
{
    let mut sum = Dst::zero();
    let mut j: usize = 0;
    while j < w
        invariant
            j <= w,
            start + w <= in_array@.len(),
            in_array@.len() <= usize::MAX,
            xs == floats_of::<Dst, Src>(in_array@),
            sum == central_sum4(xs, start as int, mean, j as int),
        decreases w - j,
    {
        let x = in_array[start + j].into_float();
        proof {
            assert(xs[start as int + j as int] == in_array@[start as int
                + j as int].into_float_spec());
        }
        let d = x.sub(mean);
        sum = sum.add(d.mul(d).mul(d).mul(d));
        j += 1;
    }
    sum
}

impl<Dst: DspFloat, Src: IntoFloat<Dst>> Clone for SlidingExecutor<Dst, Src> {
    /// A clone computes the same rows as the original; its scratch buffer is
    /// freshly zeroed.
    fn clone(&self) -> (r: Self)
        ensures
            self.wf() ==> r.wf(),
            forall|s: Seq<Src>| #[trigger] r.row_spec(s) == self.row_spec(s),
            forall|s: Seq<Src>| #[trigger] r.accepts(s) == self.accepts(s),
            forall|n: int| #[trigger] r.output_len_spec(n) == self.output_len_spec(n),
    {
        let mut cache: Vec<Dst> = Vec::new();
        let mut k: usize = 0;
        while k < self.window_size
            invariant
                k <= self.window_size,
                cache@.len() == k,
            decreases self.window_size - k,
        {
            cache.push(Dst::zero());
            k += 1;
        }
        SlidingExecutor {
            sliding_type: self.sliding_type,
            window_size: self.window_size,
            padding_value: self.padding_value,
            win_sized_cache1: cache,
            coef: self.coef,
            subs: self.subs,
            phantom: PhantomData,
        }
    }
}

impl<Dst: DspFloat, Src: IntoFloat<Dst>> Transform1D<Dst, Src> for SlidingExecutor<Dst, Src> {
    closed spec fn wf(self) -> bool {
        &&& self.win_sized_cache1.len() == self.window_size
        &&& self.coef == sliding_coef::<Dst>(self.sliding_type, self.window_size as int)
        &&& self.subs == sliding_subs::<Dst>(self.sliding_type, self.window_size as int)
    }

    closed spec fn accepts(self, input: Seq<Src>) -> bool {
        self.window_size > 1 && input.len() >= self.window_size
    }

    closed spec fn output_len_spec(self, input_len: int) -> int {
        input_len
    }

    closed spec fn row_spec(self, input: Seq<Src>) -> Seq<Dst> {
        sliding_row(
            self.sliding_type,
            self.window_size as int,
            pad_of(self.padding_value),
            sliding_coef::<Dst>(self.sliding_type, self.window_size as int),
            sliding_subs::<Dst>(self.sliding_type, self.window_size as int),
            floats_of::<Dst, Src>(input),
        )
    }

    proof fn lemma_row_spec_len(self, input: Seq<Src>) {
    }

    fn output_len(&self, input_samples: usize) -> usize {
        input_samples
    }

    fn apply_inplace(&mut self, output: &mut Vec<Dst>, input: &Vec<Src>) {
        let pad = match self.padding_value {
            Some(p) => p,
            None => Dst::zero(),
        };
        let start_idx = self.window_size - 1;
        let ghost out0 = output@;
        let mut k: usize = 0;
        while k < start_idx
            invariant
                k <= start_idx,
                start_idx < output@.len(),
                output@.len() == out0.len(),
                forall|m: int| 0 <= m < k ==> output@[m] == pad,
                forall|m: int| k <= m < output@.len() ==> output@[m] == out0[m],
                pad == pad_of(old(self).padding_value),
                *self == *old(self),
            decreases start_idx - k,
        {
            output[k] = pad;
            k += 1;
        }
        self.sliding_pass(input, output);
        proof {
            assert(output@ =~= old(self).row_spec(input@));
        }
    }

    fn duplicate(&self) -> (r: Self) {
        let mut cache: Vec<Dst> = Vec::new();
        let mut k: usize = 0;
        while k < self.window_size
            invariant
                k <= self.window_size,
                cache@.len() == k,
            decreases self.window_size - k,
        {
            cache.push(Dst::zero());
            k += 1;
        }
        SlidingExecutor {
            sliding_type: self.sliding_type,
            window_size: self.window_size,
            padding_value: self.padding_value,
            win_sized_cache1: cache,
            coef: self.coef,
            subs: self.subs,
            phantom: PhantomData,
        }
    }
}

} // verus!
