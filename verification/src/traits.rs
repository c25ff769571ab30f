//! Scalar abstraction and the per-row transform contract.
//!
//! Every numeric kernel in this crate is generic over [`DspFloat`], a scalar
//! type whose arithmetic operations are specified per implementation: each
//! executable operation is pinned to a specification function of the same
//! implementation, so that a computation's result is a deterministic function
//! of its inputs.  The crate proves its algorithms against those operation
//! specifications, which makes every structural property (parallel/sequential
//! agreement, split/merge agreement) hold for any scalar instance.
//!
//! The crate ships one fully verified instance, `i64`, with exact saturating
//! arithmetic; floating-point instances live outside the verified core.

use vstd::prelude::*;

use rayon::iter::{
    IndexedParallelIterator, IntoParallelRefIterator, IntoParallelRefMutIterator, ParallelIterator,
};

verus! {

/// Types that support trivial conversion to the scalar kind `F`.
pub trait IntoFloat<F>: Sized + Copy {
    /// The value this sample converts to.
    spec fn into_float_spec(self) -> F;

    fn into_float(self) -> (r: F)
        ensures
            r == self.into_float_spec(),
    ;
}

/// Scalar kind used throughout the crate's numeric kernels.
///
/// Each operation returns exactly the value of its specification function,
/// so two runs of the same computation on the same inputs agree.  Nothing
/// further is assumed of the arithmetic: rounding behaviour is entirely the
/// implementation's.
pub trait DspFloat: Sized + Copy {
    spec fn zero_spec() -> Self;

    spec fn one_spec() -> Self;

    spec fn add_spec(self, o: Self) -> Self;

    spec fn sub_spec(self, o: Self) -> Self;

    spec fn mul_spec(self, o: Self) -> Self;

    spec fn div_spec(self, o: Self) -> Self;

    spec fn abs_spec(self) -> Self;

    spec fn sqrt_spec(self) -> Self;

    /// The value raised to the power 3/2.
    spec fn pow_three_halves_spec(self) -> Self;

    spec fn ge_spec(self, o: Self) -> bool;

    spec fn eq_spec(self, o: Self) -> bool;

    /// The scalar standing for the observation count `n`.
    spec fn from_count_spec(n: u64) -> Self;

    /// Unbiased-skewness correction coefficient for window size `w`.
    spec fn skew_coef_spec(w: u64) -> Self;

    /// Unbiased-kurtosis correction coefficient for window size `w`.
    spec fn kurt_coef_spec(w: u64) -> Self;

    /// Constant subtracted by the unbiased-kurtosis estimator for window size `w`.
    spec fn kurt_excess_spec(w: u64) -> Self;

    fn zero() -> (r: Self)
        ensures
            r == Self::zero_spec(),
    ;

    fn one() -> (r: Self)
        ensures
            r == Self::one_spec(),
    ;

    fn add(self, o: Self) -> (r: Self)
        ensures
            r == self.add_spec(o),
    ;

    fn sub(self, o: Self) -> (r: Self)
        ensures
            r == self.sub_spec(o),
    ;

    fn mul(self, o: Self) -> (r: Self)
        ensures
            r == self.mul_spec(o),
    ;

    fn div(self, o: Self) -> (r: Self)
        ensures
            r == self.div_spec(o),
    ;

    fn abs(self) -> (r: Self)
        ensures
            r == self.abs_spec(),
    ;

    fn sqrt(self) -> (r: Self)
        ensures
            r == self.sqrt_spec(),
    ;

    fn pow_three_halves(self) -> (r: Self)
        ensures
            r == self.pow_three_halves_spec(),
    ;

    fn ge(self, o: Self) -> (r: bool)
        ensures
            r == self.ge_spec(o),
    ;

    fn eq_val(self, o: Self) -> (r: bool)
        ensures
            r == self.eq_spec(o),
    ;

    fn from_count(n: u64) -> (r: Self)
        ensures
            r == Self::from_count_spec(n),
    ;

    fn skew_coef(w: u64) -> (r: Self)
        requires
            2 <= w <= 0xFFFF_FFFF,
        ensures
            r == Self::skew_coef_spec(w),
    ;

    fn kurt_coef(w: u64) -> (r: Self)
        requires
            3 <= w <= 0x1F_FFFF,
        ensures
            r == Self::kurt_coef_spec(w),
    ;

    fn kurt_excess(w: u64) -> (r: Self)
        requires
            3 <= w <= 0x1F_FFFF,
        ensures
            r == Self::kurt_excess_spec(w),
    ;
}

/// Contract shared by every per-row transform.
///
/// A transform reads one input row and writes one output row whose length is
/// `output_len_spec` of the input length.  `row_spec` pins the exact contents
/// written; the scratch state a transform may carry never influences it, which
/// is what makes batch execution order irrelevant.
pub trait Transform1D<Dst, Src>: Sized {
    /// Well-formedness of the transform's own state.
    spec fn wf(self) -> bool;

    /// Which input rows the transform accepts.
    spec fn accepts(self, input: Seq<Src>) -> bool;

    /// Expected output length for a given input length.
    spec fn output_len_spec(self, input_len: int) -> int;

    /// The exact row written for a given input row.
    spec fn row_spec(self, input: Seq<Src>) -> Seq<Dst>;

    proof fn lemma_row_spec_len(self, input: Seq<Src>)
        requires
            self.wf(),
            self.accepts(input),
        ensures
            self.row_spec(input).len() == self.output_len_spec(input.len() as int),
    ;

    /// Number of expected samples in the output row.
    fn output_len(&self, input_samples: usize) -> (r: usize)
        requires
            self.wf(),
            0 <= self.output_len_spec(input_samples as int) <= usize::MAX,
        ensures
            r as int == self.output_len_spec(input_samples as int),
    ;

    /// Computes the transform of `input` into `output`.
    fn apply_inplace(&mut self, output: &mut Vec<Dst>, input: &Vec<Src>)
        requires
            old(self).wf(),
            old(self).accepts(input@),
            old(output).len() as int == old(self).output_len_spec(input@.len() as int),
        ensures
            final(self).wf(),
            forall|s: Seq<Src>| #[trigger] final(self).row_spec(s) == old(self).row_spec(s),
            forall|s: Seq<Src>| #[trigger] final(self).accepts(s) == old(self).accepts(s),
            forall|n: int| #[trigger] final(self).output_len_spec(n) == old(self).output_len_spec(n),
            final(output)@ == old(self).row_spec(input@),
    ;

    /// An independent copy of the transform, for one worker per parallel chunk.
    ///
    /// The copy computes the same rows; it shares no mutable scratch state.
    fn duplicate(&self) -> (r: Self)
        requires
            self.wf(),
        ensures
            r.wf(),
            forall|s: Seq<Src>| #[trigger] r.row_spec(s) == self.row_spec(s),
            forall|s: Seq<Src>| #[trigger] r.accepts(s) == self.accepts(s),
            forall|n: int| #[trigger] r.output_len_spec(n) == self.output_len_spec(n),
    ;
}

/// The contents of row `i` of a batch.
pub open spec fn row_view<A>(rows: Seq<Vec<A>>, i: int) -> Seq<A> {
    rows[i]@
}

/// The length of row `i` of a batch.
pub open spec fn row_len<A>(rows: Seq<Vec<A>>, i: int) -> int {
    rows[i]@.len() as int
}

/// The contents of row `i` of chunk `k`.
pub open spec fn chunk_row_view<A>(chunks: Seq<Vec<Vec<A>>>, k: int, i: int) -> Seq<A> {
    chunks[k]@[i]@
}

/// The number of rows of chunk `k`.
pub open spec fn chunk_len<A>(chunks: Seq<Vec<Vec<A>>>, k: int) -> int {
    chunks[k]@.len() as int
}

/// Batch contract: drive a per-row transform over a two-dimensional batch of
/// rows, sequentially or in parallel, in place or into a new allocation.
///
/// Output row `i` is pinned to `row_spec` of input row `i` by every method,
/// independent of sequential or parallel execution and of the chunk size.
pub trait Transform2D<Dst, Src>: Transform1D<Dst, Src> {
    /// Apply the transform to every row of `input`, writing into `output`.
    fn apply_2d_inplace(&mut self, output: &mut Vec<Vec<Dst>>, input: &Vec<Vec<Src>>)
        requires
            old(self).wf(),
            old(output)@.len() == input@.len(),
            forall|i: int|
                0 <= i < input@.len() ==> old(self).accepts(#[trigger] row_view(input@, i)),
            forall|i: int|
                0 <= i < input@.len() ==> #[trigger] row_len(old(output)@, i) == old(
                    self,
                ).output_len_spec(row_view(input@, i).len() as int),
        ensures
            final(self).wf(),
            forall|s: Seq<Src>| #[trigger] final(self).row_spec(s) == old(self).row_spec(s),
            forall|s: Seq<Src>| #[trigger] final(self).accepts(s) == old(self).accepts(s),
            forall|n: int| #[trigger] final(self).output_len_spec(n) == old(self).output_len_spec(n),
            final(output)@.len() == input@.len(),
            forall|i: int|
                0 <= i < input@.len() ==> #[trigger] row_view(final(output)@, i) == old(
                    self,
                ).row_spec(row_view(input@, i)),
    ;

    /// As `apply_2d_inplace`, with the rows distributed over parallel workers
    /// in contiguous chunks of `chunk_size` rows (one row per worker when
    /// `None`); each worker owns an independent duplicate of the transform.
    fn apply_2d_inplace_parallel(
        &mut self,
        output: &mut Vec<Vec<Dst>>,
        input: &Vec<Vec<Src>>,
        chunk_size: Option<usize>,
    )
        requires
            old(self).wf(),
            chunk_size != Some(0usize),
            old(output)@.len() == input@.len(),
            forall|i: int|
                0 <= i < input@.len() ==> old(self).accepts(#[trigger] row_view(input@, i)),
            forall|i: int|
                0 <= i < input@.len() ==> #[trigger] row_len(old(output)@, i) == old(
                    self,
                ).output_len_spec(row_view(input@, i).len() as int),
        ensures
            final(self).wf(),
            forall|s: Seq<Src>| #[trigger] final(self).row_spec(s) == old(self).row_spec(s),
            forall|s: Seq<Src>| #[trigger] final(self).accepts(s) == old(self).accepts(s),
            forall|n: int| #[trigger] final(self).output_len_spec(n) == old(self).output_len_spec(n),
            final(output)@.len() == input@.len(),
            forall|i: int|
                0 <= i < input@.len() ==> #[trigger] row_view(final(output)@, i) == old(
                    self,
                ).row_spec(row_view(input@, i)),
    ;

    /// Apply the transform to every row of `input` into a new batch.
    fn apply_2d(&mut self, input: &Vec<Vec<Src>>) -> (r: Vec<Vec<Dst>>)
        requires
            old(self).wf(),
            forall|i: int|
                0 <= i < input@.len() ==> old(self).accepts(#[trigger] row_view(input@, i)),
            forall|i: int|
                0 <= i < input@.len() ==> 0 <= old(self).output_len_spec(
                    #[trigger] row_view(input@, i).len() as int,
                ) <= usize::MAX,
        ensures
            final(self).wf(),
            forall|s: Seq<Src>| #[trigger] final(self).row_spec(s) == old(self).row_spec(s),
            forall|s: Seq<Src>| #[trigger] final(self).accepts(s) == old(self).accepts(s),
            forall|n: int| #[trigger] final(self).output_len_spec(n) == old(self).output_len_spec(n),
            r@.len() == input@.len(),
            forall|i: int|
                0 <= i < input@.len() ==> #[trigger] row_view(r@, i) == old(self).row_spec(
                    row_view(input@, i),
                ),
    ;

    /// As `apply_2d`, processed in parallel chunks.
    fn apply_2d_parallel(&mut self, input: &Vec<Vec<Src>>, chunk_size: Option<usize>) -> (r: Vec<
        Vec<Dst>,
    >)
        requires
            old(self).wf(),
            chunk_size != Some(0usize),
            forall|i: int|
                0 <= i < input@.len() ==> old(self).accepts(#[trigger] row_view(input@, i)),
            forall|i: int|
                0 <= i < input@.len() ==> 0 <= old(self).output_len_spec(
                    #[trigger] row_view(input@, i).len() as int,
                ) <= usize::MAX,
        ensures
            final(self).wf(),
            forall|s: Seq<Src>| #[trigger] final(self).row_spec(s) == old(self).row_spec(s),
            forall|s: Seq<Src>| #[trigger] final(self).accepts(s) == old(self).accepts(s),
            forall|n: int| #[trigger] final(self).output_len_spec(n) == old(self).output_len_spec(n),
            r@.len() == input@.len(),
            forall|i: int|
                0 <= i < input@.len() ==> #[trigger] row_view(r@, i) == old(self).row_spec(
                    row_view(input@, i),
                ),
    ;
}

/// Mutable borrow of one row of a batch.
pub(crate) fn row_mut<A>(rows: &mut Vec<A>, i: usize) -> (element: &mut A)
    requires
        i < old(rows)@.len(),
    ensures
        *element == old(rows)@[i as int],
        final(rows)@ == old(rows)@.update(i as int, *final(element)),
{
    &mut rows[i]
}

/// Copy of one row.
pub(crate) fn copy_row<A: Copy>(row: &Vec<A>) -> (r: Vec<A>)
    ensures
        r@ == row@,
{
    let mut out: Vec<A> = Vec::new();
    let mut i: usize = 0;
    while i < row.len()
        invariant
            i <= row@.len(),
            out@.len() == i,
            forall|k: int| 0 <= k < i ==> out@[k] == row@[k],
        decreases row@.len() - i,
    {
        out.push(row[i]);
        i += 1;
    }
    proof {
        assert(out@ =~= row@);
    }
    out
}

/// Sequential core of the batch runner: apply the transform row by row.
fn apply_rows<T, Dst, Src>(t: &mut T, output: &mut Vec<Vec<Dst>>, input: &Vec<Vec<Src>>) where
    T: Transform1D<Dst, Src>,

    requires
        old(t).wf(),
        old(output)@.len() == input@.len(),
        forall|i: int| 0 <= i < input@.len() ==> old(t).accepts(#[trigger] row_view(input@, i)),
        forall|i: int|
            0 <= i < input@.len() ==> #[trigger] row_len(old(output)@, i) == old(
                t,
            ).output_len_spec(row_view(input@, i).len() as int),
    ensures
        final(t).wf(),
        forall|s: Seq<Src>| #[trigger] final(t).row_spec(s) == old(t).row_spec(s),
        forall|s: Seq<Src>| #[trigger] final(t).accepts(s) == old(t).accepts(s),
        forall|n: int| #[trigger] final(t).output_len_spec(n) == old(t).output_len_spec(n),
        final(output)@.len() == input@.len(),
        forall|i: int|
            0 <= i < input@.len() ==> #[trigger] row_view(final(output)@, i) == old(t).row_spec(
                row_view(input@, i),
            ),
{
    let ghost t0 = *old(t);
    let n = input.len();
    let mut i: usize = 0;
    while i < n
        invariant
            n == input@.len(),
            output@.len() == n,
            i <= n,
            t.wf(),
            t0.wf(),
            forall|s: Seq<Src>| #[trigger] t.row_spec(s) == t0.row_spec(s),
            forall|s: Seq<Src>| #[trigger] t.accepts(s) == t0.accepts(s),
            forall|m: int| #[trigger] t.output_len_spec(m) == t0.output_len_spec(m),
            forall|i0: int| 0 <= i0 < n ==> t0.accepts(#[trigger] row_view(input@, i0)),
            forall|i0: int|
                0 <= i0 < n ==> #[trigger] row_len(output@, i0) == t0.output_len_spec(
                    row_view(input@, i0).len() as int,
                ),
            forall|k: int|
                0 <= k < i ==> #[trigger] row_view(output@, k) == t0.row_spec(row_view(input@, k)),
        decreases n - i,
    {
        let ghost out_pre = output@;
        proof {
            assert(row_view(input@, i as int) == input@[i as int]@);
            assert(t.accepts(input@[i as int]@));
            assert(row_len(output@, i as int) == output@[i as int]@.len() as int);
        }
        let row_out = row_mut(output, i);
        t.apply_inplace(row_out, &input[i]);
        i += 1;
        proof {
            assert forall|i0: int|
                0 <= i0 < n implies #[trigger] row_len(output@, i0) == t0.output_len_spec(
                row_view(input@, i0).len() as int,
            ) by {
                if i0 == i - 1 {
                    assert(output@[i0]@ == t0.row_spec(input@[i0]@));
                    assert(row_view(input@, i0) == input@[i0]@);
                    t0.lemma_row_spec_len(input@[i0]@);
                } else {
                    assert(output@[i0] == out_pre[i0]);
                    assert(row_len(out_pre, i0) == t0.output_len_spec(
                        row_view(input@, i0).len() as int,
                    ));
                }
            }
            assert forall|k: int|
                0 <= k < i implies #[trigger] row_view(output@, k) == t0.row_spec(
                row_view(input@, k),
            ) by {
                if k == i - 1 {
                    assert(output@[k]@ == t0.row_spec(input@[k]@));
                    assert(row_view(input@, k) == input@[k]@);
                } else {
                    assert(output@[k] == out_pre[k]);
                    assert(row_view(out_pre, k) == t0.row_spec(row_view(input@, k)));
                }
            }
        }
    }
    proof {
        assert forall|i0: int|
            0 <= i0 < input@.len() implies #[trigger] row_view(output@, i0) == t0.row_spec(
            row_view(input@, i0),
        ) by {
        }
    }
}

/// Relies on rayon's parallel iterators (`par_iter_mut`, `zip`,
/// `for_each_init`): every chunk of rows is handed to one worker, which runs
/// the verified sequential batch runner on an independent duplicate of the
/// transform; chunks write disjoint outputs and all workers are joined before
/// the call returns.  The contract restates, chunk by chunk, the contract of
/// the verified `apply_rows` that each worker runs.
#[verifier::external_body]
fn par_apply_chunks<T, Dst, Src>(
    t: &T,
    out_chunks: &mut Vec<Vec<Vec<Dst>>>,
    in_chunks: &Vec<Vec<Vec<Src>>>,
) where
    T: Transform1D<Dst, Src> + Send + Sync,
    Dst: Send + Sync,
    Src: Send + Sync,

    requires
        t.wf(),
        old(out_chunks)@.len() == in_chunks@.len(),
        forall|k: int|
            0 <= k < in_chunks@.len() ==> #[trigger] chunk_len(old(out_chunks)@, k) == chunk_len(
                in_chunks@,
                k,
            ),
        forall|k: int, i: int|
            0 <= k < in_chunks@.len() && 0 <= i < chunk_len(in_chunks@, k) ==> t.accepts(
                #[trigger] chunk_row_view(in_chunks@, k, i),
            ),
        forall|k: int, i: int|
            0 <= k < in_chunks@.len() && 0 <= i < chunk_len(in_chunks@, k)
                ==> #[trigger] chunk_row_view(old(out_chunks)@, k, i).len() as int
                == t.output_len_spec(chunk_row_view(in_chunks@, k, i).len() as int),
    ensures
        final(out_chunks)@.len() == in_chunks@.len(),
        forall|k: int|
            0 <= k < in_chunks@.len() ==> #[trigger] chunk_len(final(out_chunks)@, k) == chunk_len(
                in_chunks@,
                k,
            ),
        forall|k: int, i: int|
            0 <= k < in_chunks@.len() && 0 <= i < chunk_len(in_chunks@, k)
                ==> #[trigger] chunk_row_view(final(out_chunks)@, k, i) == t.row_spec(
                chunk_row_view(in_chunks@, k, i),
            ),
{
    out_chunks.par_iter_mut().zip(in_chunks.par_iter()).for_each_init(
        || t.duplicate(),
        |s, (oc, ic)| apply_rows(s, oc, ic),
    );
}

/// A row of `len` zero scalars.
fn zero_row<A: DspFloat>(len: usize) -> (r: Vec<A>)
    ensures
        r@.len() == len,
{
    let mut out: Vec<A> = Vec::new();
    let mut i: usize = 0;
    while i < len
        invariant
            i <= len,
            out@.len() == i,
        decreases len - i,
    {
        out.push(A::zero());
        i += 1;
    }
    out
}

impl<T, Dst, Src> Transform2D<Dst, Src> for T where
    T: Transform1D<Dst, Src> + Send + Sync,
    Dst: DspFloat + Send + Sync,
    Src: Copy + Send + Sync,
 {
    fn apply_2d_inplace(&mut self, output: &mut Vec<Vec<Dst>>, input: &Vec<Vec<Src>>) {
        apply_rows(self, output, input);
    }

    fn apply_2d_inplace_parallel(
        &mut self,
        output: &mut Vec<Vec<Dst>>,
        input: &Vec<Vec<Src>>,
        chunk_size: Option<usize>,
    ) {
        let ghost self0 = *old(self);
        let n = input.len();
        let cs: usize = match chunk_size {
            Some(c) => c,
            None => 1,
        };

        // Cut the batch into contiguous chunks of at most `cs` rows.
        let mut in_chunks: Vec<Vec<Vec<Src>>> = Vec::new();
        let mut out_chunks: Vec<Vec<Vec<Dst>>> = Vec::new();
        let ghost mut starts: Seq<int> = Seq::empty();
        let mut g: usize = 0;
        while g < n
            invariant
                n == input@.len(),
                output@.len() == n,
                cs >= 1,
                g <= n,
                *self == self0,
                in_chunks@.len() == out_chunks@.len(),
                starts.len() == in_chunks@.len(),
                g as int == if starts.len() == 0 {
                    0int
                } else {
                    starts[starts.len() - 1] + chunk_len(in_chunks@, starts.len() - 1)
                },
                starts.len() > 0 ==> starts[0] == 0,
                forall|k: int|
                    0 <= k < starts.len() - 1 ==> #[trigger] starts[k + 1] == starts[k] + chunk_len(
                        in_chunks@,
                        k,
                    ),
                forall|k: int|
                    0 <= k < starts.len() ==> 0 <= #[trigger] starts[k] && starts[k] + chunk_len(
                        in_chunks@,
                        k,
                    ) <= n,
                forall|k: int|
                    0 <= k < starts.len() ==> #[trigger] chunk_len(out_chunks@, k) == chunk_len(
                        in_chunks@,
                        k,
                    ),
                forall|k: int, i2: int|
                    0 <= k < starts.len() && 0 <= i2 < chunk_len(in_chunks@, k)
                        ==> #[trigger] chunk_row_view(in_chunks@, k, i2) == row_view(
                        input@,
                        starts[k] + i2,
                    ),
                forall|k: int, i2: int|
                    0 <= k < starts.len() && 0 <= i2 < chunk_len(in_chunks@, k)
                        ==> #[trigger] chunk_row_view(out_chunks@, k, i2).len() == row_view(
                        output@,
                        starts[k] + i2,
                    ).len(),
            decreases n - g,
        {
            let ghost start_g = g as int;
            let ghost in_chunks_pre = in_chunks@;
            let ghost out_chunks_pre = out_chunks@;
            let mut ic: Vec<Vec<Src>> = Vec::new();
            let mut oc: Vec<Vec<Dst>> = Vec::new();
            let mut i: usize = 0;
            while i < cs && g + i < n
                invariant
                    n == input@.len(),
                    output@.len() == n,
                    start_g == g as int,
                    g + i <= n,
                    i <= cs,
                    ic@.len() == i,
                    oc@.len() == i,
                    forall|i2: int|
                        0 <= i2 < i ==> #[trigger] row_view(ic@, i2) == row_view(input@, g + i2),
                    forall|i2: int|
                        0 <= i2 < i ==> #[trigger] row_view(oc@, i2).len() == row_view(
                            output@,
                            g + i2,
                        ).len(),
                decreases cs - i,
            {
                let ghost ic_pre = ic@;
                let ghost oc_pre = oc@;
                ic.push(copy_row(&input[g + i]));
                oc.push(copy_row(&output[g + i]));
                i += 1;
                proof {
                    assert forall|i2: int|
                        0 <= i2 < i implies #[trigger] row_view(ic@, i2) == row_view(
                        input@,
                        g + i2,
                    ) by {
                        if i2 == i - 1 {
                            assert(ic@[i2]@ == input@[g + i2]@);
                            assert(row_view(input@, g + i2) == input@[g + i2]@);
                        } else {
                            assert(ic@[i2] == ic_pre[i2]);
                            assert(row_view(ic_pre, i2) == row_view(input@, g + i2));
                        }
                    }
                    assert forall|i2: int|
                        0 <= i2 < i implies #[trigger] row_view(oc@, i2).len() == row_view(
                        output@,
                        g + i2,
                    ).len() by {
                        if i2 == i - 1 {
                            assert(oc@[i2]@ == output@[g + i2]@);
                            assert(row_view(output@, g + i2) == output@[g + i2]@);
                        } else {
                            assert(oc@[i2] == oc_pre[i2]);
                            assert(row_view(oc_pre, i2).len() == row_view(output@, g + i2).len());
                        }
                    }
                }
            }
            in_chunks.push(ic);
            out_chunks.push(oc);
            proof {
                starts = starts.push(start_g);
                let nc = starts.len() as int;
                assert(in_chunks@[nc - 1] == ic && out_chunks@[nc - 1] == oc);
                assert(chunk_len(in_chunks@, nc - 1) == ic@.len() as int);
                assert forall|k: int, i2: int|
                    0 <= k < nc && 0 <= i2 < chunk_len(in_chunks@, k)
                        implies #[trigger] chunk_row_view(in_chunks@, k, i2) == row_view(
                    input@,
                    starts[k] + i2,
                ) by {
                    if k == nc - 1 {
                        assert(chunk_row_view(in_chunks@, k, i2) == ic@[i2]@);
                        assert(row_view(ic@, i2) == ic@[i2]@);
                    } else {
                        assert(in_chunks@[k] == in_chunks_pre[k]);
                        assert(chunk_row_view(in_chunks_pre, k, i2) == row_view(
                            input@,
                            starts[k] + i2,
                        ));
                    }
                }
                assert forall|k: int, i2: int|
                    0 <= k < nc && 0 <= i2 < chunk_len(in_chunks@, k)
                        implies #[trigger] chunk_row_view(out_chunks@, k, i2).len() == row_view(
                    output@,
                    starts[k] + i2,
                ).len() by {
                    if k == nc - 1 {
                        assert(chunk_row_view(out_chunks@, k, i2) == oc@[i2]@);
                        assert(row_view(oc@, i2) == oc@[i2]@);
                    } else {
                        assert(out_chunks@[k] == out_chunks_pre[k]);
                        assert(chunk_len(out_chunks_pre, k) == chunk_len(out_chunks@, k));
                        assert(chunk_row_view(out_chunks_pre, k, i2).len() == row_view(
                            output@,
                            starts[k] + i2,
                        ).len());
                    }
                }
                assert forall|k: int|
                    0 <= k < nc implies #[trigger] chunk_len(out_chunks@, k) == chunk_len(
                    in_chunks@,
                    k,
                ) by {
                    if k < nc - 1 {
                        assert(out_chunks@[k] == out_chunks_pre[k]);
                        assert(in_chunks@[k] == in_chunks_pre[k]);
                        assert(chunk_len(out_chunks_pre, k) == chunk_len(in_chunks_pre, k));
                    }
                }
            }
            g += i;
        }

        proof {
            assert forall|k: int, i: int|
                0 <= k < in_chunks@.len() && 0 <= i < chunk_len(in_chunks@, k)
                    implies #[trigger] chunk_row_view(out_chunks@, k, i).len() as int
                == self0.output_len_spec(chunk_row_view(in_chunks@, k, i).len() as int) by {
                let m = starts[k] + i;
                assert(chunk_row_view(out_chunks@, k, i).len() == row_view(output@, m).len());
                assert(row_len(output@, m) == row_view(output@, m).len() as int);
                assert(row_len(output@, m) == self0.output_len_spec(row_view(input@, m).len() as int));
                assert(chunk_row_view(in_chunks@, k, i) == row_view(input@, m));
            }
        }
        par_apply_chunks(&*self, &mut out_chunks, &in_chunks);

        // Write every worker's rows back into the output batch.
        let nchunks = out_chunks.len();
        let mut k: usize = 0;
        let mut g2: usize = 0;
        while k < nchunks
            invariant
                n == input@.len(),
                output@.len() == n,
                *self == self0,
                k <= nchunks,
                nchunks == in_chunks@.len(),
                nchunks == out_chunks@.len(),
                starts.len() == nchunks,
                g2 <= n,
                k < nchunks ==> g2 as int == starts[k as int],
                k == nchunks ==> g2 == n,
                n as int == if nchunks == 0 {
                    0int
                } else {
                    starts[nchunks - 1] + chunk_len(in_chunks@, nchunks - 1)
                },
                nchunks > 0 ==> starts[0] == 0,
                forall|k2: int|
                    0 <= k2 < nchunks - 1 ==> #[trigger] starts[k2 + 1] == starts[k2] + chunk_len(
                        in_chunks@,
                        k2,
                    ),
                forall|k2: int|
                    0 <= k2 < nchunks ==> 0 <= #[trigger] starts[k2] && starts[k2] + chunk_len(
                        in_chunks@,
                        k2,
                    ) <= n,
                forall|k2: int|
                    0 <= k2 < nchunks ==> #[trigger] chunk_len(out_chunks@, k2) == chunk_len(
                        in_chunks@,
                        k2,
                    ),
                forall|k2: int, i2: int|
                    0 <= k2 < nchunks && 0 <= i2 < chunk_len(in_chunks@, k2)
                        ==> #[trigger] chunk_row_view(in_chunks@, k2, i2) == row_view(
                        input@,
                        starts[k2] + i2,
                    ),
                forall|k2: int, i2: int|
                    0 <= k2 < nchunks && 0 <= i2 < chunk_len(in_chunks@, k2)
                        ==> #[trigger] chunk_row_view(out_chunks@, k2, i2) == self0.row_spec(
                        chunk_row_view(in_chunks@, k2, i2),
                    ),
                forall|m: int|
                    0 <= m < g2 ==> #[trigger] row_view(output@, m) == self0.row_spec(
                        row_view(input@, m),
                    ),
            decreases nchunks - k,
        {
            let oc_len = out_chunks[k].len();
            proof {
                assert(chunk_len(out_chunks@, k as int) == out_chunks@[k as int]@.len() as int);
                assert(chunk_len(out_chunks@, k as int) == chunk_len(in_chunks@, k as int));
                assert(starts[k as int] + chunk_len(in_chunks@, k as int) <= n);
            }
            let mut i: usize = 0;
            while i < oc_len
                invariant
                    n == input@.len(),
                    output@.len() == n,
                    k < nchunks,
                    nchunks == in_chunks@.len(),
                    nchunks == out_chunks@.len(),
                    starts.len() == nchunks,
                    g2 as int == starts[k as int],
                    oc_len as int == chunk_len(out_chunks@, k as int),
                    oc_len as int == chunk_len(in_chunks@, k as int),
                    g2 + oc_len <= n,
                    i <= oc_len,
                    forall|k2: int, i2: int|
                        0 <= k2 < nchunks && 0 <= i2 < chunk_len(in_chunks@, k2)
                            ==> #[trigger] chunk_row_view(in_chunks@, k2, i2) == row_view(
                            input@,
                            starts[k2] + i2,
                        ),
                    forall|k2: int, i2: int|
                        0 <= k2 < nchunks && 0 <= i2 < chunk_len(in_chunks@, k2)
                            ==> #[trigger] chunk_row_view(out_chunks@, k2, i2) == self0.row_spec(
                            chunk_row_view(in_chunks@, k2, i2),
                        ),
                    forall|m: int|
                        0 <= m < g2 + i ==> #[trigger] row_view(output@, m) == self0.row_spec(
                            row_view(input@, m),
                        ),
                decreases oc_len - i,
            {
                let ghost out_pre = output@;
                let ck: &Vec<Vec<Dst>> = &out_chunks[k];
                let v = copy_row(&ck[i]);
                output[g2 + i] = v;
                i += 1;
                proof {
                    let m_new = g2 as int + i - 1;
                    assert(chunk_row_view(out_chunks@, k as int, i - 1) == out_chunks@[k as int]@[i
                        - 1]@);
                    assert(chunk_row_view(in_chunks@, k as int, i - 1) == row_view(input@, m_new));
                    assert(output@[m_new]@ == self0.row_spec(row_view(input@, m_new)));
                    assert forall|m: int|
                        0 <= m < g2 + i implies #[trigger] row_view(output@, m) == self0.row_spec(
                        row_view(input@, m),
                    ) by {
                        if m == m_new {
                            assert(row_view(output@, m) == output@[m]@);
                        } else {
                            assert(output@[m] == out_pre[m]);
                            assert(row_view(out_pre, m) == self0.row_spec(row_view(input@, m)));
                        }
                    }
                }
            }
            g2 += oc_len;
            k += 1;
        }
    }

    fn apply_2d(&mut self, input: &Vec<Vec<Src>>) -> (r: Vec<Vec<Dst>>) {
        let ghost self0 = *old(self);
        let n = input.len();
        let mut result: Vec<Vec<Dst>> = Vec::new();
        let mut i: usize = 0;
        while i < n
            invariant
                n == input@.len(),
                i <= n,
                *self == self0,
                self0.wf(),
                result@.len() == i,
                forall|i0: int| 0 <= i0 < n ==> self0.accepts(#[trigger] row_view(input@, i0)),
                forall|i0: int|
                    0 <= i0 < n ==> 0 <= self0.output_len_spec(
                        #[trigger] row_view(input@, i0).len() as int,
                    ) <= usize::MAX,
                forall|k: int|
                    0 <= k < i ==> #[trigger] row_len(result@, k) == self0.output_len_spec(
                        row_view(input@, k).len() as int,
                    ),
            decreases n - i,
        {
            let ghost result_pre = result@;
            proof {
                assert(row_view(input@, i as int) == input@[i as int]@);
            }
            let row_in: &Vec<Src> = &input[i];
            let olen = self.output_len(row_in.len());
            result.push(zero_row(olen));
            i += 1;
            proof {
                assert forall|k: int|
                    0 <= k < i implies #[trigger] row_len(result@, k) == self0.output_len_spec(
                    row_view(input@, k).len() as int,
                ) by {
                    if k == i - 1 {
                        assert(row_len(result@, k) == result@[k]@.len() as int);
                        assert(row_view(input@, k) == input@[k]@);
                    } else {
                        assert(result@[k] == result_pre[k]);
                        assert(row_len(result_pre, k) == self0.output_len_spec(
                            row_view(input@, k).len() as int,
                        ));
                    }
                }
            }
        }
        self.apply_2d_inplace(&mut result, input);
        result
    }

    fn apply_2d_parallel(&mut self, input: &Vec<Vec<Src>>, chunk_size: Option<usize>) -> (r: Vec<
        Vec<Dst>,
    >) {
        let ghost self0 = *old(self);
        let n = input.len();
        let mut result: Vec<Vec<Dst>> = Vec::new();
        let mut i: usize = 0;
        while i < n
            invariant
                n == input@.len(),
                i <= n,
                *self == self0,
                self0.wf(),
                result@.len() == i,
                forall|i0: int| 0 <= i0 < n ==> self0.accepts(#[trigger] row_view(input@, i0)),
                forall|i0: int|
                    0 <= i0 < n ==> 0 <= self0.output_len_spec(
                        #[trigger] row_view(input@, i0).len() as int,
                    ) <= usize::MAX,
                forall|k: int|
                    0 <= k < i ==> #[trigger] row_len(result@, k) == self0.output_len_spec(
                        row_view(input@, k).len() as int,
                    ),
            decreases n - i,
        {
            let ghost result_pre = result@;
            proof {
                assert(row_view(input@, i as int) == input@[i as int]@);
            }
            let row_in: &Vec<Src> = &input[i];
            let olen = self.output_len(row_in.len());
            result.push(zero_row(olen));
            i += 1;
            proof {
                assert forall|k: int|
                    0 <= k < i implies #[trigger] row_len(result@, k) == self0.output_len_spec(
                    row_view(input@, k).len() as int,
                ) by {
                    if k == i - 1 {
                        assert(row_len(result@, k) == result@[k]@.len() as int);
                        assert(row_view(input@, k) == input@[k]@);
                    } else {
                        assert(result@[k] == result_pre[k]);
                        assert(row_len(result_pre, k) == self0.output_len_spec(
                            row_view(input@, k).len() as int,
                        ));
                    }
                }
            }
        }
        self.apply_2d_inplace_parallel(&mut result, input, chunk_size);
        result
    }
}



/// The rows a transform writes for a whole batch.
pub open spec fn batch_apply_spec<T: Transform1D<Dst, Src>, Dst, Src>(
    t: T,
    rows: Seq<Seq<Src>>,
) -> Seq<Seq<Dst>> {
    rows.map(|i: int, r: Seq<Src>| t.row_spec(r))
}

/// A batch cut into contiguous chunks of at most `cs` rows.
pub open spec fn chunks_of<A>(rows: Seq<A>, cs: int) -> Seq<Seq<A>>
    decreases rows.len(),
    when cs >= 1
{
    if rows.len() == 0 {
        Seq::empty()
    } else if rows.len() <= cs {
        seq![rows]
    } else {
        seq![rows.take(cs)] + chunks_of(rows.skip(cs), cs)
    }
}

/// Parallel/sequential equivalence: processing a batch chunk by chunk and
/// concatenating the chunks' rows gives exactly the rows of sequential
/// processing, for every transform, every batch and every chunk size.
pub proof fn lemma_parallel_sequential_equivalence<T, Dst, Src>(
    t: T,
    rows: Seq<Seq<Src>>,
    cs: int,
) where T: Transform1D<Dst, Src>
    requires
        cs >= 1,
    ensures
        chunks_of(rows, cs).map(
            |k: int, chunk: Seq<Seq<Src>>| batch_apply_spec(t, chunk),
        ).flatten() == batch_apply_spec::<T, Dst, Src>(t, rows),
    decreases rows.len(),
{
    let f = |k: int, chunk: Seq<Seq<Src>>| batch_apply_spec::<T, Dst, Src>(t, chunk);
    if rows.len() == 0 {
        assert(chunks_of(rows, cs).map(f).flatten() =~= batch_apply_spec::<T, Dst, Src>(t, rows));
    } else if rows.len() <= cs {
        let single = seq![batch_apply_spec::<T, Dst, Src>(t, rows)];
        assert(chunks_of(rows, cs).map(f) =~= single);
        single.lemma_flatten_one_element();
        assert(single.first() == batch_apply_spec::<T, Dst, Src>(t, rows));
    } else {
        lemma_parallel_sequential_equivalence(t, rows.skip(cs), cs);
        let head = seq![rows.take(cs)];
        let tail = chunks_of(rows.skip(cs), cs);
        assert(chunks_of(rows, cs) == head + tail);
        assert(chunks_of(rows, cs).map(f) =~= head.map(f) + tail.map(f));
        vstd::seq_lib::lemma_flatten_concat(head.map(f), tail.map(f));
        let hm = head.map(f);
        assert(hm =~= seq![batch_apply_spec::<T, Dst, Src>(t, rows.take(cs))]);
        hm.lemma_flatten_one_element();
        assert(hm.first() == batch_apply_spec::<T, Dst, Src>(t, rows.take(cs)));
        assert(batch_apply_spec::<T, Dst, Src>(t, rows.take(cs)) + batch_apply_spec::<
            T,
            Dst,
            Src,
        >(t, rows.skip(cs)) =~= batch_apply_spec::<T, Dst, Src>(t, rows));
    }
}

/// The `i64` value nearest to the integer `x`.
pub open spec fn sat_i64(x: int) -> i64 {
    if x > i64::MAX as int {
        i64::MAX
    } else if x < i64::MIN as int {
        i64::MIN
    } else {
        x as i64
    }
}

/// The greatest `r` with `r * r <= n`.
pub open spec fn isqrt_nat(n: nat) -> nat
    decreases n,
{
    if n == 0 {
        0
    } else {
        let r = isqrt_nat((n - 1) as nat);
        if (r + 1) * (r + 1) <= n {
            r + 1
        } else {
            r
        }
    }
}

proof fn lemma_isqrt_nat_bounds(n: nat)
    ensures
        isqrt_nat(n) * isqrt_nat(n) <= n,
        (isqrt_nat(n) + 1) * (isqrt_nat(n) + 1) > n,
    decreases n,
{
    if n > 0 {
        lemma_isqrt_nat_bounds((n - 1) as nat);
        let r = isqrt_nat((n - 1) as nat);
        assert(isqrt_nat(n) == if (r + 1) * (r + 1) <= n {
            r + 1
        } else {
            r
        });
        if (r + 1) * (r + 1) <= n {
            assert((r + 2) * (r + 2) > n) by (nonlinear_arith)
                requires
                    (r + 1) * (r + 1) > n - 1;
            assert(isqrt_nat(n) * isqrt_nat(n) <= n);
            assert((isqrt_nat(n) + 1) * (isqrt_nat(n) + 1) > n);
        } else {
            assert(isqrt_nat(n) * isqrt_nat(n) <= n);
            assert((isqrt_nat(n) + 1) * (isqrt_nat(n) + 1) > n);
        }
    } else {
        assert(isqrt_nat(n) == 0);
        assert(isqrt_nat(n) * isqrt_nat(n) <= n && (isqrt_nat(n) + 1) * (isqrt_nat(n) + 1) > n)
            by (nonlinear_arith)
            requires
                isqrt_nat(n) == 0,
                n == 0;
    }
}

proof fn lemma_isqrt_nat_unique(n: nat, r: nat)
    requires
        r * r <= n,
        (r + 1) * (r + 1) > n,
    ensures
        r == isqrt_nat(n),
{
    lemma_isqrt_nat_bounds(n);
    let s = isqrt_nat(n);
    if r < s {
        assert((r + 1) * (r + 1) <= s * s) by (nonlinear_arith)
            requires
                r + 1 <= s;
    }
    if s < r {
        assert((s + 1) * (s + 1) <= r * r) by (nonlinear_arith)
            requires
                s + 1 <= r;
    }
}

/// Floor of the square root of `x`, by binary search.
fn isqrt_u64(x: u64) -> (r: u64)
    ensures
        r as nat == isqrt_nat(x as nat),
{
    let mut lo: u64 = 0;
    let mut hi: u64 = if x >= 0xFFFF_FFFF {
        0x1_0000_0000
    } else {
        x + 1
    };
    proof {
        assert((hi as int) * (hi as int) > x as int) by (nonlinear_arith)
            requires
                (hi as int) >= 0x1_0000_0000 || (hi as int) > (x as int),
                (x as int) < 0x1_0000_0000_0000_0000,
                (hi as int) >= 1;
    }
    while lo + 1 < hi
        invariant
            lo < hi,
            hi <= 0x1_0000_0000,
            (lo as int) * (lo as int) <= x as int,
            (hi as int) * (hi as int) > x as int,
        decreases hi - lo,
    {
        let mid: u64 = lo + (hi - lo) / 2;
        proof {
            assert((mid as int) * (mid as int) <= 0x1_0000_0000_0000_0000int) by (nonlinear_arith)
                requires
                    0 <= (mid as int) <= 0x1_0000_0000;
        }
        let sq: u128 = (mid as u128) * (mid as u128);
        if sq <= x as u128 {
            lo = mid;
        } else {
            hi = mid;
        }
    }
    proof {
        lemma_isqrt_nat_unique(x as nat, lo as nat);
    }
    lo
}

impl IntoFloat<i64> for i64 {
    open spec fn into_float_spec(self) -> i64 {
        self
    }

    fn into_float(self) -> i64 {
        self
    }
}

impl IntoFloat<i64> for i16 {
    open spec fn into_float_spec(self) -> i64 {
        self as i64
    }

    fn into_float(self) -> i64 {
        self as i64
    }
}

impl IntoFloat<i64> for i8 {
    open spec fn into_float_spec(self) -> i64 {
        self as i64
    }

    fn into_float(self) -> i64 {
        self as i64
    }
}

/// Exact scalar instance: saturating integer arithmetic on `i64`.
///
/// Division truncates toward zero and yields zero on a zero divisor; the
/// square root is the integer floor.  This instance backs the crate's own
/// concrete proofs and exact tests.
impl DspFloat for i64 {
    open spec fn zero_spec() -> i64 {
        0
    }

    open spec fn one_spec() -> i64 {
        1
    }

    open spec fn add_spec(self, o: i64) -> i64 {
        sat_i64(self + o)
    }

    open spec fn sub_spec(self, o: i64) -> i64 {
        sat_i64(self - o)
    }

    open spec fn mul_spec(self, o: i64) -> i64 {
        sat_i64(self * o)
    }

    open spec fn div_spec(self, o: i64) -> i64 {
        if o == 0 {
            0
        } else {
            let q = self.abs_spec() as int / o.abs_spec() as int;
            if (self < 0) != (o < 0) {
                sat_i64(-q)
            } else {
                sat_i64(q)
            }
        }
    }

    open spec fn abs_spec(self) -> i64 {
        if self >= 0 {
            self
        } else {
            sat_i64(-(self as int))
        }
    }

    open spec fn sqrt_spec(self) -> i64 {
        if self <= 0 {
            0
        } else {
            isqrt_nat(self as nat) as i64
        }
    }

    open spec fn pow_three_halves_spec(self) -> i64 {
        self.mul_spec(self).mul_spec(self).sqrt_spec()
    }

    open spec fn ge_spec(self, o: i64) -> bool {
        self >= o
    }

    open spec fn eq_spec(self, o: i64) -> bool {
        self == o
    }

    open spec fn from_count_spec(n: u64) -> i64 {
        sat_i64(n as int)
    }

    open spec fn skew_coef_spec(w: u64) -> i64 {
        let den = (w - 1) * (w - 2);
        if den == 0 {
            0
        } else {
            sat_i64(w * w / den)
        }
    }

    open spec fn kurt_coef_spec(w: u64) -> i64 {
        let den = (w - 1) * (w - 2) * (w - 3);
        if den == 0 {
            0
        } else {
            sat_i64((w + 1) * w / den)
        }
    }

    open spec fn kurt_excess_spec(w: u64) -> i64 {
        let den = (w - 2) * (w - 3);
        if den == 0 {
            0
        } else {
            sat_i64(3 * (w - 1) * (w - 1) / den)
        }
    }

    fn zero() -> i64 {
        0
    }

    fn one() -> i64 {
        1
    }

    fn add(self, o: i64) -> i64 {
        let wide: i128 = self as i128 + o as i128;
        if wide > i64::MAX as i128 {
            i64::MAX
        } else if wide < i64::MIN as i128 {
            i64::MIN
        } else {
            wide as i64
        }
    }

    fn sub(self, o: i64) -> i64 {
        let wide: i128 = self as i128 - o as i128;
        if wide > i64::MAX as i128 {
            i64::MAX
        } else if wide < i64::MIN as i128 {
            i64::MIN
        } else {
            wide as i64
        }
    }

    fn mul(self, o: i64) -> i64 {
        proof {
            assert(-0x4000_0000_0000_0000_0000_0000_0000_0000int <= (self as int) * (o as int)
                <= 0x4000_0000_0000_0000_0000_0000_0000_0000int) by (nonlinear_arith)
                requires
                    -0x8000_0000_0000_0000int <= (self as int) <= 0x7FFF_FFFF_FFFF_FFFFint,
                    -0x8000_0000_0000_0000int <= (o as int) <= 0x7FFF_FFFF_FFFF_FFFFint;
        }
        let wide: i128 = self as i128 * o as i128;
        if wide > i64::MAX as i128 {
            i64::MAX
        } else if wide < i64::MIN as i128 {
            i64::MIN
        } else {
            wide as i64
        }
    }

    fn div(self, o: i64) -> (r: i64) {
        if o == 0 {
            0
        } else {
            let num = DspFloat::abs(self) as u64;
            let den = DspFloat::abs(o) as u64;
            let q: u64 = num / den;
            if (self < 0) != (o < 0) {
                if q > i64::MAX as u64 {
                    i64::MIN
                } else {
                    -(q as i64)
                }
            } else {
                if q > i64::MAX as u64 {
                    i64::MAX
                } else {
                    q as i64
                }
            }
        }
    }

    fn abs(self) -> i64 {
        if self >= 0 {
            self
        } else if self == i64::MIN {
            i64::MAX
        } else {
            -self
        }
    }

    fn sqrt(self) -> (r: i64) {
        if self <= 0 {
            0
        } else {
            let r = isqrt_u64(self as u64);
            proof {
                lemma_isqrt_le(self as nat);
            }
            r as i64
        }
    }

    fn pow_three_halves(self) -> i64 {
        let c = DspFloat::mul(DspFloat::mul(self, self), self);
        DspFloat::sqrt(c)
    }

    fn ge(self, o: i64) -> bool {
        self >= o
    }

    fn eq_val(self, o: i64) -> bool {
        self == o
    }

    fn from_count(n: u64) -> i64 {
        if n > i64::MAX as u64 {
            i64::MAX
        } else {
            n as i64
        }
    }

    fn skew_coef(w: u64) -> (r: i64) {
        proof {
            assert((w as int) * (w as int) <= 0xFFFF_FFFE_0000_0001int) by (nonlinear_arith)
                requires
                    (w as int) <= 0xFFFF_FFFF;
            assert(((w - 1) as int) * ((w - 2) as int) <= (w as int) * (w as int))
                by (nonlinear_arith)
                requires
                    2 <= (w as int) <= 0xFFFF_FFFF;
        }
        let den: u64 = (w - 1) * (w - 2);
        if den == 0 {
            0
        } else {
            let q: u64 = w * w / den;
            sat_u64_to_i64(q)
        }
    }

    fn kurt_coef(w: u64) -> (r: i64) {
        proof {
            assert(((w - 1) as int) * ((w - 2) as int) <= 0x7FFF_FFFF_FFFF_FFFFint && ((w
                - 1) as int) * ((w - 2) as int) * ((w - 3) as int) <= 0x7FFF_FFFF_FFFF_FFFFint && ((
            w + 1) as int) * (w as int) <= 0x7FFF_FFFF_FFFF_FFFFint) by (nonlinear_arith)
                requires
                    3 <= (w as int) <= 0x1F_FFFF;
        }
        let den: u64 = (w - 1) * (w - 2) * (w - 3);
        if den == 0 {
            0
        } else {
            let q: u64 = (w + 1) * w / den;
            sat_u64_to_i64(q)
        }
    }

    fn kurt_excess(w: u64) -> (r: i64) {
        proof {
            assert(3 * ((w - 1) as int) * ((w - 1) as int) <= 0x7FFF_FFFF_FFFF_FFFFint && ((w
                - 2) as int) * ((w - 3) as int) <= 0x7FFF_FFFF_FFFF_FFFFint) by (nonlinear_arith)
                requires
                    3 <= (w as int) <= 0x1F_FFFF;
        }
        let den: u64 = (w - 2) * (w - 3);
        if den == 0 {
            0
        } else {
            let q: u64 = 3 * (w - 1) * (w - 1) / den;
            sat_u64_to_i64(q)
        }
    }
}

/// The integer square root never exceeds its argument.
proof fn lemma_isqrt_le(n: nat)
    ensures
        isqrt_nat(n) <= n,
    decreases n,
{
    if n > 0 {
        lemma_isqrt_le((n - 1) as nat);
    }
}

fn sat_u64_to_i64(q: u64) -> (r: i64)
    ensures
        r == sat_i64(q as int),
{
    if q > i64::MAX as u64 {
        i64::MAX
    } else {
        q as i64
    }
}

} // verus!
