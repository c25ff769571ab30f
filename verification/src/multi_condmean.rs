//! Per-class running mean/variance accumulation over many targets, with
//! sample-axis split/merge for parallel reduction.
//!
//! Every row carries one label per target; the accumulator runs Welford's
//! online algorithm independently for every (target, class) group, across all
//! sample positions.  Splitting assigns each worker a contiguous slice of the
//! sample axis; since the per-position updates read nothing outside their
//! position, merging is pure concatenation and agrees exactly with sequential
//! accumulation.

use vstd::prelude::*;

use crate::traits::{row_mut, DspFloat, IntoFloat};
use rayon::iter::{
    IndexedParallelIterator, IntoParallelRefIterator, IntoParallelRefMutIterator, ParallelIterator,
};

verus! {

/// Class label of a row within one target.
pub type Label = u16;

/// Nested view of a two-dimensional table.
pub open spec fn grid2<A>(v: Vec<Vec<A>>) -> Seq<Seq<A>> {
    v@.map(|t: int, r: Vec<A>| r@)
}

/// Nested view of a three-dimensional table.
pub open spec fn grid3<A>(v: Vec<Vec<Vec<A>>>) -> Seq<Seq<Seq<A>>> {
    v@.map(|t: int, p: Vec<Vec<A>>| grid2(p))
}

/// Entry `g[t][c]` of a two-dimensional table.
pub open spec fn cell2<A>(g: Seq<Seq<A>>, t: int, c: int) -> A {
    g[t][c]
}

/// Entry `g[t][c][s]` of a three-dimensional table.
pub open spec fn cell3<A>(g: Seq<Seq<Seq<A>>>, t: int, c: int, s: int) -> A {
    g[t][c][s]
}

/// Welford mean update: `m + (x - m) / n`.
pub open spec fn welford_mean<I: DspFloat>(m: I, x: I, nf: I) -> I {
    m.add_spec(x.sub_spec(m).div_spec(nf))
}

/// Welford variance-accumulator update: `v + (x - m) * (x - m')` with `m'`
/// the updated mean.
pub open spec fn welford_var<I: DspFloat>(m: I, v: I, x: I, nf: I) -> I {
    let delta = x.sub_spec(m);
    v.add_spec(delta.mul_spec(x.sub_spec(welford_mean(m, x, nf))))
}

/// Observation counts after accumulating one row with the given labels.
pub open spec fn counts_after(counts: Seq<Seq<u32>>, labels: Seq<Label>) -> Seq<Seq<u32>> {
    Seq::new(
        counts.len(),
        |t: int|
            Seq::new(
                counts[t].len(),
                |c: int|
                    if c == labels[t] as int {
                        (counts[t][c] + 1) as u32
                    } else {
                        counts[t][c]
                    },
            ),
    )
}

/// Mean table after accumulating one row.
pub open spec fn mean_after<I: DspFloat>(
    mean: Seq<Seq<Seq<I>>>,
    counts: Seq<Seq<u32>>,
    row: Seq<I>,
    labels: Seq<Label>,
) -> Seq<Seq<Seq<I>>> {
    Seq::new(
        mean.len(),
        |t: int|
            Seq::new(
                mean[t].len(),
                |c: int|
                    if c == labels[t] as int {
                        Seq::new(
                            mean[t][c].len(),
                            |s: int|
                                welford_mean(
                                    mean[t][c][s],
                                    row[s],
                                    I::from_count_spec((counts[t][c] + 1) as u64),
                                ),
                        )
                    } else {
                        mean[t][c]
                    },
            ),
    )
}

/// Variance-accumulator table after accumulating one row.
pub open spec fn var_after<I: DspFloat>(
    var: Seq<Seq<Seq<I>>>,
    mean: Seq<Seq<Seq<I>>>,
    counts: Seq<Seq<u32>>,
    row: Seq<I>,
    labels: Seq<Label>,
) -> Seq<Seq<Seq<I>>> {
    Seq::new(
        var.len(),
        |t: int|
            Seq::new(
                var[t].len(),
                |c: int|
                    if c == labels[t] as int {
                        Seq::new(
                            var[t][c].len(),
                            |s: int|
                                welford_var(
                                    mean[t][c][s],
                                    var[t][c][s],
                                    row[s],
                                    I::from_count_spec((counts[t][c] + 1) as u64),
                                ),
                        )
                    } else {
                        var[t][c]
                    },
            ),
    )
}

/// Observation counts after accumulating the first `j` rows of a block.
pub open spec fn counts_after_block(
    counts: Seq<Seq<u32>>,
    labelrows: Seq<Seq<Label>>,
    j: int,
) -> Seq<Seq<u32>>
    decreases j,
{
    if j <= 0 {
        counts
    } else {
        counts_after(counts_after_block(counts, labelrows, j - 1), labelrows[j - 1])
    }
}

/// Mean table after accumulating the first `j` rows of a block.
pub open spec fn mean_after_block<I: DspFloat>(
    mean: Seq<Seq<Seq<I>>>,
    counts: Seq<Seq<u32>>,
    rows: Seq<Seq<I>>,
    labelrows: Seq<Seq<Label>>,
    j: int,
) -> Seq<Seq<Seq<I>>>
    decreases j,
{
    if j <= 0 {
        mean
    } else {
        mean_after(
            mean_after_block(mean, counts, rows, labelrows, j - 1),
            counts_after_block(counts, labelrows, j - 1),
            rows[j - 1],
            labelrows[j - 1],
        )
    }
}

/// Variance-accumulator table after accumulating the first `j` rows of a block.
pub open spec fn var_after_block<I: DspFloat>(
    var: Seq<Seq<Seq<I>>>,
    mean: Seq<Seq<Seq<I>>>,
    counts: Seq<Seq<u32>>,
    rows: Seq<Seq<I>>,
    labelrows: Seq<Seq<Label>>,
    j: int,
) -> Seq<Seq<Seq<I>>>
    decreases j,
{
    if j <= 0 {
        var
    } else {
        var_after(
            var_after_block(var, mean, counts, rows, labelrows, j - 1),
            mean_after_block(mean, counts, rows, labelrows, j - 1),
            counts_after_block(counts, labelrows, j - 1),
            rows[j - 1],
            labelrows[j - 1],
        )
    }
}

/// A row of a batch, converted to the scalar kind.
pub open spec fn float_rows<I: DspFloat, S: IntoFloat<I>>(rows: Seq<Vec<S>>) -> Seq<Seq<I>> {
    rows.map(|j: int, r: Vec<S>| r@.map(|s: int, x: S| x.into_float_spec()))
}

/// Label rows of a batch.
pub open spec fn label_rows(rows: Seq<Vec<Label>>) -> Seq<Seq<Label>> {
    rows.map(|j: int, r: Vec<Label>| r@)
}


/// The frozen variance table: each accumulator divided by `n - 1`, zero for
/// groups with fewer than two observations.
pub open spec fn frozen_var<I: DspFloat>(var: Seq<Seq<Seq<I>>>, counts: Seq<Seq<u32>>) -> Seq<
    Seq<Seq<I>>,
> {
    Seq::new(
        var.len(),
        |t: int|
            Seq::new(
                var[t].len(),
                |c: int|
                    if counts[t][c] <= 1 {
                        Seq::new(var[t][c].len(), |s: int| I::zero_spec())
                    } else {
                        Seq::new(
                            var[t][c].len(),
                            |s: int|
                                var[t][c][s].div_spec(
                                    I::from_count_spec((counts[t][c] - 1) as u64),
                                ),
                        )
                    },
            ),
    )
}

/// Total observation count of target 0 after merging classes `0 ..= c`.
pub open spec fn gm_count(row: Seq<u32>, c: int) -> int
    decreases c,
{
    if c <= 0 {
        row[0] as int
    } else {
        gm_count(row, c - 1) + row[c]
    }
}

/// Merged mean at sample position `s` after folding classes `0 ..= c` of
/// target 0 with the pairwise combination formula.
pub open spec fn gm_mean<I: DspFloat>(mean0: Seq<Seq<I>>, row: Seq<u32>, c: int, s: int) -> I
    decreases c,
{
    if c <= 0 {
        mean0[0][s]
    } else {
        let m1 = gm_mean(mean0, row, c - 1, s);
        let n2 = row[c] as int;
        let nn = gm_count(row, c);
        let delta = mean0[c][s].sub_spec(m1);
        m1.add_spec(
            I::from_count_spec(n2 as u64).mul_spec(delta).div_spec(
                I::from_count_spec(nn as u64),
            ),
        )
    }
}

/// Merged unnormalized variance at sample position `s` after folding classes
/// `0 ..= c` of target 0.
pub open spec fn gm_var<I: DspFloat>(
    var0: Seq<Seq<I>>,
    mean0: Seq<Seq<I>>,
    row: Seq<u32>,
    c: int,
    s: int,
) -> I
    decreases c,
{
    if c <= 0 {
        var0[0][s]
    } else {
        let v1 = gm_var(var0, mean0, row, c - 1, s);
        let m1 = gm_mean(mean0, row, c - 1, s);
        let n1 = gm_count(row, c - 1);
        let n2 = row[c] as int;
        let nn = gm_count(row, c);
        let delta = mean0[c][s].sub_spec(m1);
        v1.add_spec(
            var0[c][s].add_spec(
                I::from_count_spec((n1 * n2) as u64).mul_spec(delta).mul_spec(delta).div_spec(
                    I::from_count_spec(nn as u64),
                ),
            ),
        )
    }
}

/// The merged global variance, normalized by `n - 1` (zero when `n <= 1`).
pub open spec fn gm_var_final<I: DspFloat>(
    var0: Seq<Seq<I>>,
    mean0: Seq<Seq<I>>,
    row: Seq<u32>,
    c: int,
    s: int,
) -> I {
    if gm_count(row, c) > 1 {
        gm_var(var0, mean0, row, c, s).div_spec(
            I::from_count_spec(gm_count(row, c) as u64).sub_spec(I::from_count_spec(1)),
        )
    } else {
        I::zero_spec()
    }
}

/// Welford running mean over the first `j` entries of a column.
pub open spec fn ax_mean<I: DspFloat>(col: Seq<I>, j: int) -> I
    decreases j,
{
    if j <= 0 {
        I::zero_spec()
    } else {
        let m = ax_mean(col, j - 1);
        m.add_spec(col[j - 1].sub_spec(m).div_spec(I::from_count_spec(j as u64)))
    }
}

/// Welford sum of squared deviations over the first `j` entries of a column.
pub open spec fn ax_m2<I: DspFloat>(col: Seq<I>, j: int) -> I
    decreases j,
{
    if j <= 0 {
        I::zero_spec()
    } else {
        let m = ax_mean(col, j - 1);
        let d = col[j - 1].sub_spec(m);
        ax_m2(col, j - 1).add_spec(d.mul_spec(col[j - 1].sub_spec(ax_mean(col, j))))
    }
}

/// Plain sum of the first `j` entries of a column.
pub open spec fn ax_sum<I: DspFloat>(col: Seq<I>, j: int) -> I
    decreases j,
{
    if j <= 0 {
        I::zero_spec()
    } else {
        ax_sum(col, j - 1).add_spec(col[j - 1])
    }
}

/// The column of a three-dimensional table along the class axis.
pub open spec fn class_col<I: DspFloat>(g: Seq<Seq<Seq<I>>>, t: int, s: int) -> Seq<I> {
    Seq::new(g[t].len(), |c: int| g[t][c][s])
}

/// Signal-to-noise ratio at (target, sample position): the variance across
/// classes of the mean accumulators, over the mean across classes of the
/// frozen variances.
pub open spec fn snr_at<I: DspFloat>(
    mean: Seq<Seq<Seq<I>>>,
    var: Seq<Seq<Seq<I>>>,
    counts: Seq<Seq<u32>>,
    classes: int,
    t: int,
    s: int,
) -> I {
    let num = ax_m2(class_col(mean, t, s), classes).div_spec(
        I::from_count_spec(classes as u64).sub_spec(I::one_spec()),
    );
    let den = ax_sum(class_col(frozen_var(var, counts), t, s), classes).div_spec(
        I::from_count_spec(classes as u64),
    );
    num.div_spec(den)
}

/// Conditional accumulator: a running mean and an unnormalized variance
/// accumulator for every (target, class, sample position), plus observation
/// counts per (target, class).
#[derive(Clone)]
pub struct CondMeanVar<I> {
    mean_per_class: Vec<Vec<Vec<I>>>,
    var_per_class: Vec<Vec<Vec<I>>>,
    samples_per_class: Vec<Vec<u32>>,
    targets: usize,
    classes: usize,
    samples: usize,
}

impl<I: DspFloat> CondMeanVar<I> {
    /// Number of targets (independent accumulation groups).
    pub closed spec fn targets_spec(self) -> int {
        self.targets as int
    }

    /// Number of classes per target.
    pub closed spec fn classes_spec(self) -> int {
        self.classes as int
    }

    /// Number of sample positions per row.
    pub closed spec fn samples_spec(self) -> int {
        self.samples as int
    }

    /// The mean-accumulator table, indexed target, class, sample position.
    pub closed spec fn mean_view(self) -> Seq<Seq<Seq<I>>> {
        grid3(self.mean_per_class)
    }

    /// The variance-accumulator table.
    pub closed spec fn var_view(self) -> Seq<Seq<Seq<I>>> {
        grid3(self.var_per_class)
    }

    /// The observation-count table, indexed target, class.
    pub closed spec fn counts_view(self) -> Seq<Seq<u32>> {
        grid2(self.samples_per_class)
    }

    /// Shape invariant: all three tables agree with the stored dimensions.
    pub closed spec fn wf(self) -> bool {
        &&& self.mean_per_class@.len() == self.targets
        &&& self.var_per_class@.len() == self.targets
        &&& self.samples_per_class@.len() == self.targets
        &&& forall|t: int|
            0 <= t < self.targets ==> (#[trigger] self.mean_per_class@[t]@).len() == self.classes
        &&& forall|t: int|
            0 <= t < self.targets ==> (#[trigger] self.var_per_class@[t]@).len() == self.classes
        &&& forall|t: int|
            0 <= t < self.targets ==> (#[trigger] self.samples_per_class@[t]@).len() == self.classes
        &&& forall|t: int, c: int|
            0 <= t < self.targets && 0 <= c < self.classes ==> (
            #[trigger] self.mean_per_class@[t]@[c]@).len() == self.samples
        &&& forall|t: int, c: int|
            0 <= t < self.targets && 0 <= c < self.classes ==> (
            #[trigger] self.var_per_class@[t]@[c]@).len() == self.samples
    }
}

/// A `targets x classes` table of zero counts.
fn zero_counts(targets: usize, classes: usize) -> (r: Vec<Vec<u32>>)
    ensures
        r@.len() == targets,
        forall|t: int| 0 <= t < targets ==> (#[trigger] r@[t]@).len() == classes,
        forall|t: int, c: int|
            0 <= t < targets && 0 <= c < classes ==> cell2(grid2(r), t, c) == 0u32,
{
    let mut out: Vec<Vec<u32>> = Vec::new();
    let mut t: usize = 0;
    while t < targets
        invariant
            t <= targets,
            out@.len() == t,
            forall|t2: int| 0 <= t2 < t ==> (#[trigger] out@[t2]@).len() == classes,
            forall|t2: int, c: int|
                0 <= t2 < t && 0 <= c < classes ==> out@[t2]@[c] == 0u32,
        decreases targets - t,
    {
        let mut row: Vec<u32> = Vec::new();
        let mut c: usize = 0;
        while c < classes
            invariant
                c <= classes,
                row@.len() == c,
                forall|c2: int| 0 <= c2 < c ==> row@[c2] == 0u32,
            decreases classes - c,
        {
            row.push(0);
            c += 1;
        }
        out.push(row);
        t += 1;
    }
    out
}

/// A `targets x classes x samples` table of zero scalars.
fn zero_grid3<I: DspFloat>(targets: usize, classes: usize, samples: usize) -> (r: Vec<
    Vec<Vec<I>>,
>)
    ensures
        r@.len() == targets,
        forall|t: int| 0 <= t < targets ==> (#[trigger] r@[t]@).len() == classes,
        forall|t: int, c: int|
            0 <= t < targets && 0 <= c < classes ==> (#[trigger] r@[t]@[c]@).len() == samples,
        forall|t: int, c: int, s: int|
            0 <= t < targets && 0 <= c < classes && 0 <= s < samples ==> cell3(grid3(r), t, c, s)
                == I::zero_spec(),
{
    let mut out: Vec<Vec<Vec<I>>> = Vec::new();
    let mut t: usize = 0;
    while t < targets
        invariant
            t <= targets,
            out@.len() == t,
            forall|t2: int| 0 <= t2 < t ==> (#[trigger] out@[t2]@).len() == classes,
            forall|t2: int, c: int|
                0 <= t2 < t && 0 <= c < classes ==> (#[trigger] out@[t2]@[c]@).len() == samples,
            forall|t2: int, c: int, s: int|
                0 <= t2 < t && 0 <= c < classes && 0 <= s < samples ==> out@[t2]@[c]@[s]
                    == I::zero_spec(),
        decreases targets - t,
    {
        let mut plane: Vec<Vec<I>> = Vec::new();
        let mut c: usize = 0;
        while c < classes
            invariant
                c <= classes,
                plane@.len() == c,
                forall|c2: int| 0 <= c2 < c ==> (#[trigger] plane@[c2]@).len() == samples,
                forall|c2: int, s: int|
                    0 <= c2 < c && 0 <= s < samples ==> plane@[c2]@[s] == I::zero_spec(),
            decreases classes - c,
        {
            let mut row: Vec<I> = Vec::new();
            let mut s: usize = 0;
            while s < samples
                invariant
                    s <= samples,
                    row@.len() == s,
                    forall|s2: int| 0 <= s2 < s ==> row@[s2] == I::zero_spec(),
                decreases samples - s,
            {
                row.push(I::zero());
                s += 1;
            }
            plane.push(row);
            c += 1;
        }
        out.push(plane);
        t += 1;
    }
    out
}

impl<I: DspFloat> CondMeanVar<I> {
    /// A zeroed accumulator for the given table shape.
    pub fn new(targets: usize, samples: usize, classes: usize) -> (r: Self)
        requires
            targets >= 1,
            samples >= 1,
            classes >= 1,
        ensures
            r.wf(),
            r.targets_spec() == targets,
            r.classes_spec() == classes,
            r.samples_spec() == samples,
            forall|t: int, c: int|
                0 <= t < targets && 0 <= c < classes ==> cell2(r.counts_view(), t, c) == 0u32,
            forall|t: int, c: int, s: int|
                0 <= t < targets && 0 <= c < classes && 0 <= s < samples ==> cell3(
                    r.mean_view(),
                    t,
                    c,
                    s,
                ) == I::zero_spec(),
            forall|t: int, c: int, s: int|
                0 <= t < targets && 0 <= c < classes && 0 <= s < samples ==> cell3(
                    r.var_view(),
                    t,
                    c,
                    s,
                ) == I::zero_spec(),
    {
        CondMeanVar {
            mean_per_class: zero_grid3(targets, classes, samples),
            var_per_class: zero_grid3(targets, classes, samples),
            samples_per_class: zero_counts(targets, classes),
            targets,
            classes,
            samples,
        }
    }

    /// Number of classes per target.
    pub fn num_classes(&self) -> (r: usize)
        requires
            self.wf(),
        ensures
            r as int == self.classes_spec(),
    {
        self.classes
    }

    /// Accumulate one row with one label per target.
    pub fn process<S: IntoFloat<I>>(&mut self, data: &Vec<S>, labels: &Vec<Label>)
        requires
            old(self).wf(),
            data@.len() == old(self).samples_spec(),
            labels@.len() == old(self).targets_spec(),
            forall|t: int|
                0 <= t < labels@.len() ==> ((#[trigger] labels@[t]) as int) < old(
                    self,
                ).classes_spec(),
            forall|t: int|
                0 <= t < labels@.len() ==> cell2(
                    old(self).counts_view(),
                    t,
                    #[trigger] labels@[t] as int,
                ) < u32::MAX,
        ensures
            final(self).wf(),
            final(self).targets_spec() == old(self).targets_spec(),
            final(self).classes_spec() == old(self).classes_spec(),
            final(self).samples_spec() == old(self).samples_spec(),
            final(self).counts_view() == counts_after(old(self).counts_view(), labels@),
            final(self).mean_view() == mean_after(
                old(self).mean_view(),
                old(self).counts_view(),
                data@.map(|s: int, x: S| x.into_float_spec()),
                labels@,
            ),
            final(self).var_view() == var_after(
                old(self).var_view(),
                old(self).mean_view(),
                old(self).counts_view(),
                data@.map(|s: int, x: S| x.into_float_spec()),
                labels@,
            ),
    {
        let ghost mean0 = grid3(old(self).mean_per_class);
        let ghost var0 = grid3(old(self).var_per_class);
        let ghost counts0 = grid2(old(self).samples_per_class);
        let ghost xs = data@.map(|s: int, x: S| x.into_float_spec());
        let targets = self.targets;
        let classes = self.classes;
        let samples = self.samples;

        let mut t: usize = 0;
        while t < targets
            invariant
                t <= targets,
                targets == self.targets,
                classes == self.classes,
                samples == self.samples,
                self.mean_per_class@.len() == targets,
                self.var_per_class@.len() == targets,
                self.samples_per_class@.len() == targets,
                data@.len() == samples,
                labels@.len() == targets,
                xs == data@.map(|s: int, x: S| x.into_float_spec()),
                mean0 == grid3(old(self).mean_per_class),
                var0 == grid3(old(self).var_per_class),
                counts0 == grid2(old(self).samples_per_class),
                mean0.len() == targets,
                var0.len() == targets,
                counts0.len() == targets,
                forall|t2: int|
                    0 <= t2 < targets ==> ((#[trigger] labels@[t2]) as int) < classes as int,
                forall|t2: int|
                    0 <= t2 < targets ==> cell2(counts0, t2, #[trigger] labels@[t2] as int)
                        < u32::MAX,
                forall|t2: int| 0 <= t2 < targets ==> (#[trigger] mean0[t2]).len() == classes,
                forall|t2: int| 0 <= t2 < targets ==> (#[trigger] var0[t2]).len() == classes,
                forall|t2: int| 0 <= t2 < targets ==> (#[trigger] counts0[t2]).len() == classes,
                forall|t2: int, c: int|
                    0 <= t2 < targets && 0 <= c < classes ==> (#[trigger] mean0[t2][c]).len()
                        == samples,
                forall|t2: int, c: int|
                    0 <= t2 < targets && 0 <= c < classes ==> (#[trigger] var0[t2][c]).len()
                        == samples,
                forall|t2: int|
                    0 <= t2 < targets ==> #[trigger] grid3(self.mean_per_class)[t2] == (if t2
                        < t {
                        mean_after(mean0, counts0, xs, labels@)[t2]
                    } else {
                        mean0[t2]
                    }),
                forall|t2: int|
                    0 <= t2 < targets ==> #[trigger] grid3(self.var_per_class)[t2] == (if t2 < t {
                        var_after(var0, mean0, counts0, xs, labels@)[t2]
                    } else {
                        var0[t2]
                    }),
                forall|t2: int|
                    0 <= t2 < targets ==> #[trigger] grid2(self.samples_per_class)[t2] == (if t2
                        < t {
                        counts_after(counts0, labels@)[t2]
                    } else {
                        counts0[t2]
                    }),
            decreases targets - t,
        {
            let l = labels[t] as usize;
            proof {
                let ti = t as int;
                assert(cell2(counts0, ti, l as int) == counts0[ti][l as int]);
                assert(grid2(self.samples_per_class)[ti] == counts0[ti]);
                assert(grid2(self.samples_per_class)[ti] == self.samples_per_class@[ti]@);
                assert(grid3(self.mean_per_class)[ti] == mean0[ti]);
                assert(grid3(self.mean_per_class)[ti] == grid2(self.mean_per_class@[ti]));
                assert(self.mean_per_class@[ti]@.len() == classes);
                assert(grid2(self.mean_per_class@[ti])[l as int] == self.mean_per_class@[ti]@[l as int]@);
                assert(self.mean_per_class@[ti]@[l as int]@ == mean0[ti][l as int]);
                assert(grid3(self.var_per_class)[ti] == var0[ti]);
                assert(grid3(self.var_per_class)[ti] == grid2(self.var_per_class@[ti]));
                assert(self.var_per_class@[ti]@.len() == classes);
                assert(grid2(self.var_per_class@[ti])[l as int] == self.var_per_class@[ti]@[l as int]@);
                assert(self.var_per_class@[ti]@[l as int]@ == var0[ti][l as int]);
            }
            let ghost counts_pre = grid2(self.samples_per_class);
            let ghost mean_pre = grid3(self.mean_per_class);
            let ghost var_pre = grid3(self.var_per_class);

            let counts_t = row_mut(&mut self.samples_per_class, t);
            let cnt = counts_t[l];
            let n1 = cnt + 1;
            counts_t[l] = n1;
            let nf = I::from_count(n1 as u64);

            let mean_t = row_mut(&mut self.mean_per_class, t);
            let mean_tc = row_mut(mean_t, l);
            let var_t = row_mut(&mut self.var_per_class, t);
            let var_tc = row_mut(var_t, l);

            let ghost mrow0 = mean_tc@;
            let ghost vrow0 = var_tc@;

            let mut s: usize = 0;
            while s < samples
                invariant
                    s <= samples,
                    samples == data@.len(),
                    mean_tc@.len() == samples,
                    var_tc@.len() == samples,
                    mrow0.len() == samples,
                    vrow0.len() == samples,
                    xs == data@.map(|s2: int, x: S| x.into_float_spec()),
                    nf == I::from_count_spec(n1 as u64),
                    forall|s2: int|
                        0 <= s2 < s ==> #[trigger] mean_tc@[s2] == welford_mean(
                            mrow0[s2],
                            xs[s2],
                            nf,
                        ),
                    forall|s2: int|
                        0 <= s2 < s ==> #[trigger] var_tc@[s2] == welford_var(
                            mrow0[s2],
                            vrow0[s2],
                            xs[s2],
                            nf,
                        ),
                    forall|s2: int| s <= s2 < samples ==> #[trigger] mean_tc@[s2] == mrow0[s2],
                    forall|s2: int| s <= s2 < samples ==> #[trigger] var_tc@[s2] == vrow0[s2],
                decreases samples - s,
            {
                let x = data[s].into_float();
                proof {
                    assert(xs[s as int] == data@[s as int].into_float_spec());
                }
                let m = mean_tc[s];
                let delta = x.sub(m);
                let new_mean = m.add(delta.div(nf));
                mean_tc[s] = new_mean;
                let v = var_tc[s];
                var_tc[s] = v.add(delta.mul(x.sub(new_mean)));
                s += 1;
            }
            t += 1;
            proof {
                let ti = t as int - 1;
                let li = l as int;
                assert forall|t2: int|
                    0 <= t2 < targets implies #[trigger] grid3(self.mean_per_class)[t2] == (if t2
                    < t {
                    mean_after(mean0, counts0, xs, labels@)[t2]
                } else {
                    mean0[t2]
                }) by {
                    if t2 == ti {
                        assert(grid3(self.mean_per_class)[t2] =~= mean_after(
                            mean0,
                            counts0,
                            xs,
                            labels@,
                        )[t2]) by {
                            assert forall|c: int|
                                0 <= c < classes implies grid3(self.mean_per_class)[t2][c]
                                == mean_after(mean0, counts0, xs, labels@)[t2][c] by {
                                if c == li {
                                    assert(grid3(self.mean_per_class)[t2][c] =~= mean_after(
                                        mean0,
                                        counts0,
                                        xs,
                                        labels@,
                                    )[t2][c]);
                                } else {
                                    assert(grid3(self.mean_per_class)[t2][c] == mean_pre[t2][c]);
                                }
                            }
                        }
                    } else {
                        assert(grid3(self.mean_per_class)[t2] == mean_pre[t2]);
                    }
                }
                assert forall|t2: int|
                    0 <= t2 < targets implies #[trigger] grid3(self.var_per_class)[t2] == (if t2
                    < t {
                    var_after(var0, mean0, counts0, xs, labels@)[t2]
                } else {
                    var0[t2]
                }) by {
                    if t2 == ti {
                        assert(grid3(self.var_per_class)[t2] =~= var_after(
                            var0,
                            mean0,
                            counts0,
                            xs,
                            labels@,
                        )[t2]) by {
                            assert forall|c: int|
                                0 <= c < classes implies grid3(self.var_per_class)[t2][c]
                                == var_after(var0, mean0, counts0, xs, labels@)[t2][c] by {
                                if c == li {
                                    assert(grid3(self.var_per_class)[t2][c] =~= var_after(
                                        var0,
                                        mean0,
                                        counts0,
                                        xs,
                                        labels@,
                                    )[t2][c]);
                                } else {
                                    assert(grid3(self.var_per_class)[t2][c] == var_pre[t2][c]);
                                }
                            }
                        }
                    } else {
                        assert(grid3(self.var_per_class)[t2] == var_pre[t2]);
                    }
                }
                assert forall|t2: int|
                    0 <= t2 < targets implies #[trigger] grid2(self.samples_per_class)[t2] == (if t2
                    < t {
                    counts_after(counts0, labels@)[t2]
                } else {
                    counts0[t2]
                }) by {
                    if t2 == ti {
                        assert(grid2(self.samples_per_class)[t2] =~= counts_after(
                            counts0,
                            labels@,
                        )[t2]);
                    } else {
                        assert(grid2(self.samples_per_class)[t2] == counts_pre[t2]);
                    }
                }
            }
        }
        proof {
            assert(grid3(self.mean_per_class) =~= mean_after(mean0, counts0, xs, labels@));
            assert(grid3(self.var_per_class) =~= var_after(var0, mean0, counts0, xs, labels@));
            assert(grid2(self.samples_per_class) =~= counts_after(counts0, labels@));
            assert forall|t2: int| 0 <= t2 < targets implies (#[trigger] self.mean_per_class@[t2]@).len()
                == classes by {
                assert(grid3(self.mean_per_class)[t2] == grid2(self.mean_per_class@[t2]));
                assert(mean_after(mean0, counts0, xs, labels@)[t2].len() == classes);
            }
            assert forall|t2: int| 0 <= t2 < targets implies (#[trigger] self.var_per_class@[t2]@).len()
                == classes by {
                assert(grid3(self.var_per_class)[t2] == grid2(self.var_per_class@[t2]));
                assert(var_after(var0, mean0, counts0, xs, labels@)[t2].len() == classes);
            }
            assert forall|t2: int| 0 <= t2 < targets implies (
            #[trigger] self.samples_per_class@[t2]@).len() == classes by {
                assert(grid2(self.samples_per_class)[t2] == self.samples_per_class@[t2]@);
                assert(counts_after(counts0, labels@)[t2].len() == classes);
            }
            assert forall|t2: int, c: int|
                0 <= t2 < targets && 0 <= c < classes implies (
            #[trigger] self.mean_per_class@[t2]@[c]@).len() == samples by {
                assert(grid3(self.mean_per_class)[t2] == grid2(self.mean_per_class@[t2]));
                assert(grid2(self.mean_per_class@[t2])[c] == self.mean_per_class@[t2]@[c]@);
                assert(self.mean_per_class@[t2]@[c]@ == mean_after(mean0, counts0, xs, labels@)[t2][c]);
                assert(mean_after(mean0, counts0, xs, labels@)[t2][c].len() == samples);
            }
            assert forall|t2: int, c: int|
                0 <= t2 < targets && 0 <= c < classes implies (
            #[trigger] self.var_per_class@[t2]@[c]@).len() == samples by {
                assert(grid3(self.var_per_class)[t2] == grid2(self.var_per_class@[t2]));
                assert(grid2(self.var_per_class@[t2])[c] == self.var_per_class@[t2]@[c]@);
                assert(self.var_per_class@[t2]@[c]@ == var_after(var0, mean0, counts0, xs, labels@)[t2][c]);
                assert(var_after(var0, mean0, counts0, xs, labels@)[t2][c].len() == samples);
            }
            assert(self.wf());
        }
    }

    /// Accumulate every row of a batch, paired with its per-target labels.
    pub fn process_block<S: IntoFloat<I>>(&mut self, data: &Vec<Vec<S>>, labels: &Vec<Vec<Label>>)
        requires
            old(self).wf(),
            data@.len() == labels@.len(),
            forall|j: int|
                0 <= j < data@.len() ==> #[trigger] crate::traits::row_view(data@, j).len() == old(
                    self,
                ).samples_spec(),
            forall|j: int|
                0 <= j < labels@.len() ==> #[trigger] crate::traits::row_view(labels@, j).len()
                    == old(self).targets_spec(),
            forall|j: int, t: int|
                0 <= j < labels@.len() && 0 <= t < old(self).targets_spec() ==> ((#[trigger] cell2(
                    label_rows(labels@),
                    j,
                    t,
                )) as int) < old(self).classes_spec(),
            forall|t: int, c: int|
                0 <= t < old(self).targets_spec() && 0 <= c < old(self).classes_spec() ==> (
                #[trigger] cell2(old(self).counts_view(), t, c)) + data@.len() <= u32::MAX,
        ensures
            final(self).wf(),
            final(self).targets_spec() == old(self).targets_spec(),
            final(self).classes_spec() == old(self).classes_spec(),
            final(self).samples_spec() == old(self).samples_spec(),
            final(self).counts_view() == counts_after_block(
                old(self).counts_view(),
                label_rows(labels@),
                data@.len() as int,
            ),
            final(self).mean_view() == mean_after_block(
                old(self).mean_view(),
                old(self).counts_view(),
                float_rows(data@),
                label_rows(labels@),
                data@.len() as int,
            ),
            final(self).var_view() == var_after_block(
                old(self).var_view(),
                old(self).mean_view(),
                old(self).counts_view(),
                float_rows(data@),
                label_rows(labels@),
                data@.len() as int,
            ),
    {
        let ghost mean0 = old(self).mean_view();
        let ghost var0 = old(self).var_view();
        let ghost counts0 = old(self).counts_view();
        let ghost rows = float_rows::<I, S>(data@);
        let ghost lrows = label_rows(labels@);
        let n = data.len();
        let mut j: usize = 0;
        while j < n
            invariant
                j <= n,
                n == data@.len(),
                n == labels@.len(),
                self.wf(),
                self.targets_spec() == old(self).targets_spec(),
                self.classes_spec() == old(self).classes_spec(),
                self.samples_spec() == old(self).samples_spec(),
                mean0 == old(self).mean_view(),
                var0 == old(self).var_view(),
                counts0 == old(self).counts_view(),
                counts0.len() == self.targets_spec(),
                forall|t: int|
                    0 <= t < self.targets_spec() ==> (#[trigger] counts0[t]).len()
                        == self.classes_spec(),
                rows == float_rows::<I, S>(data@),
                lrows == label_rows(labels@),
                forall|j2: int|
                    0 <= j2 < n ==> #[trigger] crate::traits::row_view(data@, j2).len()
                        == self.samples_spec(),
                forall|j2: int|
                    0 <= j2 < n ==> #[trigger] crate::traits::row_view(labels@, j2).len()
                        == self.targets_spec(),
                forall|j2: int, t: int|
                    0 <= j2 < n && 0 <= t < self.targets_spec() ==> ((#[trigger] cell2(
                        lrows,
                        j2,
                        t,
                    )) as int) < self.classes_spec(),
                forall|t: int, c: int|
                    0 <= t < self.targets_spec() && 0 <= c < self.classes_spec() ==> (
                    #[trigger] cell2(counts0, t, c)) + n <= u32::MAX,
                self.counts_view() == counts_after_block(counts0, lrows, j as int),
                self.mean_view() == mean_after_block(mean0, counts0, rows, lrows, j as int),
                self.var_view() == var_after_block(var0, mean0, counts0, rows, lrows, j as int),
            decreases n - j,
        {
            let ghost ji = j as int;
            proof {
                lemma_counts_block_shape(counts0, lrows, ji);
                assert(crate::traits::row_view(data@, ji) == data@[ji]@);
                assert(crate::traits::row_view(labels@, ji) == labels@[ji]@);
                assert(lrows[ji] == labels@[ji]@);
                assert forall|t: int|
                    0 <= t < labels@[ji]@.len() implies ((#[trigger] labels@[ji]@[t]) as int)
                    < self.classes_spec() by {
                    assert(cell2(lrows, ji, t) == labels@[ji]@[t]);
                }
                assert forall|t: int|
                    0 <= t < labels@[ji]@.len() implies cell2(
                    self.counts_view(),
                    t,
                    #[trigger] labels@[ji]@[t] as int,
                ) < u32::MAX by {
                    let c = labels@[ji]@[t] as int;
                    assert(cell2(lrows, ji, t) == labels@[ji]@[t]);
                    assert(cell2(counts0, t, c) + n <= u32::MAX);
                    assert(counts0[t][c] + ji <= u32::MAX);
                    lemma_counts_block_bound(counts0, lrows, ji, t, c);
                }
            }
            self.process(&data[j], &labels[j]);
            j += 1;
            proof {
                assert(rows[ji] == data@[ji]@.map(|s: int, x: S| x.into_float_spec()));
                assert(self.counts_view() == counts_after_block(counts0, lrows, ji + 1));
                assert(self.mean_view() == mean_after_block(mean0, counts0, rows, lrows, ji + 1));
                assert(self.var_view() == var_after_block(
                    var0,
                    mean0,
                    counts0,
                    rows,
                    lrows,
                    ji + 1,
                ));
            }
        }
    }

    /// Replace the accumulator's three tables.
    pub fn load_state(
        &mut self,
        mean_per_class: &Vec<Vec<Vec<I>>>,
        var_per_class: &Vec<Vec<Vec<I>>>,
        samples_per_class: &Vec<Vec<u32>>,
    )
        requires
            old(self).wf(),
            mean_per_class@.len() == old(self).targets_spec(),
            var_per_class@.len() == old(self).targets_spec(),
            samples_per_class@.len() == old(self).targets_spec(),
            forall|t: int|
                0 <= t < old(self).targets_spec() ==> (#[trigger] grid3(*mean_per_class)[t]).len()
                    == old(self).classes_spec(),
            forall|t: int|
                0 <= t < old(self).targets_spec() ==> (#[trigger] grid3(*var_per_class)[t]).len()
                    == old(self).classes_spec(),
            forall|t: int|
                0 <= t < old(self).targets_spec() ==> (#[trigger] grid2(*samples_per_class)[t]).len()
                    == old(self).classes_spec(),
            forall|t: int, c: int|
                0 <= t < old(self).targets_spec() && 0 <= c < old(self).classes_spec() ==> (
                #[trigger] grid3(*mean_per_class)[t][c]).len() == old(self).samples_spec(),
            forall|t: int, c: int|
                0 <= t < old(self).targets_spec() && 0 <= c < old(self).classes_spec() ==> (
                #[trigger] grid3(*var_per_class)[t][c]).len() == old(self).samples_spec(),
        ensures
            final(self).wf(),
            final(self).targets_spec() == old(self).targets_spec(),
            final(self).classes_spec() == old(self).classes_spec(),
            final(self).samples_spec() == old(self).samples_spec(),
            final(self).mean_view() == grid3(*mean_per_class),
            final(self).var_view() == grid3(*var_per_class),
            final(self).counts_view() == grid2(*samples_per_class),
    {
        let m = copy_grid3(mean_per_class);
        let v = copy_grid3(var_per_class);
        let c = copy_grid2_u32(samples_per_class);
        self.mean_per_class = m;
        self.var_per_class = v;
        self.samples_per_class = c;
        proof {
            lemma_grid_shapes(self.mean_per_class, self.var_per_class, self.samples_per_class);
        }
    }

    /// The accumulator's three tables, copied out for persistence.
    pub fn dump_state(&self) -> (r: (Vec<Vec<Vec<I>>>, Vec<Vec<Vec<I>>>, Vec<Vec<u32>>))
        ensures
            grid3(r.0) == self.mean_view(),
            grid3(r.1) == self.var_view(),
            grid2(r.2) == self.counts_view(),
    {
        (
            copy_grid3(&self.mean_per_class),
            copy_grid3(&self.var_per_class),
            copy_grid2_u32(&self.samples_per_class),
        )
    }

    /// Zeroed mean/variance tables of the accumulator's shape.
    pub fn create_output_arrays(&self) -> (r: (Vec<Vec<Vec<I>>>, Vec<Vec<Vec<I>>>))
        requires
            self.wf(),
        ensures
            r.0@.len() == self.targets_spec(),
            r.1@.len() == self.targets_spec(),
            forall|t: int|
                0 <= t < self.targets_spec() ==> (#[trigger] grid3(r.0)[t]).len()
                    == self.classes_spec(),
            forall|t: int|
                0 <= t < self.targets_spec() ==> (#[trigger] grid3(r.1)[t]).len()
                    == self.classes_spec(),
            forall|t: int, c: int|
                0 <= t < self.targets_spec() && 0 <= c < self.classes_spec() ==> (#[trigger] grid3(
                    r.0,
                )[t][c]).len() == self.samples_spec(),
            forall|t: int, c: int|
                0 <= t < self.targets_spec() && 0 <= c < self.classes_spec() ==> (#[trigger] grid3(
                    r.1,
                )[t][c]).len() == self.samples_spec(),
            forall|t: int, c: int, s: int|
                0 <= t < self.targets_spec() && 0 <= c < self.classes_spec() && 0 <= s
                    < self.samples_spec() ==> cell3(grid3(r.0), t, c, s) == I::zero_spec(),
            forall|t: int, c: int, s: int|
                0 <= t < self.targets_spec() && 0 <= c < self.classes_spec() && 0 <= s
                    < self.samples_spec() ==> cell3(grid3(r.1), t, c, s) == I::zero_spec(),
    {
        let mean = zero_grid3(self.targets, self.classes, self.samples);
        let var = zero_grid3(self.targets, self.classes, self.samples);
        proof {
            assert forall|t: int|
                0 <= t < self.targets_spec() implies (#[trigger] grid3(mean)[t]).len()
                == self.classes_spec() && (#[trigger] grid3(var)[t]).len()
                == self.classes_spec() by {
                assert(grid3(mean)[t] == grid2(mean@[t]));
                assert(grid3(var)[t] == grid2(var@[t]));
            }
            assert forall|t: int, c: int|
                0 <= t < self.targets_spec() && 0 <= c < self.classes_spec() implies (
            #[trigger] grid3(mean)[t][c]).len() == self.samples_spec() && (
            #[trigger] grid3(var)[t][c]).len() == self.samples_spec() by {
                assert(grid3(mean)[t] == grid2(mean@[t]));
                assert(grid2(mean@[t])[c] == mean@[t]@[c]@);
                assert(grid3(var)[t] == grid2(var@[t]));
                assert(grid2(var@[t])[c] == var@[t]@[c]@);
            }
            assert forall|t: int, c: int, s: int|
                0 <= t < self.targets_spec() && 0 <= c < self.classes_spec() && 0 <= s
                    < self.samples_spec() implies cell3(grid3(mean), t, c, s) == I::zero_spec()
                && cell3(grid3(var), t, c, s) == I::zero_spec() by {
                assert(grid3(mean)[t][c][s] == mean@[t]@[c]@[s]);
                assert(grid3(var)[t][c][s] == var@[t]@[c]@[s]);
            }
        }
        (mean, var)
    }

    /// The observation-count table, copied out.
    pub fn samples_per_class(&self) -> (r: Vec<Vec<u32>>)
        ensures
            grid2(r) == self.counts_view(),
    {
        copy_grid2_u32(&self.samples_per_class)
    }

    /// A copy of the accumulator restricted to sample positions `lo .. hi`.
    fn restrict(&self, lo: usize, hi: usize) -> (r: CondMeanVar<I>)
        requires
            self.wf(),
            lo < hi,
            hi as int <= self.samples_spec(),
        ensures
            r.wf(),
            r.targets_spec() == self.targets_spec(),
            r.classes_spec() == self.classes_spec(),
            r.samples_spec() == hi - lo,
            r.mean_view() == slice3(self.mean_view(), lo as int, hi as int),
            r.var_view() == slice3(self.var_view(), lo as int, hi as int),
            r.counts_view() == self.counts_view(),
    {
        let mean = slice_grid3(&self.mean_per_class, lo, hi);
        let var = slice_grid3(&self.var_per_class, lo, hi);
        let counts = copy_grid2_u32(&self.samples_per_class);
        proof {
            assert(slice3(self.mean_view(), lo as int, hi as int).len() == self.targets_spec());
            lemma_grid_shapes(mean, var, counts);
            assert forall|t: int|
                0 <= t < self.targets_spec() implies (#[trigger] mean@[t]@).len()
                == self.classes_spec() && (#[trigger] var@[t]@).len() == self.classes_spec() by {
                assert(grid3(mean)[t].len() == grid2(mean@[t]).len());
                assert(slice3(self.mean_view(), lo as int, hi as int)[t].len()
                    == self.mean_view()[t].len());
                assert(grid3(var)[t].len() == grid2(var@[t]).len());
                assert(slice3(self.var_view(), lo as int, hi as int)[t].len()
                    == self.var_view()[t].len());
                assert(self.mean_view()[t].len() == self.classes_spec());
                assert(self.var_view()[t].len() == self.classes_spec());
            }
            assert forall|t: int|
                0 <= t < self.targets_spec() implies (#[trigger] counts@[t]@).len()
                == self.classes_spec() by {
                assert(grid2(counts)[t] == self.counts_view()[t]);
                assert(self.counts_view()[t] == self.samples_per_class@[t]@);
            }
            assert forall|t: int, c: int|
                0 <= t < self.targets_spec() && 0 <= c < self.classes_spec() implies (
            #[trigger] mean@[t]@[c]@).len() == hi - lo && (#[trigger] var@[t]@[c]@).len() == hi
                - lo by {
                assert(grid3(mean)[t] == grid2(mean@[t]));
                assert(grid2(mean@[t])[c] == mean@[t]@[c]@);
                assert(grid3(mean)[t][c] == slice3(self.mean_view(), lo as int, hi as int)[t][c]);
                assert(self.mean_view()[t][c].len() == self.samples_spec());
                assert(grid3(var)[t] == grid2(var@[t]));
                assert(grid2(var@[t])[c] == var@[t]@[c]@);
                assert(grid3(var)[t][c] == slice3(self.var_view(), lo as int, hi as int)[t][c]);
                assert(self.var_view()[t][c].len() == self.samples_spec());
            }
        }
        CondMeanVar {
            mean_per_class: mean,
            var_per_class: var,
            samples_per_class: counts,
            targets: self.targets,
            classes: self.classes,
            samples: hi - lo,
        }
    }

    /// Final statistics: the mean table as accumulated, and the variance
    /// table normalized by `n - 1` (zero for groups with fewer than two
    /// observations).
    pub fn freeze(&self) -> (r: (Vec<Vec<Vec<I>>>, Vec<Vec<Vec<I>>>))
        requires
            self.wf(),
        ensures
            grid3(r.0) == self.mean_view(),
            grid3(r.1) == frozen_var(self.var_view(), self.counts_view()),
    {
        let mut mean = copy_grid3(&self.mean_per_class);
        let mut var = copy_grid3(&self.var_per_class);
        self.freeze_into(&mut mean, &mut var);
        (mean, var)
    }

    /// As `freeze`, writing into caller-supplied tables.
    pub fn freeze_into(&self, mean: &mut Vec<Vec<Vec<I>>>, var: &mut Vec<Vec<Vec<I>>>)
        requires
            self.wf(),
            old(mean)@.len() == self.targets_spec(),
            old(var)@.len() == self.targets_spec(),
            forall|t: int|
                0 <= t < self.targets_spec() ==> (#[trigger] grid3(*old(mean))[t]).len()
                    == self.classes_spec(),
            forall|t: int|
                0 <= t < self.targets_spec() ==> (#[trigger] grid3(*old(var))[t]).len()
                    == self.classes_spec(),
            forall|t: int, c: int|
                0 <= t < self.targets_spec() && 0 <= c < self.classes_spec() ==> (#[trigger] grid3(
                    *old(mean),
                )[t][c]).len() == self.samples_spec(),
            forall|t: int, c: int|
                0 <= t < self.targets_spec() && 0 <= c < self.classes_spec() ==> (#[trigger] grid3(
                    *old(var),
                )[t][c]).len() == self.samples_spec(),
        ensures
            grid3(*final(mean)) == self.mean_view(),
            grid3(*final(var)) == frozen_var(self.var_view(), self.counts_view()),
    {
        let m = copy_grid3(&self.mean_per_class);
        let v = self.frozen_var_table();
        *mean = m;
        *var = v;
    }

    /// The frozen variance table.
    fn frozen_var_table(&self) -> (r: Vec<Vec<Vec<I>>>)
        requires
            self.wf(),
        ensures
            grid3(r) == frozen_var(self.var_view(), self.counts_view()),
    {
        let ghost var0 = self.var_view();
        let ghost counts0 = self.counts_view();
        let targets = self.targets;
        let classes = self.classes;
        let samples = self.samples;
        let mut out: Vec<Vec<Vec<I>>> = Vec::new();
        let mut t: usize = 0;
        while t < targets
            invariant
                t <= targets,
                out@.len() == t,
                targets == self.targets,
                classes == self.classes,
                samples == self.samples,
                self.wf(),
                var0 == self.var_view(),
                counts0 == self.counts_view(),
                forall|t2: int|
                    0 <= t2 < t ==> #[trigger] grid3(out)[t2] == frozen_var(var0, counts0)[t2],
            decreases targets - t,
        {
            let ghost out_pre = out;
            proof {
                assert(grid3(self.var_per_class)[t as int] == grid2(self.var_per_class@[t as int]));
                assert(grid2(self.samples_per_class)[t as int]
                    == self.samples_per_class@[t as int]@);
            }
            let var_t: &Vec<Vec<I>> = &self.var_per_class[t];
            let counts_t: &Vec<u32> = &self.samples_per_class[t];
            let mut plane: Vec<Vec<I>> = Vec::new();
            let mut c: usize = 0;
            while c < classes
                invariant
                    c <= classes,
                    plane@.len() == c,
                    classes == self.classes,
                    samples == self.samples,
                    self.wf(),
                    var0 == self.var_view(),
                    counts0 == self.counts_view(),
                    t < targets,
                    targets == self.targets,
                    var_t@ == self.var_per_class@[t as int]@,
                    counts_t@ == self.samples_per_class@[t as int]@,
                    var_t@.len() == classes,
                    counts_t@.len() == classes,
                    forall|c2: int|
                        0 <= c2 < c ==> #[trigger] plane@[c2]@ == frozen_var(var0, counts0)[t as int][c2],
                decreases classes - c,
            {
                let ghost plane_pre = plane;
                proof {
                    assert(grid2(self.var_per_class@[t as int])[c as int]
                        == self.var_per_class@[t as int]@[c as int]@);
                    assert(var0[t as int][c as int] == var_t@[c as int]@);
                    assert(counts0[t as int][c as int] == counts_t@[c as int]);
                }
                let vrow: &Vec<I> = &var_t[c];
                let n = counts_t[c];
                let mut row: Vec<I> = Vec::new();
                if n <= 1 {
                    let mut si: usize = 0;
                    while si < samples
                        invariant
                            si <= samples,
                            row@.len() == si,
                            forall|s2: int| 0 <= s2 < si ==> row@[s2] == I::zero_spec(),
                        decreases samples - si,
                    {
                        row.push(I::zero());
                        si += 1;
                    }
                } else {
                    let nf = I::from_count((n - 1) as u64);
                    let mut si: usize = 0;
                    while si < samples
                        invariant
                            si <= samples,
                            row@.len() == si,
                            vrow@.len() == samples,
                            n > 1,
                            nf == I::from_count_spec((n - 1) as u64),
                            forall|s2: int|
                                0 <= s2 < si ==> #[trigger] row@[s2] == vrow@[s2].div_spec(nf),
                        decreases samples - si,
                    {
                        row.push(vrow[si].div(nf));
                        si += 1;
                    }
                }
                plane.push(row);
                c += 1;
                proof {
                    assert(frozen_var(var0, counts0)[t as int].len() == classes as int);
                    assert(plane@[c - 1]@ =~= frozen_var(var0, counts0)[t as int][c - 1]);
                    assert forall|c2: int|
                        0 <= c2 < c implies #[trigger] plane@[c2]@ == frozen_var(var0, counts0)[t as int][c2] by {
                        if c2 < c - 1 {
                            assert(plane@[c2] == plane_pre@[c2]);
                        }
                    }
                }
            }
            out.push(plane);
            t += 1;
            proof {
                assert(grid3(out)[t - 1] == grid2(out@[t - 1]));
                assert(grid3(out)[t - 1] =~= frozen_var(var0, counts0)[t - 1]);
                assert forall|t2: int|
                    0 <= t2 < t implies #[trigger] grid3(out)[t2] == frozen_var(var0, counts0)[t2] by {
                    if t2 < t - 1 {
                        assert(out@[t2] == out_pre@[t2]);
                        assert(grid3(out)[t2] == grid2(out@[t2]));
                        assert(grid3(out_pre)[t2] == grid2(out_pre@[t2]));
                    }
                }
            }
        }
        proof {
            assert(grid3(out) =~= frozen_var(var0, counts0));
        }
        out
    }

    /// Merge all classes of target 0 into one global (mean, variance, count)
    /// triple with the pairwise variance-combination formula; the final
    /// variance is normalized by `n - 1` (zero when `n <= 1`).
    pub fn freeze_global_mean_var(&self) -> (r: (Vec<I>, Vec<I>, u32))
        requires
            self.wf(),
            self.targets_spec() >= 1,
            self.classes_spec() >= 1,
            gm_count(self.counts_view()[0], self.classes_spec() - 1) <= u32::MAX,
        ensures
            r.0@.len() == self.samples_spec(),
            r.1@.len() == self.samples_spec(),
            forall|s: int|
                0 <= s < self.samples_spec() ==> #[trigger] r.0@[s] == gm_mean(
                    self.mean_view()[0],
                    self.counts_view()[0],
                    self.classes_spec() - 1,
                    s,
                ),
            forall|s: int|
                0 <= s < self.samples_spec() ==> #[trigger] r.1@[s] == gm_var_final(
                    self.var_view()[0],
                    self.mean_view()[0],
                    self.counts_view()[0],
                    self.classes_spec() - 1,
                    s,
                ),
            r.2 as int == gm_count(self.counts_view()[0], self.classes_spec() - 1),
    {
        let ghost mean0 = self.mean_view()[0];
        let ghost varg0 = self.var_view()[0];
        let ghost row0 = self.counts_view()[0];
        let classes = self.classes;
        let samples = self.samples;
        proof {
            assert(grid3(self.mean_per_class)[0] == grid2(self.mean_per_class@[0]));
            assert(grid3(self.var_per_class)[0] == grid2(self.var_per_class@[0]));
            assert(grid2(self.samples_per_class)[0] == self.samples_per_class@[0]@);
            assert(grid2(self.mean_per_class@[0])[0] == self.mean_per_class@[0]@[0]@);
            assert(grid2(self.var_per_class@[0])[0] == self.var_per_class@[0]@[0]@);
            lemma_gm_count_mono(row0, 0, classes as int - 1);
        }
        let mean_t: &Vec<Vec<I>> = &self.mean_per_class[0];
        let var_t: &Vec<Vec<I>> = &self.var_per_class[0];
        let counts_t: &Vec<u32> = &self.samples_per_class[0];
        let mut m_acc = crate::traits::copy_row(&mean_t[0]);
        let mut v_acc = crate::traits::copy_row(&var_t[0]);
        let mut samples_cnt: u32 = counts_t[0];
        let mut c: usize = 1;
        while c < classes
            invariant
                1 <= c <= classes,
                classes == self.classes,
                samples == self.samples,
                self.targets >= 1,
                self.wf(),
                mean0 == self.mean_view()[0],
                varg0 == self.var_view()[0],
                row0 == self.counts_view()[0],
                mean0.len() == classes,
                varg0.len() == classes,
                row0.len() == classes,
                forall|c2: int| 0 <= c2 < classes ==> (#[trigger] mean0[c2]).len() == samples,
                forall|c2: int| 0 <= c2 < classes ==> (#[trigger] varg0[c2]).len() == samples,
                mean_t@ == self.mean_per_class@[0]@,
                var_t@ == self.var_per_class@[0]@,
                counts_t@ == self.samples_per_class@[0]@,
                m_acc@.len() == samples,
                v_acc@.len() == samples,
                samples_cnt as int == gm_count(row0, c as int - 1),
                gm_count(row0, classes as int - 1) <= u32::MAX,
                forall|s2: int|
                    0 <= s2 < samples ==> #[trigger] m_acc@[s2] == gm_mean(
                        mean0,
                        row0,
                        c as int - 1,
                        s2,
                    ),
                forall|s2: int|
                    0 <= s2 < samples ==> #[trigger] v_acc@[s2] == gm_var(
                        varg0,
                        mean0,
                        row0,
                        c as int - 1,
                        s2,
                    ),
            decreases classes - c,
        {
            proof {
                assert(grid2(self.mean_per_class@[0])[c as int]
                    == self.mean_per_class@[0]@[c as int]@);
                assert(grid2(self.var_per_class@[0])[c as int]
                    == self.var_per_class@[0]@[c as int]@);
                assert(mean0[c as int] == mean_t@[c as int]@);
                assert(varg0[c as int] == var_t@[c as int]@);
                assert(row0[c as int] == counts_t@[c as int]);
                lemma_gm_count_mono(row0, c as int, classes as int - 1);
                lemma_gm_count_mono(row0, c as int - 1, c as int);
            }
            let m2_row: &Vec<I> = &mean_t[c];
            let v2_row: &Vec<I> = &var_t[c];
            let n1: u32 = samples_cnt;
            let n2: u32 = counts_t[c];
            let nn: u32 = n1 + n2;
            let n2f = I::from_count(n2 as u64);
            let nnf = I::from_count(nn as u64);
            proof {
                assert((n1 as int) * (n2 as int) <= 0xFFFF_FFFFint * 0xFFFF_FFFFint)
                    by (nonlinear_arith)
                    requires
                        0 <= (n1 as int) <= 0xFFFF_FFFFint,
                        0 <= (n2 as int) <= 0xFFFF_FFFFint;
            }
            let n1n2f = I::from_count((n1 as u64) * (n2 as u64));
            let mut s: usize = 0;
            while s < samples
                invariant
                    s <= samples,
                    1 <= c < classes,
                    samples == self.samples,
                    m_acc@.len() == samples,
                    v_acc@.len() == samples,
                    m2_row@.len() == samples,
                    v2_row@.len() == samples,
                    m2_row@ == mean0[c as int],
                    v2_row@ == varg0[c as int],
                    n1 as int == gm_count(row0, c as int - 1),
                    n2 == row0[c as int],
                    nn as int == gm_count(row0, c as int),
                    n2f == I::from_count_spec(n2 as u64),
                    nnf == I::from_count_spec(nn as u64),
                    n1n2f == I::from_count_spec((n1 as int * n2 as int) as u64),
                    forall|s2: int|
                        0 <= s2 < s ==> #[trigger] m_acc@[s2] == gm_mean(
                            mean0,
                            row0,
                            c as int,
                            s2,
                        ),
                    forall|s2: int|
                        s <= s2 < samples ==> #[trigger] m_acc@[s2] == gm_mean(
                            mean0,
                            row0,
                            c as int - 1,
                            s2,
                        ),
                    forall|s2: int|
                        0 <= s2 < s ==> #[trigger] v_acc@[s2] == gm_var(
                            varg0,
                            mean0,
                            row0,
                            c as int,
                            s2,
                        ),
                    forall|s2: int|
                        s <= s2 < samples ==> #[trigger] v_acc@[s2] == gm_var(
                            varg0,
                            mean0,
                            row0,
                            c as int - 1,
                            s2,
                        ),
                decreases samples - s,
            {
                let m1 = m_acc[s];
                let v1 = v_acc[s];
                let delta = m2_row[s].sub(m1);
                m_acc[s] = m1.add(n2f.mul(delta).div(nnf));
                v_acc[s] = v1.add(v2_row[s].add(n1n2f.mul(delta).mul(delta).div(nnf)));
                s += 1;
            }
            samples_cnt = nn;
            c += 1;
        }
        let total = samples_cnt;
        let mut v_out: Vec<I>;
        if total > 1 {
            let denom = I::from_count(total as u64).sub(I::from_count(1));
            let mut out: Vec<I> = Vec::new();
            let mut s: usize = 0;
            while s < samples
                invariant
                    s <= samples,
                    out@.len() == s,
                    v_acc@.len() == samples,
                    total > 1,
                    denom == I::from_count_spec(total as u64).sub_spec(I::from_count_spec(1)),
                    forall|s2: int|
                        0 <= s2 < s ==> #[trigger] out@[s2] == v_acc@[s2].div_spec(denom),
                decreases samples - s,
            {
                out.push(v_acc[s].div(denom));
                s += 1;
            }
            v_out = out;
        } else {
            let mut out: Vec<I> = Vec::new();
            let mut s: usize = 0;
            while s < samples
                invariant
                    s <= samples,
                    out@.len() == s,
                    forall|s2: int| 0 <= s2 < s ==> #[trigger] out@[s2] == I::zero_spec(),
                decreases samples - s,
            {
                out.push(I::zero());
                s += 1;
            }
            v_out = out;
        }
        (m_acc, v_out, total)
    }

    /// Snapshot of the signal-to-noise ratio: per target and sample position,
    /// the across-class variance of the mean accumulators over the mean
    /// across classes of the frozen variances.
    pub fn freeze_snr(&self) -> (r: Vec<Vec<I>>)
        requires
            self.wf(),
            self.classes_spec() >= 1,
        ensures
            r@.len() == self.targets_spec(),
            forall|t: int| 0 <= t < self.targets_spec() ==> (#[trigger] r@[t]@).len()
                == self.samples_spec(),
            forall|t: int, s: int|
                0 <= t < self.targets_spec() && 0 <= s < self.samples_spec() ==> #[trigger] cell2(
                    grid2(r),
                    t,
                    s,
                ) == snr_at(
                    self.mean_view(),
                    self.var_view(),
                    self.counts_view(),
                    self.classes_spec(),
                    t,
                    s,
                ),
    {
        let ghost meang = self.mean_view();
        let ghost varg = self.var_view();
        let ghost countsg = self.counts_view();
        let fv = self.frozen_var_table();
        proof {
            assert(grid3(fv).len() == fv@.len());
            assert(grid3(self.var_per_class).len() == self.var_per_class@.len());
            assert(fv@.len() == self.targets as int);
        }
        let targets = self.targets;
        let classes = self.classes;
        let samples = self.samples;
        let classes_f = I::from_count(classes as u64);
        let denom_n = classes_f.sub(I::one());
        let mut out: Vec<Vec<I>> = Vec::new();
        let mut t: usize = 0;
        while t < targets
            invariant
                t <= targets,
                out@.len() == t,
                targets == self.targets,
                classes == self.classes,
                samples == self.samples,
                self.wf(),
                meang == self.mean_view(),
                varg == self.var_view(),
                countsg == self.counts_view(),
                grid3(fv) == frozen_var(varg, countsg),
                fv@.len() == targets,
                classes_f == I::from_count_spec(classes as u64),
                denom_n == I::from_count_spec(classes as u64).sub_spec(I::one_spec()),
                forall|t2: int, s2: int|
                    0 <= t2 < t && 0 <= s2 < samples ==> #[trigger] out@[t2]@[s2] == snr_at(
                        meang,
                        varg,
                        countsg,
                        classes as int,
                        t2,
                        s2,
                    ),
                forall|t2: int| 0 <= t2 < t ==> (#[trigger] out@[t2]@).len() == samples,
            decreases targets - t,
        {
            proof {
                assert(grid3(self.mean_per_class)[t as int] == grid2(self.mean_per_class@[t as int]));
                assert(grid3(fv)[t as int] == grid2(fv@[t as int]));
                assert(frozen_var(varg, countsg)[t as int].len() == classes as int);
                assert(fv@[t as int]@.len() == classes as int);
            }
            let mean_t: &Vec<Vec<I>> = &self.mean_per_class[t];
            let fv_t: &Vec<Vec<I>> = &fv[t];
            let mut row_out: Vec<I> = Vec::new();
            let mut s: usize = 0;
            while s < samples
                invariant
                    s <= samples,
                    row_out@.len() == s,
                    t < targets,
                    targets == self.targets,
                    classes == self.classes,
                    samples == self.samples,
                    self.wf(),
                    meang == self.mean_view(),
                    varg == self.var_view(),
                    countsg == self.counts_view(),
                    grid3(fv) == frozen_var(varg, countsg),
                    fv@.len() == targets,
                    mean_t@ == self.mean_per_class@[t as int]@,
                    fv_t@ == fv@[t as int]@,
                    mean_t@.len() == classes,
                    fv_t@.len() == classes,
                    classes_f == I::from_count_spec(classes as u64),
                    denom_n == I::from_count_spec(classes as u64).sub_spec(I::one_spec()),
                    forall|s2: int|
                        0 <= s2 < s ==> #[trigger] row_out@[s2] == snr_at(
                            meang,
                            varg,
                            countsg,
                            classes as int,
                            t as int,
                            s2,
                        ),
                decreases samples - s,
            {
                let ghost mcol = class_col(meang, t as int, s as int);
                let ghost fcol = class_col(frozen_var(varg, countsg), t as int, s as int);
                let mut w_mean = I::zero();
                let mut w_m2 = I::zero();
                let mut acc = I::zero();
                let mut c: usize = 0;
                while c < classes
                    invariant
                        c <= classes,
                        t < targets,
                        s < samples,
                        classes == self.classes,
                        samples == self.samples,
                        self.wf(),
                        meang == self.mean_view(),
                        varg == self.var_view(),
                        countsg == self.counts_view(),
                        grid3(fv) == frozen_var(varg, countsg),
                        fv@.len() == targets,
                        targets == self.targets,
                        mean_t@ == self.mean_per_class@[t as int]@,
                        fv_t@ == fv@[t as int]@,
                        mean_t@.len() == classes,
                        fv_t@.len() == classes,
                        mcol == class_col(meang, t as int, s as int),
                        fcol == class_col(frozen_var(varg, countsg), t as int, s as int),
                        mcol.len() == classes,
                        fcol.len() == classes,
                        w_mean == ax_mean(mcol, c as int),
                        w_m2 == ax_m2(mcol, c as int),
                        acc == ax_sum(fcol, c as int),
                    decreases classes - c,
                {
                    proof {
                        assert(grid3(self.mean_per_class)[t as int] == grid2(
                            self.mean_per_class@[t as int],
                        ));
                        assert(grid2(self.mean_per_class@[t as int])[c as int]
                            == self.mean_per_class@[t as int]@[c as int]@);
                        assert(meang[t as int][c as int] == mean_t@[c as int]@);
                        assert(mcol[c as int] == meang[t as int][c as int][s as int]);
                        assert(grid3(fv)[t as int] == grid2(fv@[t as int]));
                        assert(grid2(fv@[t as int])[c as int] == fv@[t as int]@[c as int]@);
                        assert(frozen_var(varg, countsg)[t as int][c as int] == fv_t@[c as int]@);
                        assert(fcol[c as int] == frozen_var(varg, countsg)[t as int][c as int][s as int]);
                        assert(meang[t as int][c as int].len() == samples);
                        assert(frozen_var(varg, countsg)[t as int][c as int].len() == samples);
                    }
                    let x = mean_t[c][s];
                    let cf = I::from_count((c + 1) as u64);
                    let old_mean = w_mean;
                    let new_mean = old_mean.add(x.sub(old_mean).div(cf));
                    w_m2 = w_m2.add(x.sub(old_mean).mul(x.sub(new_mean)));
                    w_mean = new_mean;
                    acc = acc.add(fv_t[c][s]);
                    c += 1;
                }
                let num = w_m2.div(denom_n);
                let den = acc.div(classes_f);
                row_out.push(num.div(den));
                s += 1;
            }
            out.push(row_out);
            t += 1;
            proof {
                assert forall|t2: int, s2: int|
                    0 <= t2 < t && 0 <= s2 < samples implies #[trigger] out@[t2]@[s2] == snr_at(
                    meang,
                    varg,
                    countsg,
                    classes as int,
                    t2,
                    s2,
                ) by {
                }
            }
        }
        proof {
            assert forall|t2: int, s2: int|
                0 <= t2 < targets && 0 <= s2 < samples implies #[trigger] cell2(grid2(out), t2, s2)
                == snr_at(meang, varg, countsg, classes as int, t2, s2) by {
                assert(grid2(out)[t2] == out@[t2]@);
            }
            assert forall|t2: int|
                0 <= t2 < targets implies (#[trigger] out@[t2]@).len() == samples by {
            }
        }
        out
    }
}

/// A three-dimensional table restricted to sample positions `lo .. hi`.
pub open spec fn slice3<I>(g: Seq<Seq<Seq<I>>>, lo: int, hi: int) -> Seq<Seq<Seq<I>>> {
    Seq::new(g.len(), |t: int| Seq::new(g[t].len(), |c: int| g[t][c].subrange(lo, hi)))
}

/// A batch restricted to sample positions `lo .. hi` of every row.
pub open spec fn slice_rows<I>(rows: Seq<Seq<I>>, lo: int, hi: int) -> Seq<Seq<I>> {
    rows.map(|j: int, r: Seq<I>| r.subrange(lo, hi))
}

/// Worker `k` of a parallel accumulator.
pub open spec fn worker_at<I>(ws: Seq<CondMeanVar<I>>, k: int) -> CondMeanVar<I> {
    ws[k]
}

/// Parallel accumulator: an ordered list of independent workers, each owning
/// a contiguous slice of the sample-position axis.
pub struct CondMeanVarP<I> {
    workers: Vec<CondMeanVar<I>>,
    chunks: Vec<(u32, u32)>,
    targets: usize,
    samples: usize,
    classes: usize,
}

impl<I: DspFloat> CondMeanVarP<I> {
    /// The workers, in sample-axis order.
    pub closed spec fn workers_spec(self) -> Seq<CondMeanVar<I>> {
        self.workers@
    }

    /// The sample-position range (start, end) owned by each worker.
    pub closed spec fn chunks_spec(self) -> Seq<(u32, u32)> {
        self.chunks@
    }

    /// Number of targets.
    pub closed spec fn targets_spec(self) -> int {
        self.targets as int
    }

    /// Number of classes per target.
    pub closed spec fn classes_spec(self) -> int {
        self.classes as int
    }

    /// Number of sample positions of the whole (unsplit) accumulator.
    pub closed spec fn samples_spec(self) -> int {
        self.samples as int
    }

    /// Well-formedness: the chunks tile `0 .. samples` contiguously, each
    /// worker owns exactly its chunk's width, and all workers agree on the
    /// class/target shape and on the observation counts.
    pub closed spec fn wf(self) -> bool {
        &&& self.workers@.len() == self.chunks@.len()
        &&& self.workers@.len() >= 1
        &&& (self.chunks@[0].0 as int) == 0
        &&& (self.chunks@[self.chunks@.len() - 1].1 as int) == self.samples as int
        &&& forall|k: int|
            0 <= k < self.chunks@.len() - 1 ==> ((#[trigger] self.chunks@[k].1) as int)
                == self.chunks@[k + 1].0 as int
        &&& forall|k: int|
            0 <= k < self.chunks@.len() ==> ((#[trigger] self.chunks@[k].0) as int)
                < self.chunks@[k].1 as int <= self.samples as int
        &&& forall|k: int| 0 <= k < self.workers@.len() ==> (#[trigger] worker_at(self.workers@, k)).wf()
        &&& forall|k: int|
            0 <= k < self.workers@.len() ==> (#[trigger] worker_at(self.workers@, k)).targets_spec()
                == self.targets as int
        &&& forall|k: int|
            0 <= k < self.workers@.len() ==> (#[trigger] worker_at(self.workers@, k)).classes_spec()
                == self.classes as int
        &&& forall|k: int|
            0 <= k < self.workers@.len() ==> (#[trigger] worker_at(self.workers@, k)).samples_spec()
                == self.chunks@[k].1 as int - self.chunks@[k].0 as int
        &&& forall|k: int|
            0 <= k < self.workers@.len() ==> (#[trigger] worker_at(self.workers@, k)).counts_view()
                == worker_at(self.workers@, 0).counts_view()
    }

    /// A parallel accumulator over a freshly zeroed table shape: the chunk
    /// layout of `split`, every worker table zero, every count zero.
    pub fn new(chunk_size: usize, targets: usize, samples: usize, classes: usize) -> (r: Self)
        requires
            chunk_size >= 1,
            targets >= 1,
            samples >= 1,
            classes >= 1,
            samples <= u32::MAX,
        ensures
            r.wf(),
            r.targets_spec() == targets,
            r.classes_spec() == classes,
            r.samples_spec() == samples,
            forall|k: int|
                0 <= k < r.chunks_spec().len() ==> ((#[trigger] r.chunks_spec()[k].0) as int) == k
                    * (chunk_size as int),
            forall|k: int|
                0 <= k < r.chunks_spec().len() ==> ((#[trigger] r.chunks_spec()[k].1) as int)
                    == vstd::math::min((k + 1) * (chunk_size as int), samples as int),
            forall|k: int, t: int, c: int|
                0 <= k < r.workers_spec().len() && 0 <= t < targets && 0 <= c < classes
                    ==> #[trigger] cell2(worker_at(r.workers_spec(), k).counts_view(), t, c)
                    == 0u32,
            forall|k: int, t: int, c: int, sp: int|
                0 <= k < r.workers_spec().len() && 0 <= t < targets && 0 <= c < classes && 0 <= sp
                    < worker_at(r.workers_spec(), k).samples_spec() ==> #[trigger] cell3(
                    worker_at(r.workers_spec(), k).mean_view(),
                    t,
                    c,
                    sp,
                ) == I::zero_spec(),
            forall|k: int, t: int, c: int, sp: int|
                0 <= k < r.workers_spec().len() && 0 <= t < targets && 0 <= c < classes && 0 <= sp
                    < worker_at(r.workers_spec(), k).samples_spec() ==> #[trigger] cell3(
                    worker_at(r.workers_spec(), k).var_view(),
                    t,
                    c,
                    sp,
                ) == I::zero_spec(),
    {
        let tmp = CondMeanVar::new(targets, samples, classes);
        let r = CondMeanVarP::split(&tmp, chunk_size);
        proof {
            lemma_wf_shapes(tmp);
            assert forall|k: int, t: int, c: int|
                0 <= k < r.workers_spec().len() && 0 <= t < targets && 0 <= c < classes
                    implies #[trigger] cell2(worker_at(r.workers_spec(), k).counts_view(), t, c)
                == 0u32 by {
                assert(worker_at(r.workers_spec(), k).counts_view() == tmp.counts_view());
                assert(cell2(tmp.counts_view(), t, c) == 0u32);
            }
            assert forall|k: int, t: int, c: int, sp: int|
                0 <= k < r.workers_spec().len() && 0 <= t < targets && 0 <= c < classes && 0 <= sp
                    < worker_at(r.workers_spec(), k).samples_spec() implies #[trigger] cell3(
                worker_at(r.workers_spec(), k).mean_view(),
                t,
                c,
                sp,
            ) == I::zero_spec() by {
                let lo = r.chunks_spec()[k].0 as int;
                let hi = r.chunks_spec()[k].1 as int;
                assert(worker_at(r.workers_spec(), k).samples_spec() == hi - lo);
                assert(0 <= lo && lo < hi <= samples as int);
                assert(worker_at(r.workers_spec(), k).mean_view() == slice3(
                    tmp.mean_view(),
                    lo,
                    hi,
                ));
                assert(cell3(slice3(tmp.mean_view(), lo, hi), t, c, sp) == tmp.mean_view()[t][c][lo
                    + sp]);
                assert(cell3(tmp.mean_view(), t, c, lo + sp) == I::zero_spec());
            }
            assert forall|k: int, t: int, c: int, sp: int|
                0 <= k < r.workers_spec().len() && 0 <= t < targets && 0 <= c < classes && 0 <= sp
                    < worker_at(r.workers_spec(), k).samples_spec() implies #[trigger] cell3(
                worker_at(r.workers_spec(), k).var_view(),
                t,
                c,
                sp,
            ) == I::zero_spec() by {
                let lo = r.chunks_spec()[k].0 as int;
                let hi = r.chunks_spec()[k].1 as int;
                assert(worker_at(r.workers_spec(), k).samples_spec() == hi - lo);
                assert(0 <= lo && lo < hi <= samples as int);
                assert(worker_at(r.workers_spec(), k).var_view() == slice3(tmp.var_view(), lo, hi));
                assert(cell3(slice3(tmp.var_view(), lo, hi), t, c, sp) == tmp.var_view()[t][c][lo
                    + sp]);
                assert(cell3(tmp.var_view(), t, c, lo + sp) == I::zero_spec());
            }
        }
        r
    }

    /// Split an accumulator along the sample axis into contiguous chunks of
    /// at most `chunk_size` positions, one independent worker per chunk.
    pub fn split(accum: &CondMeanVar<I>, chunk_size: usize) -> (r: Self)
        requires
            accum.wf(),
            chunk_size >= 1,
            accum.samples_spec() >= 1,
            accum.samples_spec() <= u32::MAX,
        ensures
            r.wf(),
            r.targets_spec() == accum.targets_spec(),
            r.classes_spec() == accum.classes_spec(),
            r.samples_spec() == accum.samples_spec(),
            forall|k: int|
                0 <= k < r.chunks_spec().len() ==> ((#[trigger] r.chunks_spec()[k].0) as int) == k
                    * (chunk_size as int),
            forall|k: int|
                0 <= k < r.chunks_spec().len() ==> ((#[trigger] r.chunks_spec()[k].1) as int)
                    == vstd::math::min((k + 1) * (chunk_size as int), accum.samples_spec()),
            forall|k: int|
                0 <= k < r.workers_spec().len() ==> #[trigger] worker_at(
                    r.workers_spec(),
                    k,
                ).mean_view() == slice3(
                    accum.mean_view(),
                    r.chunks_spec()[k].0 as int,
                    r.chunks_spec()[k].1 as int,
                ),
            forall|k: int|
                0 <= k < r.workers_spec().len() ==> #[trigger] worker_at(
                    r.workers_spec(),
                    k,
                ).var_view() == slice3(
                    accum.var_view(),
                    r.chunks_spec()[k].0 as int,
                    r.chunks_spec()[k].1 as int,
                ),
            forall|k: int|
                0 <= k < r.workers_spec().len() ==> #[trigger] worker_at(
                    r.workers_spec(),
                    k,
                ).counts_view() == accum.counts_view(),
    {
        let samples = accum.samples;
        let classes = accum.classes;
        let targets = accum.targets;
        let mut workers: Vec<CondMeanVar<I>> = Vec::new();
        let mut indices: Vec<(u32, u32)> = Vec::new();
        let mut start: usize = 0;
        while start < samples
            invariant
                start <= samples,
                samples == accum.samples_spec(),
                classes == accum.classes_spec(),
                targets == accum.targets_spec(),
                accum.wf(),
                samples <= u32::MAX,
                chunk_size >= 1,
                workers@.len() == indices@.len(),
                start > 0 ==> indices@.len() >= 1,
                start == 0 ==> indices@.len() == 0,
                indices@.len() >= 1 ==> (indices@[0].0 as int) == 0,
                indices@.len() >= 1 ==> (indices@[indices@.len() - 1].1 as int) == start as int,
                forall|k: int|
                    0 <= k < indices@.len() - 1 ==> ((#[trigger] indices@[k].1) as int)
                        == indices@[k + 1].0 as int,
                forall|k: int|
                    0 <= k < indices@.len() ==> ((#[trigger] indices@[k].0) as int)
                        < indices@[k].1 as int <= samples as int,
                forall|k: int|
                    0 <= k < indices@.len() ==> ((#[trigger] indices@[k].0) as int) == k * (
                    chunk_size as int),
                forall|k: int|
                    0 <= k < indices@.len() ==> ((#[trigger] indices@[k].1) as int)
                        == vstd::math::min((k + 1) * (chunk_size as int), samples as int),
                forall|k: int|
                    0 <= k < workers@.len() ==> (#[trigger] worker_at(workers@, k)).wf(),
                forall|k: int|
                    0 <= k < workers@.len() ==> (#[trigger] worker_at(workers@, k)).targets_spec()
                        == targets as int,
                forall|k: int|
                    0 <= k < workers@.len() ==> (#[trigger] worker_at(workers@, k)).classes_spec()
                        == classes as int,
                forall|k: int|
                    0 <= k < workers@.len() ==> (#[trigger] worker_at(workers@, k)).samples_spec()
                        == indices@[k].1 as int - indices@[k].0 as int,
                forall|k: int|
                    0 <= k < workers@.len() ==> #[trigger] worker_at(workers@, k).mean_view()
                        == slice3(accum.mean_view(), indices@[k].0 as int, indices@[k].1 as int),
                forall|k: int|
                    0 <= k < workers@.len() ==> #[trigger] worker_at(workers@, k).var_view()
                        == slice3(accum.var_view(), indices@[k].0 as int, indices@[k].1 as int),
                forall|k: int|
                    0 <= k < workers@.len() ==> #[trigger] worker_at(workers@, k).counts_view()
                        == accum.counts_view(),
            decreases samples - start,
        {
            let end = if samples - start < chunk_size {
                samples
            } else {
                start + chunk_size
            };
            let ghost workers_pre = workers@;
            let ghost indices_pre = indices@;
            let w = accum.restrict(start, end);
            workers.push(w);
            indices.push((start as u32, end as u32));
            proof {
                let nk = indices@.len() as int;
                let cs = chunk_size as int;
                assert(indices@[nk - 1] == (start as u32, end as u32));
                assert(worker_at(workers@, nk - 1) == w);
                assert((nk - 1) * cs + cs == nk * cs) by (nonlinear_arith);
                if nk == 1 {
                    assert(indices_pre.len() == 0);
                    assert(start == 0);
                    assert(0int * cs == 0) by (nonlinear_arith);
                } else {
                    assert(indices_pre[nk - 2].1 as int == vstd::math::min(
                        (nk - 1) * cs,
                        samples as int,
                    ));
                    assert(start as int == indices_pre[nk - 2].1 as int);
                }
                assert(start as int == (nk - 1) * cs);
                assert(end as int == vstd::math::min(nk * cs, samples as int));
                assert forall|k: int|
                    0 <= k < nk implies ((#[trigger] indices@[k].0) as int) == k * cs by {
                    if k < nk - 1 {
                        assert(indices@[k] == indices_pre[k]);
                    }
                }
                assert forall|k: int|
                    0 <= k < nk implies ((#[trigger] indices@[k].1) as int) == vstd::math::min(
                    (k + 1) * cs,
                    samples as int,
                ) by {
                    if k < nk - 1 {
                        assert(indices@[k] == indices_pre[k]);
                    }
                }
                assert forall|k: int|
                    0 <= k < nk implies #[trigger] worker_at(workers@, k).mean_view() == slice3(
                    accum.mean_view(),
                    indices@[k].0 as int,
                    indices@[k].1 as int,
                ) by {
                    if k < nk - 1 {
                        assert(worker_at(workers@, k) == worker_at(workers_pre, k));
                        assert(indices@[k] == indices_pre[k]);
                    }
                }
                assert forall|k: int|
                    0 <= k < nk implies #[trigger] worker_at(workers@, k).var_view() == slice3(
                    accum.var_view(),
                    indices@[k].0 as int,
                    indices@[k].1 as int,
                ) by {
                    if k < nk - 1 {
                        assert(worker_at(workers@, k) == worker_at(workers_pre, k));
                        assert(indices@[k] == indices_pre[k]);
                    }
                }
                assert forall|k: int|
                    0 <= k < nk implies #[trigger] worker_at(workers@, k).counts_view()
                    == accum.counts_view() by {
                    if k < nk - 1 {
                        assert(worker_at(workers@, k) == worker_at(workers_pre, k));
                    }
                }
                assert forall|k: int|
                    0 <= k < nk implies (#[trigger] worker_at(workers@, k)).wf() && worker_at(
                    workers@,
                    k,
                ).targets_spec() == targets as int && worker_at(workers@, k).classes_spec()
                    == classes as int && worker_at(workers@, k).samples_spec() == indices@[k].1 as int
                    - indices@[k].0 as int by {
                    if k < nk - 1 {
                        assert(worker_at(workers@, k) == worker_at(workers_pre, k));
                        assert(indices@[k] == indices_pre[k]);
                    }
                }
            }
            start = end;
        }
        CondMeanVarP { workers, chunks: indices, targets, samples, classes }
    }

    /// Reassemble one accumulator by writing each worker's tables back into
    /// its sample-position range; counts are taken from the first worker
    /// (they are identical across workers).
    pub fn merge(&self) -> (r: CondMeanVar<I>)
        requires
            self.wf(),
        ensures
            r.wf(),
            r.targets_spec() == self.targets_spec(),
            r.classes_spec() == self.classes_spec(),
            r.samples_spec() == self.samples_spec(),
            r.counts_view() == worker_at(self.workers_spec(), 0).counts_view(),
            forall|k: int, t: int, c: int, s: int|
                0 <= k < self.workers_spec().len() && 0 <= t < self.targets_spec() && 0 <= c
                    < self.classes_spec() && 0 <= s < worker_at(self.workers_spec(), k).samples_spec()
                    ==> cell3(r.mean_view(), t, c, self.chunks_spec()[k].0 as int + s)
                    == #[trigger] cell3(worker_at(self.workers_spec(), k).mean_view(), t, c, s),
            forall|k: int, t: int, c: int, s: int|
                0 <= k < self.workers_spec().len() && 0 <= t < self.targets_spec() && 0 <= c
                    < self.classes_spec() && 0 <= s < worker_at(self.workers_spec(), k).samples_spec()
                    ==> cell3(r.var_view(), t, c, self.chunks_spec()[k].0 as int + s)
                    == #[trigger] cell3(worker_at(self.workers_spec(), k).var_view(), t, c, s),
    {
        let targets = self.targets;
        let classes = self.classes;
        let samples = self.samples;
        let nworkers = self.workers.len();
        let ghost ws = self.workers@;
        let ghost cks = self.chunks@;
        let mut m: Vec<Vec<Vec<I>>> = Vec::new();
        let mut v: Vec<Vec<Vec<I>>> = Vec::new();
        let mut t: usize = 0;
        while t < targets
            invariant
                t <= targets,
                self.wf(),
                targets == self.targets,
                classes == self.classes,
                samples == self.samples,
                nworkers == self.workers@.len(),
                ws == self.workers@,
                cks == self.chunks@,
                m@.len() == t,
                v@.len() == t,
                forall|t2: int| 0 <= t2 < t ==> (#[trigger] m@[t2]@).len() == classes,
                forall|t2: int| 0 <= t2 < t ==> (#[trigger] v@[t2]@).len() == classes,
                forall|t2: int, c2: int|
                    0 <= t2 < t && 0 <= c2 < classes ==> (#[trigger] m@[t2]@[c2]@).len() == samples,
                forall|t2: int, c2: int|
                    0 <= t2 < t && 0 <= c2 < classes ==> (#[trigger] v@[t2]@[c2]@).len() == samples,
                forall|k: int, t2: int, c2: int, s2: int|
                    0 <= k < nworkers && 0 <= t2 < t && 0 <= c2 < classes && 0 <= s2 < worker_at(
                        ws,
                        k,
                    ).samples_spec() ==> m@[t2]@[c2]@[cks[k].0 as int + s2] == #[trigger] cell3(
                        worker_at(ws, k).mean_view(),
                        t2,
                        c2,
                        s2,
                    ),
                forall|k: int, t2: int, c2: int, s2: int|
                    0 <= k < nworkers && 0 <= t2 < t && 0 <= c2 < classes && 0 <= s2 < worker_at(
                        ws,
                        k,
                    ).samples_spec() ==> v@[t2]@[c2]@[cks[k].0 as int + s2] == #[trigger] cell3(
                        worker_at(ws, k).var_view(),
                        t2,
                        c2,
                        s2,
                    ),
            decreases targets - t,
        {
            let mut mplane: Vec<Vec<I>> = Vec::new();
            let mut vplane: Vec<Vec<I>> = Vec::new();
            let mut c: usize = 0;
            while c < classes
                invariant
                    c <= classes,
                    t < targets,
                    self.wf(),
                    targets == self.targets,
                    classes == self.classes,
                    samples == self.samples,
                    nworkers == self.workers@.len(),
                    ws == self.workers@,
                    cks == self.chunks@,
                    mplane@.len() == c,
                    vplane@.len() == c,
                    forall|c2: int| 0 <= c2 < c ==> (#[trigger] mplane@[c2]@).len() == samples,
                    forall|c2: int| 0 <= c2 < c ==> (#[trigger] vplane@[c2]@).len() == samples,
                    forall|k: int, c2: int, s2: int|
                        0 <= k < nworkers && 0 <= c2 < c && 0 <= s2 < worker_at(
                            ws,
                            k,
                        ).samples_spec() ==> mplane@[c2]@[cks[k].0 as int + s2] == #[trigger] cell3(
                            worker_at(ws, k).mean_view(),
                            t as int,
                            c2,
                            s2,
                        ),
                    forall|k: int, c2: int, s2: int|
                        0 <= k < nworkers && 0 <= c2 < c && 0 <= s2 < worker_at(
                            ws,
                            k,
                        ).samples_spec() ==> vplane@[c2]@[cks[k].0 as int + s2] == #[trigger] cell3(
                            worker_at(ws, k).var_view(),
                            t as int,
                            c2,
                            s2,
                        ),
                decreases classes - c,
            {
                let mut mrow: Vec<I> = Vec::new();
                let mut vrow: Vec<I> = Vec::new();
                let mut k: usize = 0;
                while k < nworkers
                    invariant
                        k <= nworkers,
                        t < targets,
                        c < classes,
                        self.wf(),
                        targets == self.targets,
                        classes == self.classes,
                        samples == self.samples,
                        nworkers == self.workers@.len(),
                        ws == self.workers@,
                        cks == self.chunks@,
                        mrow@.len() == vrow@.len(),
                        mrow@.len() as int == if k == 0 {
                            0int
                        } else {
                            cks[k - 1].1 as int
                        },
                        forall|k2: int, s2: int|
                            0 <= k2 < k && 0 <= s2 < worker_at(ws, k2).samples_spec()
                                ==> mrow@[cks[k2].0 as int + s2] == #[trigger] cell3(
                                worker_at(ws, k2).mean_view(),
                                t as int,
                                c as int,
                                s2,
                            ),
                        forall|k2: int, s2: int|
                            0 <= k2 < k && 0 <= s2 < worker_at(ws, k2).samples_spec()
                                ==> vrow@[cks[k2].0 as int + s2] == #[trigger] cell3(
                                worker_at(ws, k2).var_view(),
                                t as int,
                                c as int,
                                s2,
                            ),
                    decreases nworkers - k,
                {
                    let ghost mrow_pre = mrow@;
                    let ghost vrow_pre = vrow@;
                    let w: &CondMeanVar<I> = &self.workers[k];
                    proof {
                        assert(worker_at(ws, k as int) == *w);
                        assert(w.wf());
                        assert(grid3(w.mean_per_class)[t as int] == grid2(
                            w.mean_per_class@[t as int],
                        ));
                        assert(grid2(w.mean_per_class@[t as int])[c as int]
                            == w.mean_per_class@[t as int]@[c as int]@);
                        assert(grid3(w.var_per_class)[t as int] == grid2(
                            w.var_per_class@[t as int],
                        ));
                        assert(grid2(w.var_per_class@[t as int])[c as int]
                            == w.var_per_class@[t as int]@[c as int]@);
                        if k == 0 {
                        } else {
                            assert(cks[k as int - 1].1 as int == cks[k as int].0 as int);
                        }
                    }
                    let wplane: &Vec<Vec<I>> = &w.mean_per_class[t];
                    let wrow: &Vec<I> = &wplane[c];
                    let wvplane: &Vec<Vec<I>> = &w.var_per_class[t];
                    let wvrow: &Vec<I> = &wvplane[c];
                    let wlen = wrow.len();
                    let mut s: usize = 0;
                    while s < wlen
                        invariant
                            s <= wlen,
                            wlen == wrow@.len(),
                            wlen == wvrow@.len(),
                            mrow@.len() == mrow_pre.len() + s,
                            vrow@.len() == vrow_pre.len() + s,
                            forall|p: int| 0 <= p < mrow_pre.len() ==> #[trigger] mrow@[p]
                                == mrow_pre[p],
                            forall|p: int| 0 <= p < vrow_pre.len() ==> #[trigger] vrow@[p]
                                == vrow_pre[p],
                            forall|s2: int|
                                0 <= s2 < s ==> #[trigger] mrow@[mrow_pre.len() + s2]
                                    == wrow@[s2],
                            forall|s2: int|
                                0 <= s2 < s ==> #[trigger] vrow@[vrow_pre.len() + s2]
                                    == wvrow@[s2],
                        decreases wlen - s,
                    {
                        mrow.push(wrow[s]);
                        vrow.push(wvrow[s]);
                        s += 1;
                    }
                    k += 1;
                    proof {
                        let ki = k as int - 1;
                        assert(wrow@.len() as int == worker_at(ws, ki).samples_spec());
                        assert(mrow_pre.len() as int == cks[ki].0 as int);
                        assert forall|k2: int, s2: int|
                            0 <= k2 < k && 0 <= s2 < worker_at(ws, k2).samples_spec()
                                implies mrow@[cks[k2].0 as int + s2] == #[trigger] cell3(
                            worker_at(ws, k2).mean_view(),
                            t as int,
                            c as int,
                            s2,
                        ) by {
                            if k2 == ki {
                                assert(mrow@[cks[k2].0 as int + s2] == wrow@[s2]);
                                assert(cell3(worker_at(ws, k2).mean_view(), t as int, c as int, s2)
                                    == w.mean_per_class@[t as int]@[c as int]@[s2]);
                            } else {
                                assert(cks[k2].0 as int + s2 < cks[k2].1 as int);
                                lemma_chunks_sorted(cks, ws, self.samples as int, k2, ki);
                                assert(mrow@[cks[k2].0 as int + s2] == mrow_pre[cks[k2].0 as int
                                    + s2]);
                            }
                        }
                        assert forall|k2: int, s2: int|
                            0 <= k2 < k && 0 <= s2 < worker_at(ws, k2).samples_spec()
                                implies vrow@[cks[k2].0 as int + s2] == #[trigger] cell3(
                            worker_at(ws, k2).var_view(),
                            t as int,
                            c as int,
                            s2,
                        ) by {
                            if k2 == ki {
                                assert(vrow@[cks[k2].0 as int + s2] == wvrow@[s2]);
                                assert(cell3(worker_at(ws, k2).var_view(), t as int, c as int, s2)
                                    == w.var_per_class@[t as int]@[c as int]@[s2]);
                            } else {
                                assert(cks[k2].0 as int + s2 < cks[k2].1 as int);
                                lemma_chunks_sorted(cks, ws, self.samples as int, k2, ki);
                                assert(vrow@[cks[k2].0 as int + s2] == vrow_pre[cks[k2].0 as int
                                    + s2]);
                            }
                        }
                    }
                }
                proof {
                    assert(mrow@.len() as int == cks[nworkers - 1].1 as int);
                    assert(mrow@.len() == samples);
                }
                mplane.push(mrow);
                vplane.push(vrow);
                c += 1;
            }
            m.push(mplane);
            v.push(vplane);
            t += 1;
        }
        let counts = {
            let w0: &CondMeanVar<I> = &self.workers[0];
            copy_grid2_u32(&w0.samples_per_class)
        };
        proof {
            lemma_grid_shapes(m, v, counts);
            assert(worker_at(ws, 0).counts_view() == grid2(counts)) by {
                assert(worker_at(ws, 0) == self.workers@[0]);
            }
            assert forall|t2: int|
                0 <= t2 < targets implies (#[trigger] counts@[t2]@).len() == classes as int by {
                assert(grid2(counts)[t2] == counts@[t2]@);
                assert(worker_at(ws, 0).counts_view()[t2].len() == classes as int) by {
                    assert(worker_at(ws, 0).wf());
                    assert(worker_at(ws, 0).counts_view()[t2]
                        == self.workers@[0].samples_per_class@[t2]@);
                }
            }
            assert forall|k: int, t2: int, c2: int, s2: int|
                0 <= k < nworkers && 0 <= t2 < targets && 0 <= c2 < classes && 0 <= s2 < worker_at(
                    ws,
                    k,
                ).samples_spec() implies cell3(grid3(m), t2, c2, cks[k].0 as int + s2)
                == #[trigger] cell3(worker_at(ws, k).mean_view(), t2, c2, s2) && cell3(
                grid3(v),
                t2,
                c2,
                cks[k].0 as int + s2,
            ) == cell3(worker_at(ws, k).var_view(), t2, c2, s2) by {
                assert(grid3(m)[t2] == grid2(m@[t2]));
                assert(grid2(m@[t2])[c2] == m@[t2]@[c2]@);
                assert(grid3(v)[t2] == grid2(v@[t2]));
                assert(grid2(v@[t2])[c2] == v@[t2]@[c2]@);
            }
        }
        CondMeanVar {
            mean_per_class: m,
            var_per_class: v,
            samples_per_class: counts,
            targets,
            classes,
            samples,
        }
    }

    /// Accumulate a batch, each worker processing its own column range of
    /// the same rows in parallel.
    pub fn process_block<S: IntoFloat<I> + Copy + Send + Sync>(
        &mut self,
        data: &Vec<Vec<S>>,
        labels: &Vec<Vec<Label>>,
    ) where I: Send + Sync
        requires
            old(self).wf(),
            data@.len() == labels@.len(),
            forall|j: int|
                0 <= j < data@.len() ==> #[trigger] crate::traits::row_view(data@, j).len() == old(
                    self,
                ).samples_spec(),
            forall|j: int|
                0 <= j < labels@.len() ==> #[trigger] crate::traits::row_view(labels@, j).len()
                    == old(self).targets_spec(),
            forall|j: int, t: int|
                0 <= j < labels@.len() && 0 <= t < old(self).targets_spec() ==> ((#[trigger] cell2(
                    label_rows(labels@),
                    j,
                    t,
                )) as int) < old(self).classes_spec(),
            forall|t: int, c: int|
                0 <= t < old(self).targets_spec() && 0 <= c < old(self).classes_spec() ==> (
                #[trigger] cell2(worker_at(old(self).workers_spec(), 0).counts_view(), t, c))
                    + data@.len() <= u32::MAX,
        ensures
            final(self).wf(),
            final(self).targets_spec() == old(self).targets_spec(),
            final(self).classes_spec() == old(self).classes_spec(),
            final(self).samples_spec() == old(self).samples_spec(),
            final(self).chunks_spec() == old(self).chunks_spec(),
            final(self).workers_spec().len() == old(self).workers_spec().len(),
            forall|k: int|
                0 <= k < old(self).workers_spec().len() ==> #[trigger] worker_at(
                    final(self).workers_spec(),
                    k,
                ).counts_view() == counts_after_block(
                    worker_at(old(self).workers_spec(), k).counts_view(),
                    label_rows(labels@),
                    data@.len() as int,
                ),
            forall|k: int|
                0 <= k < old(self).workers_spec().len() ==> #[trigger] worker_at(
                    final(self).workers_spec(),
                    k,
                ).mean_view() == mean_after_block(
                    worker_at(old(self).workers_spec(), k).mean_view(),
                    worker_at(old(self).workers_spec(), k).counts_view(),
                    slice_rows(
                        float_rows(data@),
                        old(self).chunks_spec()[k].0 as int,
                        old(self).chunks_spec()[k].1 as int,
                    ),
                    label_rows(labels@),
                    data@.len() as int,
                ),
            forall|k: int|
                0 <= k < old(self).workers_spec().len() ==> #[trigger] worker_at(
                    final(self).workers_spec(),
                    k,
                ).var_view() == var_after_block(
                    worker_at(old(self).workers_spec(), k).var_view(),
                    worker_at(old(self).workers_spec(), k).mean_view(),
                    worker_at(old(self).workers_spec(), k).counts_view(),
                    slice_rows(
                        float_rows(data@),
                        old(self).chunks_spec()[k].0 as int,
                        old(self).chunks_spec()[k].1 as int,
                    ),
                    label_rows(labels@),
                    data@.len() as int,
                ),
    {
        let ghost ws0 = self.workers@;
        let ghost cks = self.chunks@;
        let nworkers = self.workers.len();
        let nrows = data.len();

        // Column-slice the batch once per worker.
        let mut datas: Vec<Vec<Vec<S>>> = Vec::new();
        let mut k: usize = 0;
        while k < nworkers
            invariant
                k <= nworkers,
                self.wf(),
                ws0 == self.workers@,
                cks == self.chunks@,
                nworkers == self.workers@.len(),
                nrows == data@.len(),
                forall|j: int|
                    0 <= j < data@.len() ==> #[trigger] crate::traits::row_view(data@, j).len()
                        == self.samples_spec(),
                datas@.len() == k,
                forall|k2: int| 0 <= k2 < k ==> (#[trigger] datas@[k2]@).len() == nrows,
                forall|k2: int, j: int|
                    0 <= k2 < k && 0 <= j < nrows ==> #[trigger] datas@[k2]@[j]@
                        == data@[j]@.subrange(cks[k2].0 as int, cks[k2].1 as int),
            decreases nworkers - k,
        {
            let ghost datas_pre = datas@;
            let lo = self.chunk_start(k);
            let hi = self.chunk_end(k);
            let mut dk: Vec<Vec<S>> = Vec::new();
            let mut j: usize = 0;
            while j < nrows
                invariant
                    j <= nrows,
                    nrows == data@.len(),
                    lo <= hi,
                    lo as int == cks[k as int].0 as int,
                    hi as int == cks[k as int].1 as int,
                    k < nworkers,
                    cks == self.chunks@,
                    forall|j2: int|
                        0 <= j2 < data@.len() ==> #[trigger] crate::traits::row_view(
                            data@,
                            j2,
                        ).len() == self.samples_spec(),
                    hi as int <= self.samples_spec(),
                    dk@.len() == j,
                    forall|j2: int|
                        0 <= j2 < j ==> #[trigger] dk@[j2]@ == data@[j2]@.subrange(
                            lo as int,
                            hi as int,
                        ),
                decreases nrows - j,
            {
                proof {
                    assert(crate::traits::row_view(data@, j as int) == data@[j as int]@);
                }
                dk.push(copy_subrange(&data[j], lo, hi));
                j += 1;
            }
            datas.push(dk);
            k += 1;
            proof {
                assert forall|k2: int, j: int|
                    0 <= k2 < k && 0 <= j < nrows implies #[trigger] datas@[k2]@[j]@
                    == data@[j]@.subrange(cks[k2].0 as int, cks[k2].1 as int) by {
                    if k2 < k - 1 {
                        assert(datas@[k2] == datas_pre[k2]);
                    }
                }
            }
        }

        proof {
            assert forall|k2: int, j: int, t: int|
                #![trigger cell2(label_rows(labels@), j, t), worker_at(ws0, k2).classes_spec()]
                0 <= k2 < nworkers && 0 <= j < labels@.len() && 0 <= t < worker_at(
                    ws0,
                    k2,
                ).targets_spec() implies ((cell2(label_rows(labels@), j, t)) as int) < worker_at(
                    ws0,
                    k2,
                ).classes_spec() by {
            }
            assert forall|k2: int, j: int|
                0 <= k2 < nworkers && 0 <= j < labels@.len() implies #[trigger] datas@[k2]@[j]@.len()
                == worker_at(ws0, k2).samples_spec() by {
                assert(crate::traits::row_view(data@, j) == data@[j]@);
                assert(data@[j]@.len() == self.samples_spec());
                assert(0 <= cks[k2].0 as int <= cks[k2].1 as int <= self.samples_spec());
                assert(datas@[k2]@[j]@ == data@[j]@.subrange(cks[k2].0 as int, cks[k2].1 as int));
            }
            assert forall|k2: int, t: int, c: int|
                0 <= k2 < nworkers && 0 <= t < worker_at(ws0, k2).targets_spec() && 0 <= c
                    < worker_at(ws0, k2).classes_spec() implies (#[trigger] cell2(
                worker_at(ws0, k2).counts_view(),
                t,
                c,
            )) + labels@.len() <= u32::MAX by {
                assert(worker_at(ws0, k2).counts_view() == worker_at(ws0, 0).counts_view());
                assert(ws0 == old(self).workers_spec());
                assert(0 <= t < old(self).targets_spec() && 0 <= c < old(self).classes_spec());
                assert(cell2(worker_at(old(self).workers_spec(), 0).counts_view(), t, c)
                    + data@.len() <= u32::MAX);
            }
        }
        par_process_workers(&mut self.workers, &datas, labels);
        proof {
            assert forall|k2: int|
                0 <= k2 < nworkers implies #[trigger] worker_at(self.workers@, k2).mean_view()
                == mean_after_block(
                worker_at(ws0, k2).mean_view(),
                worker_at(ws0, k2).counts_view(),
                slice_rows(float_rows(data@), cks[k2].0 as int, cks[k2].1 as int),
                label_rows(labels@),
                nrows as int,
            ) by {
                lemma_slice_float_rows::<I, S>(data@, datas@[k2]@, cks[k2].0 as int, cks[k2].1 as int, self.samples_spec());
            }
            assert forall|k2: int|
                0 <= k2 < nworkers implies #[trigger] worker_at(self.workers@, k2).var_view()
                == var_after_block(
                worker_at(ws0, k2).var_view(),
                worker_at(ws0, k2).mean_view(),
                worker_at(ws0, k2).counts_view(),
                slice_rows(float_rows(data@), cks[k2].0 as int, cks[k2].1 as int),
                label_rows(labels@),
                nrows as int,
            ) by {
                lemma_slice_float_rows::<I, S>(data@, datas@[k2]@, cks[k2].0 as int, cks[k2].1 as int, self.samples_spec());
            }
            assert forall|k2: int|
                0 <= k2 < nworkers implies #[trigger] worker_at(self.workers@, k2).counts_view()
                == worker_at(self.workers@, 0).counts_view() by {
                lemma_counts_block_shape(worker_at(ws0, k2).counts_view(), label_rows(labels@), nrows as int);
            }
        }
    }

    /// Start of worker `k`'s sample-position range.
    fn chunk_start(&self, k: usize) -> (r: usize)
        requires
            self.wf(),
            (k as int) < self.chunks_spec().len(),
        ensures
            r as int == self.chunks_spec()[k as int].0 as int,
            r as int <= self.samples_spec(),
    {
        let p = self.chunks[k];
        p.0 as usize
    }

    /// End of worker `k`'s sample-position range.
    fn chunk_end(&self, k: usize) -> (r: usize)
        requires
            self.wf(),
            (k as int) < self.chunks_spec().len(),
        ensures
            r as int == self.chunks_spec()[k as int].1 as int,
            r as int <= self.samples_spec(),
            self.chunks_spec()[k as int].0 as int <= r as int,
    {
        let p = self.chunks[k];
        p.1 as usize
    }
}

/// The counts fold is monotone in the number of merged classes.
proof fn lemma_gm_count_mono(row: Seq<u32>, a: int, b: int)
    requires
        0 <= a <= b,
    ensures
        gm_count(row, a) <= gm_count(row, b),
        gm_count(row, a) >= 0,
    decreases b - a,
{
    if a == 0 {
        lemma_gm_count_nonneg(row, b);
    } else if a < b {
        lemma_gm_count_mono(row, a, b - 1);
    } else {
        lemma_gm_count_nonneg(row, a);
    }
}

/// The counts fold is non-negative.
proof fn lemma_gm_count_nonneg(row: Seq<u32>, c: int)
    ensures
        gm_count(row, c) >= 0,
        forall|d: int| 0 <= d < c ==> #[trigger] gm_count(row, d) <= gm_count(row, c),
    decreases c,
{
    if c > 0 {
        lemma_gm_count_nonneg(row, c - 1);
    }

}

/// Relies on rayon's parallel iterators (`par_iter_mut`, `zip`, `for_each`):
/// each worker accumulates its own pre-sliced batch through the verified
/// `CondMeanVar::process_block`; workers share no state and all are joined
/// before the call returns.  The contract restates, worker by worker, the
/// contract of that verified method.
#[verifier::external_body]
fn par_process_workers<I, S>(
    workers: &mut Vec<CondMeanVar<I>>,
    datas: &Vec<Vec<Vec<S>>>,
    labels: &Vec<Vec<Label>>,
) where
    I: DspFloat + Send + Sync,
    S: IntoFloat<I> + Copy + Send + Sync,

    requires
        old(workers)@.len() == datas@.len(),
        forall|k: int|
            0 <= k < old(workers)@.len() ==> (#[trigger] worker_at(old(workers)@, k)).wf(),
        forall|k: int| 0 <= k < datas@.len() ==> (#[trigger] datas@[k]@).len() == labels@.len(),
        forall|k: int, j: int|
            0 <= k < datas@.len() && 0 <= j < labels@.len() ==> #[trigger] datas@[k]@[j]@.len()
                == worker_at(old(workers)@, k).samples_spec(),
        forall|k: int, j: int|
            #![trigger crate::traits::row_view(labels@, j), worker_at(old(workers)@, k).targets_spec()]
            0 <= k < datas@.len() && 0 <= j < labels@.len() ==> crate::traits::row_view(
                labels@,
                j,
            ).len() == worker_at(old(workers)@, k).targets_spec(),
        forall|k: int, j: int, t: int|
            #![trigger cell2(label_rows(labels@), j, t), worker_at(old(workers)@, k).classes_spec()]
            0 <= k < datas@.len() && 0 <= j < labels@.len() && 0 <= t < worker_at(
                old(workers)@,
                k,
            ).targets_spec() ==> ((cell2(label_rows(labels@), j, t)) as int) < worker_at(
                old(workers)@,
                k,
            ).classes_spec(),
        forall|k: int, t: int, c: int|
            0 <= k < datas@.len() && 0 <= t < worker_at(old(workers)@, k).targets_spec() && 0 <= c
                < worker_at(old(workers)@, k).classes_spec() ==> (#[trigger] cell2(
                worker_at(old(workers)@, k).counts_view(),
                t,
                c,
            )) + labels@.len() <= u32::MAX,
    ensures
        final(workers)@.len() == old(workers)@.len(),
        forall|k: int|
            0 <= k < old(workers)@.len() ==> (#[trigger] worker_at(final(workers)@, k)).wf(),
        forall|k: int|
            0 <= k < old(workers)@.len() ==> (#[trigger] worker_at(
                final(workers)@,
                k,
            )).targets_spec() == worker_at(old(workers)@, k).targets_spec(),
        forall|k: int|
            0 <= k < old(workers)@.len() ==> (#[trigger] worker_at(
                final(workers)@,
                k,
            )).classes_spec() == worker_at(old(workers)@, k).classes_spec(),
        forall|k: int|
            0 <= k < old(workers)@.len() ==> (#[trigger] worker_at(
                final(workers)@,
                k,
            )).samples_spec() == worker_at(old(workers)@, k).samples_spec(),
        forall|k: int|
            0 <= k < old(workers)@.len() ==> #[trigger] worker_at(
                final(workers)@,
                k,
            ).counts_view() == counts_after_block(
                worker_at(old(workers)@, k).counts_view(),
                label_rows(labels@),
                labels@.len() as int,
            ),
        forall|k: int|
            0 <= k < old(workers)@.len() ==> #[trigger] worker_at(final(workers)@, k).mean_view()
                == mean_after_block(
                worker_at(old(workers)@, k).mean_view(),
                worker_at(old(workers)@, k).counts_view(),
                float_rows(datas@[k]@),
                label_rows(labels@),
                labels@.len() as int,
            ),
        forall|k: int|
            0 <= k < old(workers)@.len() ==> #[trigger] worker_at(final(workers)@, k).var_view()
                == var_after_block(
                worker_at(old(workers)@, k).var_view(),
                worker_at(old(workers)@, k).mean_view(),
                worker_at(old(workers)@, k).counts_view(),
                float_rows(datas@[k]@),
                label_rows(labels@),
                labels@.len() as int,
            ),
{
    workers.par_iter_mut().zip(datas.par_iter()).for_each(|(w, d)| w.process_block(d, labels));
}

/// Column-slicing a batch commutes with converting its samples to scalars.
proof fn lemma_slice_float_rows<I: DspFloat, S: IntoFloat<I>>(
    data: Seq<Vec<S>>,
    sliced: Seq<Vec<S>>,
    lo: int,
    hi: int,
    samples: int,
)
    requires
        sliced.len() == data.len(),
        0 <= lo <= hi <= samples,
        forall|j: int| 0 <= j < data.len() ==> #[trigger] crate::traits::row_view(data, j).len() == samples,
        forall|j: int| 0 <= j < data.len() ==> #[trigger] sliced[j]@ == data[j]@.subrange(lo, hi),
    ensures
        float_rows::<I, S>(sliced) == slice_rows(float_rows::<I, S>(data), lo, hi),
{
    assert forall|j: int|
        0 <= j < data.len() implies float_rows::<I, S>(sliced)[j] == slice_rows(
        float_rows::<I, S>(data),
        lo,
        hi,
    )[j] by {
        assert(crate::traits::row_view(data, j) == data[j]@);
        assert(float_rows::<I, S>(sliced)[j] == sliced[j]@.map(|s: int, x: S| x.into_float_spec()));
        assert(float_rows::<I, S>(data)[j] == data[j]@.map(|s: int, x: S| x.into_float_spec()));
        assert(float_rows::<I, S>(sliced)[j] =~= float_rows::<I, S>(data)[j].subrange(lo, hi)) by {
            assert forall|s2: int|
                0 <= s2 < hi - lo implies #[trigger] float_rows::<I, S>(sliced)[j][s2]
                == float_rows::<I, S>(data)[j].subrange(lo, hi)[s2] by {
                assert(sliced[j]@[s2] == data[j]@[lo + s2]);
                assert(float_rows::<I, S>(sliced)[j][s2] == sliced[j]@[s2].into_float_spec());
                assert(float_rows::<I, S>(data)[j][lo + s2] == data[j]@[lo + s2].into_float_spec());
            }
        }
    }
    assert(float_rows::<I, S>(sliced) =~= slice_rows(float_rows::<I, S>(data), lo, hi));
}

/// Shape predicate for a two-dimensional table.
pub open spec fn shaped2<A>(g: Seq<Seq<A>>, targets: int, classes: int) -> bool {
    &&& g.len() == targets
    &&& forall|t: int| 0 <= t < targets ==> (#[trigger] g[t]).len() == classes
}

/// Shape predicate for a three-dimensional table.
pub open spec fn shaped3<I>(g: Seq<Seq<Seq<I>>>, targets: int, classes: int, samples: int) -> bool {
    &&& g.len() == targets
    &&& forall|t: int| 0 <= t < targets ==> (#[trigger] g[t]).len() == classes
    &&& forall|t: int, c: int|
        0 <= t < targets && 0 <= c < classes ==> (#[trigger] g[t][c]).len() == samples
}

/// The shapes a well-formed accumulator's views are guaranteed to have.
///
/// Exported so that callers outside this module can index the view equations
/// of `process` and `process_block` and discharge the shape premises of
/// `lemma_split_merge_equivalence`.
pub proof fn lemma_wf_shapes<I: DspFloat>(a: CondMeanVar<I>)
    requires
        a.wf(),
    ensures
        shaped3(a.mean_view(), a.targets_spec(), a.classes_spec(), a.samples_spec()),
        shaped3(a.var_view(), a.targets_spec(), a.classes_spec(), a.samples_spec()),
        shaped2(a.counts_view(), a.targets_spec(), a.classes_spec()),
{
    let targets = a.targets_spec();
    let classes = a.classes_spec();
    assert forall|t: int|
        0 <= t < targets implies (#[trigger] a.mean_view()[t]).len() == classes && (
    #[trigger] a.var_view()[t]).len() == classes by {
        assert(grid3(a.mean_per_class)[t] == grid2(a.mean_per_class@[t]));
        assert(grid3(a.var_per_class)[t] == grid2(a.var_per_class@[t]));
    }
    assert forall|t: int|
        0 <= t < targets implies (#[trigger] a.counts_view()[t]).len() == classes by {
        assert(grid2(a.samples_per_class)[t] == a.samples_per_class@[t]@);
    }
    assert forall|t: int, c: int|
        0 <= t < targets && 0 <= c < classes implies (#[trigger] a.mean_view()[t][c]).len()
        == a.samples_spec() && (#[trigger] a.var_view()[t][c]).len() == a.samples_spec() by {
        assert(grid3(a.mean_per_class)[t] == grid2(a.mean_per_class@[t]));
        assert(grid2(a.mean_per_class@[t])[c] == a.mean_per_class@[t]@[c]@);
        assert(grid3(a.var_per_class)[t] == grid2(a.var_per_class@[t]));
        assert(grid2(a.var_per_class@[t])[c] == a.var_per_class@[t]@[c]@);
    }
}

/// The chunk tiling and worker shapes a well-formed parallel accumulator is
/// guaranteed to have.
pub proof fn lemma_wf_chunks<I: DspFloat>(p: CondMeanVarP<I>)
    requires
        p.wf(),
    ensures
        p.workers_spec().len() == p.chunks_spec().len(),
        p.workers_spec().len() >= 1,
        (p.chunks_spec()[0].0 as int) == 0,
        (p.chunks_spec()[p.chunks_spec().len() - 1].1 as int) == p.samples_spec(),
        forall|k: int|
            0 <= k < p.chunks_spec().len() - 1 ==> ((#[trigger] p.chunks_spec()[k].1) as int)
                == p.chunks_spec()[k + 1].0 as int,
        forall|k: int|
            0 <= k < p.chunks_spec().len() ==> ((#[trigger] p.chunks_spec()[k].0) as int)
                < p.chunks_spec()[k].1 as int <= p.samples_spec(),
        forall|k: int|
            0 <= k < p.workers_spec().len() ==> (#[trigger] worker_at(p.workers_spec(), k)).wf(),
        forall|k: int|
            0 <= k < p.workers_spec().len() ==> (#[trigger] worker_at(
                p.workers_spec(),
                k,
            )).targets_spec() == p.targets_spec(),
        forall|k: int|
            0 <= k < p.workers_spec().len() ==> (#[trigger] worker_at(
                p.workers_spec(),
                k,
            )).classes_spec() == p.classes_spec(),
        forall|k: int|
            0 <= k < p.workers_spec().len() ==> (#[trigger] worker_at(
                p.workers_spec(),
                k,
            )).samples_spec() == p.chunks_spec()[k].1 as int - p.chunks_spec()[k].0 as int,
        forall|k: int|
            0 <= k < p.workers_spec().len() ==> (#[trigger] worker_at(
                p.workers_spec(),
                k,
            )).counts_view() == worker_at(p.workers_spec(), 0).counts_view(),
{
}

/// Accumulating one row preserves a table's shape.
proof fn lemma_after_shaped<I: DspFloat>(
    mean: Seq<Seq<Seq<I>>>,
    var: Seq<Seq<Seq<I>>>,
    counts: Seq<Seq<u32>>,
    row: Seq<I>,
    labels: Seq<Label>,
    targets: int,
    classes: int,
    samples: int,
)
    requires
        shaped3(mean, targets, classes, samples),
        shaped3(var, targets, classes, samples),
    ensures
        shaped3(mean_after(mean, counts, row, labels), targets, classes, samples),
        shaped3(var_after(var, mean, counts, row, labels), targets, classes, samples),
{
}

/// Accumulating a block preserves a table's shape.
proof fn lemma_after_block_shaped<I: DspFloat>(
    mean: Seq<Seq<Seq<I>>>,
    var: Seq<Seq<Seq<I>>>,
    counts: Seq<Seq<u32>>,
    rows: Seq<Seq<I>>,
    labels: Seq<Seq<Label>>,
    j: int,
    targets: int,
    classes: int,
    samples: int,
)
    requires
        shaped3(mean, targets, classes, samples),
        shaped3(var, targets, classes, samples),
    ensures
        shaped3(mean_after_block(mean, counts, rows, labels, j), targets, classes, samples),
        shaped3(var_after_block(var, mean, counts, rows, labels, j), targets, classes, samples),
    decreases j,
{
    if j > 0 {
        lemma_after_block_shaped(mean, var, counts, rows, labels, j - 1, targets, classes, samples);
        lemma_after_shaped(
            mean_after_block(mean, counts, rows, labels, j - 1),
            var_after_block(var, mean, counts, rows, labels, j - 1),
            counts_after_block(counts, labels, j - 1),
            rows[j - 1],
            labels[j - 1],
            targets,
            classes,
            samples,
        );
    }
}

/// Accumulating one row commutes with restricting the sample axis.
proof fn lemma_slice_after<I: DspFloat>(
    mean: Seq<Seq<Seq<I>>>,
    var: Seq<Seq<Seq<I>>>,
    counts: Seq<Seq<u32>>,
    row: Seq<I>,
    labels: Seq<Label>,
    lo: int,
    hi: int,
    targets: int,
    classes: int,
    samples: int,
)
    requires
        0 <= lo <= hi <= samples,
        shaped3(mean, targets, classes, samples),
        shaped3(var, targets, classes, samples),
        row.len() == samples,
    ensures
        slice3(mean_after(mean, counts, row, labels), lo, hi) == mean_after(
            slice3(mean, lo, hi),
            counts,
            row.subrange(lo, hi),
            labels,
        ),
        slice3(var_after(var, mean, counts, row, labels), lo, hi) == var_after(
            slice3(var, lo, hi),
            slice3(mean, lo, hi),
            counts,
            row.subrange(lo, hi),
            labels,
        ),
{
    let lm = slice3(mean_after(mean, counts, row, labels), lo, hi);
    let rm = mean_after(slice3(mean, lo, hi), counts, row.subrange(lo, hi), labels);
    let lv = slice3(var_after(var, mean, counts, row, labels), lo, hi);
    let rv = var_after(
        slice3(var, lo, hi),
        slice3(mean, lo, hi),
        counts,
        row.subrange(lo, hi),
        labels,
    );
    assert forall|t: int, c: int|
        0 <= t < targets && 0 <= c < classes implies lm[t][c] =~= rm[t][c] && lv[t][c]
        =~= rv[t][c] by {
        if c == labels[t] as int {
            assert forall|s2: int| 0 <= s2 < hi - lo implies lm[t][c][s2] == rm[t][c][s2] by {
                assert(lm[t][c][s2] == mean_after(mean, counts, row, labels)[t][c][lo + s2]);
                assert(slice3(mean, lo, hi)[t][c][s2] == mean[t][c][lo + s2]);
                assert(row.subrange(lo, hi)[s2] == row[lo + s2]);
            }
            assert forall|s2: int| 0 <= s2 < hi - lo implies lv[t][c][s2] == rv[t][c][s2] by {
                assert(lv[t][c][s2] == var_after(var, mean, counts, row, labels)[t][c][lo + s2]);
                assert(slice3(var, lo, hi)[t][c][s2] == var[t][c][lo + s2]);
                assert(slice3(mean, lo, hi)[t][c][s2] == mean[t][c][lo + s2]);
                assert(row.subrange(lo, hi)[s2] == row[lo + s2]);
            }
        } else {
            assert(lm[t][c] == mean[t][c].subrange(lo, hi));
            assert(rm[t][c] == slice3(mean, lo, hi)[t][c]);
            assert(lv[t][c] == var[t][c].subrange(lo, hi));
            assert(rv[t][c] == slice3(var, lo, hi)[t][c]);
        }
    }
    assert forall|t: int| 0 <= t < targets implies lm[t] =~= rm[t] && lv[t] =~= rv[t] by {
    }
    assert(lm =~= rm);
    assert(lv =~= rv);
}

/// Split/merge equivalence: accumulating a batch into a sample-axis slice of
/// the tables, with the rows restricted to the same slice, gives exactly the
/// slice of accumulating the whole batch — for every accumulator state, every
/// batch and every slice.  Together with the contracts of `split` (each
/// worker starts from one slice), the parallel `process_block` (each worker
/// accumulates its slice of the rows) and `merge` (the slices are written
/// back side by side, counts taken from any worker), parallel split/merge
/// accumulation agrees exactly with sequential accumulation.
pub proof fn lemma_split_merge_equivalence<I: DspFloat>(
    mean: Seq<Seq<Seq<I>>>,
    var: Seq<Seq<Seq<I>>>,
    counts: Seq<Seq<u32>>,
    rows: Seq<Seq<I>>,
    labels: Seq<Seq<Label>>,
    j: int,
    lo: int,
    hi: int,
    targets: int,
    classes: int,
    samples: int,
)
    requires
        0 <= lo <= hi <= samples,
        0 <= j <= rows.len(),
        shaped3(mean, targets, classes, samples),
        shaped3(var, targets, classes, samples),
        forall|j2: int| 0 <= j2 < rows.len() ==> (#[trigger] rows[j2]).len() == samples,
    ensures
        slice3(mean_after_block(mean, counts, rows, labels, j), lo, hi) == mean_after_block(
            slice3(mean, lo, hi),
            counts,
            slice_rows(rows, lo, hi),
            labels,
            j,
        ),
        slice3(var_after_block(var, mean, counts, rows, labels, j), lo, hi) == var_after_block(
            slice3(var, lo, hi),
            slice3(mean, lo, hi),
            counts,
            slice_rows(rows, lo, hi),
            labels,
            j,
        ),
    decreases j,
{
    if j > 0 {
        lemma_split_merge_equivalence(
            mean,
            var,
            counts,
            rows,
            labels,
            j - 1,
            lo,
            hi,
            targets,
            classes,
            samples,
        );
        lemma_after_block_shaped(
            mean,
            var,
            counts,
            rows,
            labels,
            j - 1,
            targets,
            classes,
            samples,
        );
        lemma_slice_after(
            mean_after_block(mean, counts, rows, labels, j - 1),
            var_after_block(var, mean, counts, rows, labels, j - 1),
            counts_after_block(counts, labels, j - 1),
            rows[j - 1],
            labels[j - 1],
            lo,
            hi,
            targets,
            classes,
            samples,
        );
        assert(slice_rows(rows, lo, hi)[j - 1] == rows[j - 1].subrange(lo, hi));
    }
}

/// Chunks earlier in the list end no later than later chunks begin.
proof fn lemma_chunks_sorted<I: DspFloat>(
    cks: Seq<(u32, u32)>,
    ws: Seq<CondMeanVar<I>>,
    samples: int,
    a: int,
    b: int,
)
    requires
        cks.len() == ws.len(),
        0 <= a < b < cks.len(),
        forall|k: int|
            0 <= k < cks.len() - 1 ==> ((#[trigger] cks[k].1) as int) == cks[k + 1].0 as int,
        forall|k: int|
            0 <= k < cks.len() ==> ((#[trigger] cks[k].0) as int) < cks[k].1 as int <= samples,
    ensures
        cks[a].1 as int <= cks[b].0 as int,
    decreases b - a,
{
    if a + 1 == b {
        assert(cks[a].1 as int == cks[a + 1].0 as int);
    } else {
        lemma_chunks_sorted(cks, ws, samples, a, b - 1);
    }
}


/// Copy of one row restricted to `lo .. hi`.
fn copy_subrange<A: Copy>(row: &Vec<A>, lo: usize, hi: usize) -> (r: Vec<A>)
    requires
        lo <= hi,
        hi <= row@.len(),
    ensures
        r@ == row@.subrange(lo as int, hi as int),
{
    let mut out: Vec<A> = Vec::new();
    let mut i: usize = lo;
    while i < hi
        invariant
            lo <= i <= hi,
            hi <= row@.len(),
            out@.len() == i - lo,
            forall|k: int| 0 <= k < i - lo ==> out@[k] == row@[lo + k],
        decreases hi - i,
    {
        out.push(row[i]);
        i += 1;
    }
    proof {
        assert(out@ =~= row@.subrange(lo as int, hi as int));
    }
    out
}

/// Copy of a three-dimensional table restricted to sample positions `lo .. hi`.
fn slice_grid3<I: DspFloat>(v: &Vec<Vec<Vec<I>>>, lo: usize, hi: usize) -> (r: Vec<Vec<Vec<I>>>)
    requires
        lo <= hi,
        forall|t: int, c: int|
            0 <= t < v@.len() && 0 <= c < v@[t]@.len() ==> (#[trigger] v@[t]@[c]@).len()
                >= hi as int,
    ensures
        grid3(r) == slice3(grid3(*v), lo as int, hi as int),
        r@.len() == v@.len(),
{
    let mut out: Vec<Vec<Vec<I>>> = Vec::new();
    let mut t: usize = 0;
    while t < v.len()
        invariant
            t <= v@.len(),
            out@.len() == t,
            lo <= hi,
            forall|t2: int, c: int|
                0 <= t2 < v@.len() && 0 <= c < v@[t2]@.len() ==> (#[trigger] v@[t2]@[c]@).len()
                    >= hi as int,
            forall|t2: int|
                0 <= t2 < t ==> #[trigger] grid3(out)[t2] == slice3(
                    grid3(*v),
                    lo as int,
                    hi as int,
                )[t2],
        decreases v@.len() - t,
    {
        let ghost out_pre = out;
        let plane_ref: &Vec<Vec<I>> = &v[t];
        let mut plane: Vec<Vec<I>> = Vec::new();
        let mut c: usize = 0;
        while c < plane_ref.len()
            invariant
                c <= plane_ref@.len(),
                plane@.len() == c,
                lo <= hi,
                t < v@.len(),
                plane_ref@ == v@[t as int]@,
                forall|t2: int, c2: int|
                    0 <= t2 < v@.len() && 0 <= c2 < v@[t2]@.len() ==> (
                    #[trigger] v@[t2]@[c2]@).len() >= hi as int,
                forall|c2: int|
                    0 <= c2 < c ==> #[trigger] plane@[c2]@ == v@[t as int]@[c2]@.subrange(
                        lo as int,
                        hi as int,
                    ),
            decreases plane_ref@.len() - c,
        {
            plane.push(copy_subrange(&plane_ref[c], lo, hi));
            c += 1;
        }
        out.push(plane);
        t += 1;
        proof {
            assert forall|t2: int|
                0 <= t2 < t implies #[trigger] grid3(out)[t2] == slice3(
                grid3(*v),
                lo as int,
                hi as int,
            )[t2] by {
                if t2 == t - 1 {
                    assert(grid3(out)[t2] == grid2(out@[t2]));
                    assert(grid3(*v)[t2] == grid2(v@[t2]));
                    assert(grid2(out@[t2]) =~= slice3(grid3(*v), lo as int, hi as int)[t2]) by {
                        assert forall|c2: int|
                            0 <= c2 < v@[t2]@.len() implies grid2(out@[t2])[c2] == slice3(
                            grid3(*v),
                            lo as int,
                            hi as int,
                        )[t2][c2] by {
                            assert(grid2(out@[t2])[c2] == out@[t2]@[c2]@);
                            assert(grid2(v@[t2])[c2] == v@[t2]@[c2]@);
                        }
                    }
                } else {
                    assert(out@[t2] == out_pre@[t2]);
                    assert(grid3(out)[t2] == grid2(out@[t2]));
                    assert(grid3(out_pre)[t2] == grid2(out_pre@[t2]));
                }
            }
        }
    }
    proof {
        assert(grid3(out) =~= slice3(grid3(*v), lo as int, hi as int));
    }
    out
}

/// Deep copy of a three-dimensional table.
fn copy_grid3<I: DspFloat>(v: &Vec<Vec<Vec<I>>>) -> (r: Vec<Vec<Vec<I>>>)
    ensures
        grid3(r) == grid3(*v),
        r@.len() == v@.len(),
{
    let mut out: Vec<Vec<Vec<I>>> = Vec::new();
    let mut t: usize = 0;
    while t < v.len()
        invariant
            t <= v@.len(),
            out@.len() == t,
            forall|t2: int| 0 <= t2 < t ==> #[trigger] grid3(out)[t2] == grid3(*v)[t2],
        decreases v@.len() - t,
    {
        let ghost out_pre = out;
        let plane_ref: &Vec<Vec<I>> = &v[t];
        let mut plane: Vec<Vec<I>> = Vec::new();
        let mut c: usize = 0;
        while c < plane_ref.len()
            invariant
                c <= plane_ref@.len(),
                plane@.len() == c,
                forall|c2: int| 0 <= c2 < c ==> #[trigger] plane@[c2]@ == plane_ref@[c2]@,
            decreases plane_ref@.len() - c,
        {
            plane.push(crate::traits::copy_row(&plane_ref[c]));
            c += 1;
        }
        out.push(plane);
        t += 1;
        proof {
            assert forall|t2: int| 0 <= t2 < t implies #[trigger] grid3(out)[t2] == grid3(*v)[t2] by {
                if t2 == t - 1 {
                    assert(grid3(out)[t2] == grid2(out@[t2]));
                    assert(grid3(*v)[t2] == grid2(v@[t2]));
                    assert(grid2(out@[t2]) =~= grid2(v@[t2]));
                } else {
                    assert(out@[t2] == out_pre@[t2]);
                    assert(grid3(out_pre)[t2] == grid3(*v)[t2]);
                    assert(grid3(out)[t2] == grid2(out@[t2]));
                    assert(grid3(out_pre)[t2] == grid2(out_pre@[t2]));
                }
            }
        }
    }
    proof {
        assert(grid3(out) =~= grid3(*v));
    }
    out
}

/// Deep copy of a two-dimensional count table.
fn copy_grid2_u32(v: &Vec<Vec<u32>>) -> (r: Vec<Vec<u32>>)
    ensures
        grid2(r) == grid2(*v),
        r@.len() == v@.len(),
{
    let mut out: Vec<Vec<u32>> = Vec::new();
    let mut t: usize = 0;
    while t < v.len()
        invariant
            t <= v@.len(),
            out@.len() == t,
            forall|t2: int| 0 <= t2 < t ==> #[trigger] out@[t2]@ == v@[t2]@,
        decreases v@.len() - t,
    {
        out.push(crate::traits::copy_row(&v[t]));
        t += 1;
    }
    proof {
        assert(grid2(out) =~= grid2(*v));
    }
    out
}

/// Shape facts carried from grid views back to the raw tables.
proof fn lemma_grid_shapes<I: DspFloat>(
    mean: Vec<Vec<Vec<I>>>,
    var: Vec<Vec<Vec<I>>>,
    counts: Vec<Vec<u32>>,
)
    ensures
        forall|t: int|
            0 <= t < mean@.len() ==> (#[trigger] mean@[t]@).len() == grid3(mean)[t].len(),
        forall|t: int| 0 <= t < var@.len() ==> (#[trigger] var@[t]@).len() == grid3(var)[t].len(),
        forall|t: int|
            0 <= t < counts@.len() ==> (#[trigger] counts@[t]@).len() == grid2(counts)[t].len(),
        forall|t: int, c: int|
            0 <= t < mean@.len() && 0 <= c < mean@[t]@.len() ==> (#[trigger] mean@[t]@[c]@).len()
                == grid3(mean)[t][c].len(),
        forall|t: int, c: int|
            0 <= t < var@.len() && 0 <= c < var@[t]@.len() ==> (#[trigger] var@[t]@[c]@).len()
                == grid3(var)[t][c].len(),
{
    assert forall|t: int|
        0 <= t < mean@.len() implies (#[trigger] mean@[t]@).len() == grid3(mean)[t].len() by {
        assert(grid3(mean)[t] == grid2(mean@[t]));
    }
    assert forall|t: int|
        0 <= t < var@.len() implies (#[trigger] var@[t]@).len() == grid3(var)[t].len() by {
        assert(grid3(var)[t] == grid2(var@[t]));
    }
    assert forall|t: int|
        0 <= t < counts@.len() implies (#[trigger] counts@[t]@).len() == grid2(counts)[t].len() by {
        assert(grid2(counts)[t] == counts@[t]@);
    }
    assert forall|t: int, c: int|
        0 <= t < mean@.len() && 0 <= c < mean@[t]@.len() implies (#[trigger] mean@[t]@[c]@).len()
        == grid3(mean)[t][c].len() by {
        assert(grid3(mean)[t] == grid2(mean@[t]));
        assert(grid2(mean@[t])[c] == mean@[t]@[c]@);
    }
    assert forall|t: int, c: int|
        0 <= t < var@.len() && 0 <= c < var@[t]@.len() implies (#[trigger] var@[t]@[c]@).len()
        == grid3(var)[t][c].len() by {
        assert(grid3(var)[t] == grid2(var@[t]));
        assert(grid2(var@[t])[c] == var@[t]@[c]@);
    }
}

/// Accumulating a block preserves the count table's shape.
proof fn lemma_counts_block_shape(counts: Seq<Seq<u32>>, labelrows: Seq<Seq<Label>>, j: int)
    ensures
        counts_after_block(counts, labelrows, j).len() == counts.len(),
        forall|t: int|
            0 <= t < counts.len() ==> (#[trigger] counts_after_block(counts, labelrows, j)[t]).len()
                == counts[t].len(),
    decreases j,
{
    if j > 0 {
        lemma_counts_block_shape(counts, labelrows, j - 1);
    }
}

/// Each accumulated row raises a count by at most one.
proof fn lemma_counts_block_bound(
    counts: Seq<Seq<u32>>,
    labelrows: Seq<Seq<Label>>,
    j: int,
    t: int,
    c: int,
)
    requires
        0 <= j,
        0 <= t < counts.len(),
        0 <= c < counts[t].len(),
        counts[t][c] + j <= u32::MAX,
    ensures
        counts[t][c] <= cell2(counts_after_block(counts, labelrows, j), t, c) <= counts[t][c] + j,
    decreases j,
{
    lemma_counts_block_shape(counts, labelrows, j);
    if j > 0 {
        lemma_counts_block_bound(counts, labelrows, j - 1, t, c);
        lemma_counts_block_shape(counts, labelrows, j - 1);
    }
}

} // verus!
