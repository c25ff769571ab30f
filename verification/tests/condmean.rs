use rand::distributions::Uniform;
use rand::rngs::StdRng;
use rand::{Rng, SeedableRng};
use secbench_dsp::{CondMeanVar, CondMeanVarP, DspFloat, IntoFloat};

#[derive(Clone, Copy, PartialEq, Debug)]
struct F32(f32);

impl DspFloat for F32 {
    fn zero_spec() -> F32 {
        F32(0.0)
    }
    fn one_spec() -> F32 {
        F32(1.0)
    }
    fn add_spec(self, o: F32) -> F32 {
        F32(self.0 + o.0)
    }
    fn sub_spec(self, o: F32) -> F32 {
        F32(self.0 - o.0)
    }
    fn mul_spec(self, o: F32) -> F32 {
        F32(self.0 * o.0)
    }
    fn div_spec(self, o: F32) -> F32 {
        F32(self.0 / o.0)
    }
    fn abs_spec(self) -> F32 {
        F32(self.0.abs())
    }
    fn sqrt_spec(self) -> F32 {
        F32(self.0.sqrt())
    }
    fn pow_three_halves_spec(self) -> F32 {
        F32(self.0.powf(1.5))
    }
    fn ge_spec(self, o: F32) -> bool {
        self.0 >= o.0
    }
    fn eq_spec(self, o: F32) -> bool {
        self.0 == o.0
    }
    fn from_count_spec(n: u64) -> F32 {
        F32(n as f32)
    }
    fn skew_coef_spec(w: u64) -> F32 {
        F32((((w * w) as f64) / (((w - 1) * (w - 2)) as f64)) as f32)
    }
    fn kurt_coef_spec(w: u64) -> F32 {
        F32(((((w + 1) * w) as f64) / (((w - 1) * (w - 2) * (w - 3)) as f64)) as f32)
    }
    fn kurt_excess_spec(w: u64) -> F32 {
        F32((3.0 * ((((w - 1) * (w - 1)) as f64) / (((w - 2) * (w - 3)) as f64))) as f32)
    }
    fn zero() -> F32 {
        F32(0.0)
    }
    fn one() -> F32 {
        F32(1.0)
    }
    fn add(self, o: F32) -> F32 {
        F32(self.0 + o.0)
    }
    fn sub(self, o: F32) -> F32 {
        F32(self.0 - o.0)
    }
    fn mul(self, o: F32) -> F32 {
        F32(self.0 * o.0)
    }
    fn div(self, o: F32) -> F32 {
        F32(self.0 / o.0)
    }
    fn abs(self) -> F32 {
        F32(self.0.abs())
    }
    fn sqrt(self) -> F32 {
        F32(self.0.sqrt())
    }
    fn pow_three_halves(self) -> F32 {
        F32(self.0.powf(1.5))
    }
    fn ge(self, o: F32) -> bool {
        self.0 >= o.0
    }
    fn eq_val(self, o: F32) -> bool {
        self.0 == o.0
    }
    fn from_count(n: u64) -> F32 {
        F32(n as f32)
    }
    fn skew_coef(w: u64) -> F32 {
        F32((((w * w) as f64) / (((w - 1) * (w - 2)) as f64)) as f32)
    }
    fn kurt_coef(w: u64) -> F32 {
        F32(((((w + 1) * w) as f64) / (((w - 1) * (w - 2) * (w - 3)) as f64)) as f32)
    }
    fn kurt_excess(w: u64) -> F32 {
        F32((3.0 * ((((w - 1) * (w - 1)) as f64) / (((w - 2) * (w - 3)) as f64))) as f32)
    }
}

impl IntoFloat<F32> for F32 {
    fn into_float_spec(self) -> F32 {
        self
    }
    fn into_float(self) -> F32 {
        self
    }
}

#[test]
fn test_cond_mean_var() {
    let t0: Vec<Vec<F32>> =
        (0..10usize).map(|i| (0..16usize).map(|j| F32((i % (j + 2)) as f32)).collect()).collect();
    let t1: Vec<Vec<F32>> = (0..8usize)
        .map(|i| (0..16usize).map(|j| F32((10 + i % (j + 2)) as f32)).collect())
        .collect();

    let zeros: Vec<Vec<u16>> = vec![vec![0u16; 1]; 10];
    let ones: Vec<Vec<u16>> = vec![vec![1u16; 1]; 8];

    let mut acc = CondMeanVar::<F32>::new(1, 16, 2);
    acc.process_block(&t0, &zeros);
    acc.process_block(&t1, &ones);
    let snr = acc.freeze_snr();
    assert_eq!(snr.len(), 1);
    assert_eq!(snr[0].len(), 16);
    assert!(snr[0][0].0 > snr[0][15].0);

    let mut par_acc = CondMeanVarP::<F32>::new(4, 1, 16, 2);
    par_acc.process_block(&t0, &zeros);
    par_acc.process_block(&t1, &ones);
    let acc_2 = par_acc.merge();

    let (mean, var) = acc.freeze();
    let (mean_2, var_2) = acc_2.freeze();
    assert_eq!(mean, mean_2, "mean accumulators are the same");
    assert_eq!(var, var_2, "mean accumulators are the same");
}

#[test]
fn test_cond_mean_global() {
    let mut rng = StdRng::seed_from_u64(0xAAABBB);
    const N: usize = 20000;
    let t0: Vec<Vec<F32>> = (0..N)
        .map(|_i| {
            (0..4usize)
                .map(|j| F32(rng.sample(Uniform::new_inclusive(0u32, 23)) as f32 + j as f32))
                .collect()
        })
        .collect();
    let labels: Vec<Vec<u16>> =
        (0..N).map(|_i| (0..2usize).map(|_j| rng.sample(Uniform::new(0u16, 15))).collect()).collect();

    let mut acc = CondMeanVar::<F32>::new(2, 4, 16);
    acc.process_block(&t0, &labels);
    let (mean, var, samples) = acc.freeze_global_mean_var();
    assert_eq!(samples, N as u32);
    assert_eq!(var.len(), 4);

    for s in 0..4usize {
        let col: Vec<f64> = t0.iter().map(|r| r[s].0 as f64).collect();
        let mean_expected: f64 = col.iter().sum::<f64>() / N as f64;
        let var_expected: f64 =
            col.iter().map(|x| (x - mean_expected) * (x - mean_expected)).sum::<f64>()
                / (N as f64 - 1.0);
        assert!((mean[s].0 as f64 - mean_expected).abs() <= 1e-3);
        assert!((var[s].0 as f64 - var_expected).abs() <= 1e-3);
    }
}

#[test]
fn global_merge_two_classes_matches_population() {
    // Two classes with known statistics: the merged global mean/variance must
    // match a direct computation over all rows.
    let rows_a: Vec<Vec<F32>> = (0..50usize).map(|i| vec![F32((i % 7) as f32)]).collect();
    let rows_b: Vec<Vec<F32>> = (0..70usize).map(|i| vec![F32((i % 11) as f32 + 5.0)]).collect();
    let la: Vec<Vec<u16>> = vec![vec![0u16]; 50];
    let lb: Vec<Vec<u16>> = vec![vec![1u16]; 70];

    let mut acc = CondMeanVar::<F32>::new(1, 1, 2);
    acc.process_block(&rows_a, &la);
    acc.process_block(&rows_b, &lb);
    let (mean, var, samples) = acc.freeze_global_mean_var();
    assert_eq!(samples, 120);

    let all: Vec<f64> =
        rows_a.iter().chain(rows_b.iter()).map(|r| r[0].0 as f64).collect();
    let m: f64 = all.iter().sum::<f64>() / 120.0;
    let v: f64 = all.iter().map(|x| (x - m) * (x - m)).sum::<f64>() / 119.0;
    assert!((mean[0].0 as f64 - m).abs() <= 1e-3);
    assert!((var[0].0 as f64 - v).abs() <= 1e-3);
}

#[test]
fn split_merge_identity_on_fresh_accumulator() {
    // Splitting a freshly loaded accumulator and merging it back returns the
    // same tables for every chunk size.
    let rows: Vec<Vec<F32>> =
        (0..6usize).map(|i| (0..9usize).map(|j| F32((i * j) as f32)).collect()).collect();
    let labels: Vec<Vec<u16>> = (0..6usize).map(|i| vec![(i % 3) as u16]).collect();
    let mut acc = CondMeanVar::<F32>::new(1, 9, 3);
    acc.process_block(&rows, &labels);
    let (mean, var) = acc.freeze();
    for chunk in 1..=10usize {
        let par = CondMeanVarP::split(&acc, chunk);
        let back = par.merge();
        let (mean2, var2) = back.freeze();
        assert_eq!(mean, mean2);
        assert_eq!(var, var2);
    }
}

#[test]
fn state_round_trip_and_shapes() {
    let rows: Vec<Vec<F32>> =
        (0..5usize).map(|i| (0..4usize).map(|j| F32((i + 2 * j) as f32)).collect()).collect();
    let labels: Vec<Vec<u16>> = (0..5usize).map(|i| vec![(i % 2) as u16]).collect();
    let mut acc = CondMeanVar::<F32>::new(1, 4, 2);
    assert_eq!(acc.num_classes(), 2);
    acc.process_block(&rows, &labels);

    // Dump, load into a fresh accumulator, and compare the frozen results.
    let (mean, var, counts) = acc.dump_state();
    assert_eq!(counts, vec![vec![3u32, 2u32]]);
    let mut other = CondMeanVar::<F32>::new(1, 4, 2);
    other.load_state(&mean, &var, &counts);
    assert_eq!(other.samples_per_class(), vec![vec![3u32, 2u32]]);
    assert_eq!(acc.freeze(), other.freeze());

    // freeze_into fills caller-provided tables of the right shape.
    let (mut mean_out, mut var_out) = acc.create_output_arrays();
    acc.freeze_into(&mut mean_out, &mut var_out);
    let (mean_direct, var_direct) = acc.freeze();
    assert_eq!(mean_out, mean_direct);
    assert_eq!(var_out, var_direct);
}

#[test]
fn freeze_variance_normalizes_by_count_minus_one() {
    // One class sees [1, 3]: mean 2, sample variance 2.  A class with a
    // single observation freezes to variance zero.
    let rows: Vec<Vec<F32>> = vec![vec![F32(1.0)], vec![F32(3.0)], vec![F32(7.0)]];
    let labels: Vec<Vec<u16>> = vec![vec![0u16], vec![0u16], vec![1u16]];
    let mut acc = CondMeanVar::<F32>::new(1, 1, 2);
    acc.process_block(&rows, &labels);
    let (mean, var) = acc.freeze();
    assert_eq!(mean[0][0][0].0, 2.0);
    assert_eq!(var[0][0][0].0, 2.0);
    assert_eq!(mean[0][1][0].0, 7.0);
    assert_eq!(var[0][1][0].0, 0.0);
}
