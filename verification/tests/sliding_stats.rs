use secbench_dsp::{DspFloat, IntoFloat, Pcg32, Pcg32Seed, SlidingExecutor, SlidingType, Transform2D};

#[derive(Clone, Copy, PartialEq, Debug)]
struct F64(f64);

impl DspFloat for F64 {
    fn zero_spec() -> F64 {
        F64(0.0)
    }
    fn one_spec() -> F64 {
        F64(1.0)
    }
    fn add_spec(self, o: F64) -> F64 {
        F64(self.0 + o.0)
    }
    fn sub_spec(self, o: F64) -> F64 {
        F64(self.0 - o.0)
    }
    fn mul_spec(self, o: F64) -> F64 {
        F64(self.0 * o.0)
    }
    fn div_spec(self, o: F64) -> F64 {
        F64(self.0 / o.0)
    }
    fn abs_spec(self) -> F64 {
        F64(self.0.abs())
    }
    fn sqrt_spec(self) -> F64 {
        F64(self.0.sqrt())
    }
    fn pow_three_halves_spec(self) -> F64 {
        F64(self.0.powf(1.5))
    }
    fn ge_spec(self, o: F64) -> bool {
        self.0 >= o.0
    }
    fn eq_spec(self, o: F64) -> bool {
        self.0 == o.0
    }
    fn from_count_spec(n: u64) -> F64 {
        F64(n as f64)
    }
    fn skew_coef_spec(w: u64) -> F64 {
        F64(((w * w) as f64) / (((w - 1) * (w - 2)) as f64))
    }
    fn kurt_coef_spec(w: u64) -> F64 {
        F64((((w + 1) * w) as f64) / (((w - 1) * (w - 2) * (w - 3)) as f64))
    }
    fn kurt_excess_spec(w: u64) -> F64 {
        F64(3.0 * ((((w - 1) * (w - 1)) as f64) / (((w - 2) * (w - 3)) as f64)))
    }
    fn zero() -> F64 {
        F64(0.0)
    }
    fn one() -> F64 {
        F64(1.0)
    }
    fn add(self, o: F64) -> F64 {
        F64(self.0 + o.0)
    }
    fn sub(self, o: F64) -> F64 {
        F64(self.0 - o.0)
    }
    fn mul(self, o: F64) -> F64 {
        F64(self.0 * o.0)
    }
    fn div(self, o: F64) -> F64 {
        F64(self.0 / o.0)
    }
    fn abs(self) -> F64 {
        F64(self.0.abs())
    }
    fn sqrt(self) -> F64 {
        F64(self.0.sqrt())
    }
    fn pow_three_halves(self) -> F64 {
        F64(self.0.powf(1.5))
    }
    fn ge(self, o: F64) -> bool {
        self.0 >= o.0
    }
    fn eq_val(self, o: F64) -> bool {
        self.0 == o.0
    }
    fn from_count(n: u64) -> F64 {
        F64(n as f64)
    }
    fn skew_coef(w: u64) -> F64 {
        F64(((w * w) as f64) / (((w - 1) * (w - 2)) as f64))
    }
    fn kurt_coef(w: u64) -> F64 {
        F64((((w + 1) * w) as f64) / (((w - 1) * (w - 2) * (w - 3)) as f64))
    }
    fn kurt_excess(w: u64) -> F64 {
        F64(3.0 * ((((w - 1) * (w - 1)) as f64) / (((w - 2) * (w - 3)) as f64)))
    }
}

impl IntoFloat<F64> for F64 {
    fn into_float_spec(self) -> F64 {
        self
    }
    fn into_float(self) -> F64 {
        self
    }
}

fn random_row(rng: &mut Pcg32, n: usize) -> Vec<F64> {
    (0..n).map(|_| F64((rng.generate() % 1000) as f64 / 100.0 - 5.0)).collect()
}

fn brute_mean(xs: &[F64], w: usize, i: usize) -> f64 {
    let window = &xs[i + 1 - w..=i];
    window.iter().map(|x| x.0).sum::<f64>() / w as f64
}

fn brute_var(xs: &[F64], w: usize, i: usize) -> f64 {
    let m = brute_mean(xs, w, i);
    let window = &xs[i + 1 - w..=i];
    window.iter().map(|x| (x.0 - m) * (x.0 - m)).sum::<f64>() / (w as f64 - 1.0)
}

fn rel_close(a: f64, b: f64, tol: f64) -> bool {
    let denom = 1f64.max(a.abs()).max(b.abs());
    (a - b).abs() / denom <= tol
}

#[test]
fn sliding_mean_var_agree_with_brute_force() {
    let mut rng = Pcg32::new(Pcg32Seed::from_state_inc(0x1234, 7));
    for case in 0..10usize {
        let n = 20 + (rng.generate() % 31) as usize;
        let w = 2 + (rng.generate() % 9) as usize;
        let row = random_row(&mut rng, n);
        let batch = vec![row.clone()];

        let mut mean_ex: SlidingExecutor<F64, F64> =
            SlidingExecutor::new(SlidingType::Mean, w, None);
        let out_mean = mean_ex.apply_2d(&batch);
        let mut var_ex: SlidingExecutor<F64, F64> = SlidingExecutor::new(SlidingType::Var, w, None);
        let out_var = var_ex.apply_2d(&batch);
        let mut std_ex: SlidingExecutor<F64, F64> = SlidingExecutor::new(SlidingType::Std, w, None);
        let out_std = std_ex.apply_2d(&batch);

        for i in (w - 1)..n {
            let bm = brute_mean(&row, w, i);
            let bv = brute_var(&row, w, i);
            assert!(rel_close(out_mean[0][i].0, bm, 1e-5), "mean case {case} pos {i}");
            assert!(rel_close(out_var[0][i].0, bv, 1e-5), "var case {case} pos {i}");
            assert!(rel_close(out_std[0][i].0, bv.sqrt(), 1e-5), "std case {case} pos {i}");
        }
        for i in 0..(w - 1) {
            assert_eq!(out_mean[0][i].0, 0.0);
        }
    }
}

#[test]
fn sliding_skew_kurt_agree_with_brute_force() {
    let mut rng = Pcg32::new(Pcg32Seed::from_state_inc(99, 3));
    for _case in 0..5usize {
        let n = 25 + (rng.generate() % 20) as usize;
        let w = 5 + (rng.generate() % 5) as usize;
        let row = random_row(&mut rng, n);
        let batch = vec![row.clone()];

        let mut skew_ex: SlidingExecutor<F64, F64> =
            SlidingExecutor::new(SlidingType::Skew, w, Some(F64(0.0)));
        let out_skew = skew_ex.apply_2d(&batch);
        let mut kurt_ex: SlidingExecutor<F64, F64> =
            SlidingExecutor::new(SlidingType::Kurt, w, Some(F64(0.0)));
        let out_kurt = kurt_ex.apply_2d(&batch);

        for i in (w - 1)..n {
            let m = brute_mean(&row, w, i);
            let window = &row[i + 1 - w..=i];
            let wf = w as f64;
            let m2: f64 = window.iter().map(|x| (x.0 - m).powi(2)).sum();
            let m3: f64 = window.iter().map(|x| (x.0 - m).powi(3)).sum();
            let m4: f64 = window.iter().map(|x| (x.0 - m).powi(4)).sum();
            let lower = m2 / (wf - 1.0);
            let skew_expected =
                (m3 / wf) / lower.powf(1.5) * (wf * wf / ((wf - 1.0) * (wf - 2.0)));
            let kurt_expected = ((wf + 1.0) * wf / ((wf - 1.0) * (wf - 2.0) * (wf - 3.0)))
                * (m4 / (lower * lower))
                - 3.0 * (wf - 1.0) * (wf - 1.0) / ((wf - 2.0) * (wf - 3.0));
            assert!(rel_close(out_skew[0][i].0, skew_expected, 1e-4));
            assert!(rel_close(out_kurt[0][i].0, kurt_expected, 1e-4));
        }
    }
}

#[test]
fn sliding_parallel_matches_sequential() {
    let mut rng = Pcg32::new(Pcg32Seed::from_state_inc(5, 11));
    let batch: Vec<Vec<F64>> = (0..9).map(|_| random_row(&mut rng, 30)).collect();
    let mut ex: SlidingExecutor<F64, F64> = SlidingExecutor::new(SlidingType::Var, 4, None);
    let sequential = ex.apply_2d(&batch);
    for chunk in [None, Some(1), Some(2), Some(4), Some(100)] {
        let parallel = ex.apply_2d_parallel(&batch, chunk);
        assert_eq!(sequential, parallel);
    }
}

#[test]
fn sliding_exact_integers() {
    // Exact integer scalar instance: the sliding mean of [2,4,6,8] over
    // windows of two is exact.
    let batch: Vec<Vec<i64>> = vec![vec![2, 4, 6, 8]];
    let mut ex: SlidingExecutor<i64, i64> = SlidingExecutor::new(SlidingType::Mean, 2, None);
    let out = ex.apply_2d(&batch);
    assert_eq!(out[0], vec![0, 3, 5, 7]);
}
