use secbench_dsp::{DspFloat, IntoFloat, MovingSum, Transform2D};

#[derive(Clone, Copy, PartialEq, Debug)]
struct F32(f32);

impl DspFloat for F32 {
    fn zero_spec() -> F32 {
        F32(0.0)
    }
    fn one_spec() -> F32 {
        F32(1.0)
    }
    fn add_spec(self, o: F32) -> F32 {
        F32(self.0 + o.0)
    }
    fn sub_spec(self, o: F32) -> F32 {
        F32(self.0 - o.0)
    }
    fn mul_spec(self, o: F32) -> F32 {
        F32(self.0 * o.0)
    }
    fn div_spec(self, o: F32) -> F32 {
        F32(self.0 / o.0)
    }
    fn abs_spec(self) -> F32 {
        F32(self.0.abs())
    }
    fn sqrt_spec(self) -> F32 {
        F32(self.0.sqrt())
    }
    fn pow_three_halves_spec(self) -> F32 {
        F32(self.0.powf(1.5))
    }
    fn ge_spec(self, o: F32) -> bool {
        self.0 >= o.0
    }
    fn eq_spec(self, o: F32) -> bool {
        self.0 == o.0
    }
    fn from_count_spec(n: u64) -> F32 {
        F32(n as f32)
    }
    fn skew_coef_spec(w: u64) -> F32 {
        F32((((w * w) as f64) / (((w - 1) * (w - 2)) as f64)) as f32)
    }
    fn kurt_coef_spec(w: u64) -> F32 {
        F32(((((w + 1) * w) as f64) / (((w - 1) * (w - 2) * (w - 3)) as f64)) as f32)
    }
    fn kurt_excess_spec(w: u64) -> F32 {
        F32((3.0 * ((((w - 1) * (w - 1)) as f64) / (((w - 2) * (w - 3)) as f64))) as f32)
    }
    fn zero() -> F32 {
        F32(0.0)
    }
    fn one() -> F32 {
        F32(1.0)
    }
    fn add(self, o: F32) -> F32 {
        F32(self.0 + o.0)
    }
    fn sub(self, o: F32) -> F32 {
        F32(self.0 - o.0)
    }
    fn mul(self, o: F32) -> F32 {
        F32(self.0 * o.0)
    }
    fn div(self, o: F32) -> F32 {
        F32(self.0 / o.0)
    }
    fn abs(self) -> F32 {
        F32(self.0.abs())
    }
    fn sqrt(self) -> F32 {
        F32(self.0.sqrt())
    }
    fn pow_three_halves(self) -> F32 {
        F32(self.0.powf(1.5))
    }
    fn ge(self, o: F32) -> bool {
        self.0 >= o.0
    }
    fn eq_val(self, o: F32) -> bool {
        self.0 == o.0
    }
    fn from_count(n: u64) -> F32 {
        F32(n as f32)
    }
    fn skew_coef(w: u64) -> F32 {
        F32((((w * w) as f64) / (((w - 1) * (w - 2)) as f64)) as f32)
    }
    fn kurt_coef(w: u64) -> F32 {
        F32(((((w + 1) * w) as f64) / (((w - 1) * (w - 2) * (w - 3)) as f64)) as f32)
    }
    fn kurt_excess(w: u64) -> F32 {
        F32((3.0 * ((((w - 1) * (w - 1)) as f64) / (((w - 2) * (w - 3)) as f64))) as f32)
    }
}

impl IntoFloat<F32> for i16 {
    fn into_float_spec(self) -> F32 {
        F32(self as f32)
    }
    fn into_float(self) -> F32 {
        F32(self as f32)
    }
}

fn unwrap2(v: Vec<Vec<F32>>) -> Vec<Vec<f32>> {
    v.into_iter().map(|r| r.into_iter().map(|x| x.0).collect()).collect()
}

#[test]
fn moving_sum_basic() {
    let t0: Vec<Vec<i16>> = (0..3i16).map(|i| (0..8i16).map(|j| i + j).collect()).collect();
    let expected: Vec<Vec<f32>> = vec![
        vec![3.0f32, 6.0, 9.0, 12.0, 15.0, 18.0, 13.0, 7.0],
        vec![6.0, 9.0, 12.0, 15.0, 18.0, 21.0, 15.0, 8.0],
        vec![9.0, 12.0, 15.0, 18.0, 21.0, 24.0, 17.0, 9.0],
    ];
    let mut s: MovingSum<F32, i16> = MovingSum::new(3, F32(1f32));
    let actual = s.apply_2d(&t0);
    assert_eq!(unwrap2(actual), expected);

    let actual = s.apply_2d_parallel(&t0, None);
    assert_eq!(unwrap2(actual), expected);

    let actual = s.apply_2d_parallel(&t0, Some(2));
    assert_eq!(unwrap2(actual), expected);
}

#[test]
fn moving_sum_all_ones_gives_window_size() {
    // For an all-ones input, every full window sums to exactly the window size.
    for n in [7usize, 20, 33] {
        for w in [1usize, 2, 5, 7] {
            let input: Vec<Vec<i16>> = vec![vec![1i16; n]];
            let mut s: MovingSum<F32, i16> = MovingSum::new(w, F32(1.0));
            let out = s.apply_2d(&input);
            for j in 0..=(n - w) {
                assert_eq!(out[0][j].0, w as f32);
            }
        }
    }
}

#[test]
fn moving_sum_exact_integers() {
    // The crate's exact integer scalar instance: results are exact.
    let input: Vec<Vec<i64>> = vec![vec![5, -3, 7, 0, 2, 2]];
    let mut s: MovingSum<i64, i64> = MovingSum::new(2, 1i64);
    let out = s.apply_2d(&input);
    // Full windows, then a shortened tail window.
    assert_eq!(out[0], vec![2, 4, 7, 2, 4, 2]);

    // A non-unit scale multiplies every window sum.
    let mut s3: MovingSum<i64, i64> = MovingSum::new(2, 3i64);
    let out3 = s3.apply_2d(&input);
    assert_eq!(out3[0], vec![6, 12, 21, 6, 12, 6]);
}
