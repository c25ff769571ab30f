use secbench_dsp::fft::{phase_normalize, spectrum_mags};
use secbench_dsp::sliding::{correlation_combine, euclidean_combine};
use secbench_dsp::{DspFloat, IntoFloat};

#[derive(Clone, Copy, PartialEq, Debug)]
struct F64(f64);

impl DspFloat for F64 {
    fn zero_spec() -> F64 {
        F64(0.0)
    }
    fn one_spec() -> F64 {
        F64(1.0)
    }
    fn add_spec(self, o: F64) -> F64 {
        F64(self.0 + o.0)
    }
    fn sub_spec(self, o: F64) -> F64 {
        F64(self.0 - o.0)
    }
    fn mul_spec(self, o: F64) -> F64 {
        F64(self.0 * o.0)
    }
    fn div_spec(self, o: F64) -> F64 {
        F64(self.0 / o.0)
    }
    fn abs_spec(self) -> F64 {
        F64(self.0.abs())
    }
    fn sqrt_spec(self) -> F64 {
        F64(self.0.sqrt())
    }
    fn pow_three_halves_spec(self) -> F64 {
        F64(self.0.powf(1.5))
    }
    fn ge_spec(self, o: F64) -> bool {
        self.0 >= o.0
    }
    fn eq_spec(self, o: F64) -> bool {
        self.0 == o.0
    }
    fn from_count_spec(n: u64) -> F64 {
        F64(n as f64)
    }
    fn skew_coef_spec(w: u64) -> F64 {
        F64(((w * w) as f64) / (((w - 1) * (w - 2)) as f64))
    }
    fn kurt_coef_spec(w: u64) -> F64 {
        F64((((w + 1) * w) as f64) / (((w - 1) * (w - 2) * (w - 3)) as f64))
    }
    fn kurt_excess_spec(w: u64) -> F64 {
        F64(3.0 * ((((w - 1) * (w - 1)) as f64) / (((w - 2) * (w - 3)) as f64)))
    }
    fn zero() -> F64 {
        F64(0.0)
    }
    fn one() -> F64 {
        F64(1.0)
    }
    fn add(self, o: F64) -> F64 {
        F64(self.0 + o.0)
    }
    fn sub(self, o: F64) -> F64 {
        F64(self.0 - o.0)
    }
    fn mul(self, o: F64) -> F64 {
        F64(self.0 * o.0)
    }
    fn div(self, o: F64) -> F64 {
        F64(self.0 / o.0)
    }
    fn abs(self) -> F64 {
        F64(self.0.abs())
    }
    fn sqrt(self) -> F64 {
        F64(self.0.sqrt())
    }
    fn pow_three_halves(self) -> F64 {
        F64(self.0.powf(1.5))
    }
    fn ge(self, o: F64) -> bool {
        self.0 >= o.0
    }
    fn eq_val(self, o: F64) -> bool {
        self.0 == o.0
    }
    fn from_count(n: u64) -> F64 {
        F64(n as f64)
    }
    fn skew_coef(w: u64) -> F64 {
        F64(((w * w) as f64) / (((w - 1) * (w - 2)) as f64))
    }
    fn kurt_coef(w: u64) -> F64 {
        F64((((w + 1) * w) as f64) / (((w - 1) * (w - 2) * (w - 3)) as f64))
    }
    fn kurt_excess(w: u64) -> F64 {
        F64(3.0 * ((((w - 1) * (w - 1)) as f64) / (((w - 2) * (w - 3)) as f64)))
    }
}

impl IntoFloat<F64> for F64 {
    fn into_float_spec(self) -> F64 {
        self
    }
    fn into_float(self) -> F64 {
        self
    }
}


#[test]
fn spectrum_mags_exact() {
    let bins: Vec<(F64, F64)> =
        vec![(F64(3.0), F64(4.0)), (F64(0.0), F64(0.0)), (F64(-5.0), F64(12.0))];
    let mags = spectrum_mags(3, &bins);
    assert_eq!(mags, vec![F64(5.0), F64(0.0), F64(13.0)]);

    // A shorter count takes only the leading bins.
    assert_eq!(spectrum_mags(1, &bins), vec![F64(5.0)]);
}

#[test]
fn phase_normalize_unit_magnitude_and_zero_bin() {
    // (0 + 2i) against kernel (0 + 1i): conjugate product is 2, normalized
    // to magnitude one; a zero product is left unmodified.
    let bins: Vec<(F64, F64)> = vec![(F64(0.0), F64(2.0)), (F64(0.0), F64(0.0))];
    let kernel: Vec<(F64, F64)> = vec![(F64(0.0), F64(1.0)), (F64(5.0), F64(7.0))];
    let out = phase_normalize(&bins, &kernel);
    assert_eq!(out, vec![(F64(1.0), F64(0.0)), (F64(0.0), F64(0.0))]);
}

#[test]
fn euclidean_combine_exact() {
    let xx = vec![F64(10.0), F64(20.0)];
    let xp = vec![F64(3.0), F64(4.0)];
    let out = euclidean_combine(2, &xx, &xp, F64(5.0));
    assert_eq!(out, vec![F64(9.0), F64(17.0)]);
}

#[test]
fn correlation_combine_exact() {
    let xp = vec![F64(10.0)];
    let x_ms = vec![F64(4.0)];
    let x_std = vec![F64(3.0)];
    let out = correlation_combine(1, &xp, &x_ms, &x_std, F64(1.0), F64(2.0));
    assert_eq!(out, vec![F64(1.0)]);
}
