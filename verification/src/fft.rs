//! Scalar stages of the FFT-based transforms.
//!
//! The FFT passes themselves are floating-point and run in the host layer;
//! what follows them — spectrum-bin magnitudes and the phase-only
//! normalization of a correlation spectrum — is plain scalar arithmetic,
//! verified here over the scalar trait.  A frequency bin is carried as its
//! (real, imaginary) pair.

use vstd::prelude::*;

use crate::traits::DspFloat;

verus! {

/// Strictly-greater comparison built from the scalar's `>=`: exactly the
/// values for which `a > b` holds (false when either operand is unordered).
pub open spec fn gt_spec<F: DspFloat>(a: F, b: F) -> bool {
    a.ge_spec(b) && !b.ge_spec(a)
}

/// Magnitude of one frequency bin: `sqrt(re * re + im * im)`.
pub open spec fn bin_mag_spec<F: DspFloat>(b: (F, F)) -> F {
    b.0.mul_spec(b.0).add_spec(b.1.mul_spec(b.1)).sqrt_spec()
}

/// Magnitudes of the first `count` frequency bins.
pub fn spectrum_mags<F: DspFloat>(count: usize, bins: &Vec<(F, F)>) -> (r: Vec<F>)
    requires
        count <= bins@.len(),
    ensures
        r@.len() == count,
        forall|k: int| 0 <= k < count ==> #[trigger] r@[k] == bin_mag_spec(bins@[k]),
{
    let mut out: Vec<F> = Vec::new();
    let mut k: usize = 0;
    while k < count
        invariant
            k <= count,
            count <= bins@.len(),
            out@.len() == k,
            forall|k2: int| 0 <= k2 < k ==> #[trigger] out@[k2] == bin_mag_spec(bins@[k2]),
        decreases count - k,
    {
        let (re, im) = bins[k];
        out.push(re.mul(re).add(im.mul(im)).sqrt());
        k += 1;
    }
    out
}

/// One bin of a phase-only correlation spectrum: the bin multiplied by the
/// kernel bin's conjugate, then normalized by its own magnitude — unless that
/// squared magnitude is not strictly positive (zero, or unordered), in which
/// case the product is left unmodified.
pub open spec fn phase_bin_spec<F: DspFloat>(x: (F, F), k: (F, F)) -> (F, F) {
    let re = x.0.mul_spec(k.0).add_spec(x.1.mul_spec(k.1));
    let im = x.1.mul_spec(k.0).sub_spec(x.0.mul_spec(k.1));
    let norm = re.mul_spec(re).add_spec(im.mul_spec(im));
    if gt_spec(norm, F::zero_spec()) {
        let mag = norm.sqrt_spec();
        (re.div_spec(mag), im.div_spec(mag))
    } else {
        (re, im)
    }
}

/// Phase-only normalization of a spectrum against a kernel spectrum,
/// bin by bin.
pub fn phase_normalize<F: DspFloat>(bins: &Vec<(F, F)>, kernel: &Vec<(F, F)>) -> (r: Vec<(F, F)>)
    requires
        kernel@.len() >= bins@.len(),
    ensures
        r@.len() == bins@.len(),
        forall|k: int|
            0 <= k < bins@.len() ==> #[trigger] r@[k] == phase_bin_spec(bins@[k], kernel@[k]),
{
    let n = bins.len();
    let mut out: Vec<(F, F)> = Vec::new();
    let mut k: usize = 0;
    while k < n
        invariant
            k <= n,
            n == bins@.len(),
            kernel@.len() >= n,
            out@.len() == k,
            forall|k2: int|
                0 <= k2 < k ==> #[trigger] out@[k2] == phase_bin_spec(bins@[k2], kernel@[k2]),
        decreases n - k,
    {
        let (xr, xi) = bins[k];
        let (kr, ki) = kernel[k];
        let re = xr.mul(kr).add(xi.mul(ki));
        let im = xi.mul(kr).sub(xr.mul(ki));
        let norm = re.mul(re).add(im.mul(im));
        let zero = F::zero();
        if norm.ge(zero) && !zero.ge(norm) {
            let mag = norm.sqrt();
            out.push((re.div(mag), im.div(mag)));
        } else {
            out.push((re, im));
        }
        k += 1;
    }
    out
}

} // verus!
