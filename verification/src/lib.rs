//! Signal-processing and statistics engine for batches of sampled waveforms.
//!
//! The crate provides three subsystems sharing one execution contract
//! ("apply a per-row transform, optionally in parallel, in place"):
//! sliding-window statistics (moving sum, mean, variance, standard
//! deviation, skewness, kurtosis), a per-class running mean/variance
//! accumulator with split/merge semantics for parallel reduction, and a
//! small deterministic pseudo-random generator used for seeding test data.
//!
//! All numeric kernels are generic over the scalar trait [`traits::DspFloat`],
//! whose operations are specified per implementation; every contract pins the
//! result of a computation as an exact function of those operations, so that
//! parallel and sequential execution provably agree bit for bit.

pub mod fft;
pub mod multi_condmean;
pub mod pcg32;
pub mod sliding;
pub mod traits;

pub use multi_condmean::{CondMeanVar, CondMeanVarP, Label};
pub use pcg32::{Pcg32, Pcg32Seed};
pub use sliding::{MovingSum, SlidingExecutor, SlidingType};
pub use traits::{DspFloat, IntoFloat, Transform1D, Transform2D};
