//! A fractional-delay allpass filter on fixed-point samples: a ring-buffer
//! delay line read through an interpolation kernel, one-pole parameter
//! smoothing, and the first-order allpass recursion that joins them.
use vstd::prelude::*;

pub mod allpass;
pub mod delay;
pub mod fixed;
pub mod interpolation;
pub mod parameter;

pub use allpass::{AllPassFilter, DEFAULT_SMOOTHING};
pub use delay::DelayLine;
pub use fixed::{from_ratio, EPSILON, HALF, ONE};
pub use interpolation::{Cubic, Interpolator, Linear, Nearest, MAX_CAPACITY};
pub use parameter::SmoothedParam;

verus! {

} // verus!
