//! The CIE colour rendering index in verified fixed-point arithmetic.
//!
//! The colour rendering index tells how faithfully a light source renders
//! fourteen standard test colour samples, compared with a reference
//! illuminant of the same correlated colour temperature: a Planckian
//! radiator up to 5000 K, the CIE daylight illuminant above. For each sample
//! the chromaticity under the test light is adapted to the white of the
//! reference after von Kries, and the distance `dE` in the CIE 1964 uniform
//! colour space between the adapted colour and the colour under the
//! reference gives the special index `Ri = 100 - 4.6 dE`.
//!
//! Every quantity is an integer number of millionths, and every function
//! states its result exactly, as the floor of the rational value of its
//! formula. A function fails with an error where its formula has no value; it
//! never panics and never overflows.
//!
//! - [`fixed`]: floor division, square and cube roots.
//! - [`xyz`]: tristimulus values, the 1960 chromaticity, the 1964 uniform
//!   space.
//! - [`kries`]: the von Kries transform.
//! - [`cri`]: the indices, the choice of the reference illuminant, and the
//!   course of a computation whose spectra are observed elsewhere.
//! - [`identity`]: the proof that a light which is its own reference has
//!   indices of 100, but for what rounding takes.
//! - [`spectrum`], [`tcs`]: spectra on the working grid and the fourteen test
//!   colour samples.
//! - [`stimulus`]: the stimulus of a display pixel.
pub mod cri;
pub mod error;
pub mod fixed;
pub mod identity;
pub mod kries;
pub mod spectrum;
pub mod stimulus;
pub mod tcs;
pub mod xyz;

pub use crate::cri::{Assessment, Reference, Sighting, CRI};
pub use crate::error::CmtError;
pub use crate::spectrum::{Colorant, Spectrum};
pub use crate::stimulus::{ObserverData, RgbSpace, Stimulus, RGB};
pub use crate::xyz::XYZ;
