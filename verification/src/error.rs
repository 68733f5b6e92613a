//! The ways in which a colour rendering computation can fail.
use vstd::prelude::*;

verus! {

/// Why no colour rendering index could be given.
#[derive(Clone, Copy, Debug, PartialEq, Eq, Structural)]
pub enum CmtError {
    /// The chromaticity of the light is too far from the Planckian locus for
    /// a correlated colour temperature to be estimated.
    EstimationDomain,
    /// The temperature asked of the reference illuminant lies outside the
    /// range on which the daylight model is defined.
    ConstructionDomain,
    /// A computation has no value: a divisor is zero, a luminance is
    /// negative, or a result cannot be held in the fixed-point format.
    NumericDegeneracy,
}

} // verus!
