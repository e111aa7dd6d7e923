use vstd::prelude::*;

verus! {

/// Failure taxonomy for the streaming transforms.
///
/// `ConfigurationError`: the requested resolution is not usable for the
/// transform, detected when the aggregation state would first be created.
/// `InsufficientData`: the normalization collaborator cannot build even one
/// interpolated bucket; fatal for the group, no partial output.
/// `InvariantViolation`: an internal defensive check fired (an unexpected
/// series variant at a finalizer, or a non-positive median gap feeding the
/// interval heuristic's division).
#[derive(Clone, Copy, Debug, PartialEq, Eq, Structural)]
pub enum TsError {
    ConfigurationError,
    InsufficientData,
    InvariantViolation,
}

impl TsError {
    /// A short description, for hosts that report failures as text.
    pub fn describe(&self) -> (r: &'static str)
        ensures
            self is ConfigurationError ==> r@ == "resolution not usable for this transform"@,
            self is InsufficientData ==> r@ == "not enough data to generate a smoothed representation"@,
            self is InvariantViolation ==> r@ == "unexpected time series shape"@,
    {
        match self {
            TsError::ConfigurationError => "resolution not usable for this transform",
            TsError::InsufficientData => "not enough data to generate a smoothed representation",
            TsError::InvariantViolation => "unexpected time series shape",
        }
    }
}

} // verus!
