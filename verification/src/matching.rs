//! Match status enums and the termination logic of the ICP loop.
//!
//! Each ICP iteration of the engine transforms the sensor scan, searches
//! correspondences, rejects outliers and solves for a new pose; those steps
//! compute on floating-point values. What the iteration found out is handed
//! to an [`IcpLoop`] as an [`IterationEvent`], and the loop decides whether
//! matching goes on, and if not, why it stopped, whether the result counts
//! as a success, and how many iterations it reports.

use vstd::prelude::*;

verus! {

/// Coarse match status.
#[derive(Clone, Copy, Debug, PartialEq, Eq, Structural)]
pub enum MatchStatus {
    Failed,
    Converged,
}

impl Default for MatchStatus {
    /// Failed, until a match is accepted.
    fn default() -> (status: Self)
        ensures
            status == MatchStatus::Failed,
    {
        MatchStatus::Failed
    }
}

impl MatchStatus {
    /// The status of a raw engine result: converged exactly when it is valid.
    pub fn of_valid(valid: bool) -> (status: MatchStatus)
        ensures
            status == (if valid { MatchStatus::Converged } else { MatchStatus::Failed }),
    {
        if valid {
            MatchStatus::Converged
        } else {
            MatchStatus::Failed
        }
    }
}

/// Whether optional uncertainty was requested and produced.
#[derive(Clone, Copy, Debug, PartialEq, Eq, Structural)]
pub enum CovarianceStatus {
    /// The matcher was configured pose-only.
    Disabled,
    /// All requested uncertainty outputs were produced.
    Computed,
    /// Uncertainty was requested but could not be computed; the pose remains
    /// usable when present.
    Failed,
}

impl Default for CovarianceStatus {
    /// Disabled, as for a pose-only matcher.
    fn default() -> (status: Self)
        ensures
            status == CovarianceStatus::Disabled,
    {
        CovarianceStatus::Disabled
    }
}

impl CovarianceStatus {
    /// The uncertainty status of a match: disabled when not requested,
    /// otherwise computed exactly when the outputs were produced. It does not
    /// depend on whether the pose itself was accepted.
    pub fn of_request(requested: bool, produced: bool) -> (status: CovarianceStatus)
        ensures
            !requested ==> status == CovarianceStatus::Disabled,
            requested && produced ==> status == CovarianceStatus::Computed,
            requested && !produced ==> status == CovarianceStatus::Failed,
    {
        if !requested {
            CovarianceStatus::Disabled
        } else if produced {
            CovarianceStatus::Computed
        } else {
            CovarianceStatus::Failed
        }
    }
}

/// Why matching stopped.
#[derive(Clone, Copy, Debug, PartialEq, Eq, Structural)]
pub enum TerminationReason {
    /// Matching failed without a more specific reason.
    Failed,
    /// The pose correction fell below the configured thresholds.
    Converged,
    /// No usable correspondences were found.
    NoCorrespondences,
    /// Some correspondences existed but fewer than the usable-geometry
    /// threshold.
    InsufficientGeometry,
    /// The configured iteration limit was reached.
    IterationLimit,
    /// The correspondence set repeated, so the loop stopped on a cycle.
    CycleDetected,
    /// The linear solve failed (singular or non-finite system).
    NumericalFailure,
}

impl Default for TerminationReason {
    /// Failed, until the engine reports a reason.
    fn default() -> (reason: Self)
        ensures
            reason == TerminationReason::Failed,
    {
        TerminationReason::Failed
    }
}

impl TerminationReason {
    /// Whether a result that stopped for this reason is an accepted
    /// convergence: it must be valid and have converged.
    pub fn accepts(self, valid: bool) -> (accepted: bool)
        ensures
            accepted == (valid && self == TerminationReason::Converged),
    {
        valid && matches!(self, TerminationReason::Converged)
    }

    /// The coarse status of a result that stopped for this reason.
    pub fn status(self, valid: bool) -> (status: MatchStatus)
        ensures
            status == MatchStatus::Converged <==> (valid && self == TerminationReason::Converged),
    {
        if self.accepts(valid) {
            MatchStatus::Converged
        } else {
            MatchStatus::Failed
        }
    }

    /// Why matching stopped when too few correspondences remained: none at
    /// all, or some but too few for a usable geometry.
    pub fn for_too_few(count: usize) -> (reason: TerminationReason)
        ensures
            count == 0 ==> reason == TerminationReason::NoCorrespondences,
            count > 0 ==> reason == TerminationReason::InsufficientGeometry,
    {
        if count == 0 {
            TerminationReason::NoCorrespondences
        } else {
            TerminationReason::InsufficientGeometry
        }
    }
}

} // verus!
