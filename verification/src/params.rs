//! Match parameter enums, their defaults, and the validation verdict.
//!
//! The numeric fields of the matcher configuration are floating-point values
//! and are checked by the engine; the order in which the checks report, the
//! integer limits and the error messages are fixed here.

use vstd::prelude::*;

verus! {

/// Correspondence search strategy.
#[derive(Clone, Copy, Debug, PartialEq, Eq, Structural)]
pub enum CorrespondenceSearch {
    /// Jump-table search, O(1)-ish per ray.
    Tricks,
    /// Naive full scan.
    Naive,
}

impl Default for CorrespondenceSearch {
    /// The jump-table search.
    fn default() -> (search: Self)
        ensures
            search == CorrespondenceSearch::Tricks,
    {
        CorrespondenceSearch::Tricks
    }
}

/// Distance metric minimized by the solver.
#[derive(Clone, Copy, Debug, PartialEq, Eq, Structural)]
pub enum DistanceMetric {
    /// Point-to-line (PlICP).
    PointToLine,
    /// Point-to-point.
    PointToPoint,
}

impl Default for DistanceMetric {
    /// Point-to-line.
    fn default() -> (metric: Self)
        ensures
            metric == DistanceMetric::PointToLine,
    {
        DistanceMetric::PointToLine
    }
}

/// Correspondence weighting schemes.
#[derive(Clone, Copy, Debug, PartialEq, Eq, Structural)]
pub struct WeightParams {
    /// Maximum-likelihood correspondence weighting.
    pub ml: bool,
    /// Per-ray sigma weighting.
    pub sigma: bool,
}

impl Default for WeightParams {
    /// Both weighting schemes off.
    fn default() -> (weights: Self)
        ensures
            !weights.ml,
            !weights.sigma,
    {
        WeightParams { ml: false, sigma: false }
    }
}

/// Why a matcher configuration was rejected.
#[derive(Clone, Copy, Debug, PartialEq, Eq, Structural)]
pub enum ParamsError {
    /// A numeric setting is NaN or infinite.
    NonFinite,
    /// A numeric setting lies outside its allowed range.
    InvalidRange,
    /// The iteration limit is negative.
    InvalidIterationLimit,
}

/// The display text of each configuration error.
pub open spec fn params_error_text(error: ParamsError) -> Seq<char> {
    match error {
        ParamsError::NonFinite => "matcher parameters contain a non-finite value"@,
        ParamsError::InvalidRange => "matcher parameters contain an invalid range"@,
        ParamsError::InvalidIterationLimit => "matcher iteration limit must be non-negative"@,
    }
}

impl ParamsError {
    /// The stable, human-readable description of this error.
    pub fn to_string(&self) -> (text: String)
        ensures
            text@ == params_error_text(*self),
    {
        match self {
            ParamsError::NonFinite => String::from_str(
                "matcher parameters contain a non-finite value",
            ),
            ParamsError::InvalidRange => String::from_str(
                "matcher parameters contain an invalid range",
            ),
            ParamsError::InvalidIterationLimit => String::from_str(
                "matcher iteration limit must be non-negative",
            ),
        }
    }
}

/// The verdict of parameter validation, in the order the checks report:
/// a non-finite setting first, then any range violation (the floating-point
/// ranges, or fewer than one orientation neighbour), then a negative
/// iteration limit.
pub open spec fn validation_verdict_of(
    all_finite: bool,
    ranges_valid: bool,
    orientation_neighbourhood: i32,
    max_iterations: i32,
) -> Result<(), ParamsError> {
    if !all_finite {
        Err(ParamsError::NonFinite)
    } else if !ranges_valid || orientation_neighbourhood < 1 {
        Err(ParamsError::InvalidRange)
    } else if max_iterations < 0 {
        Err(ParamsError::InvalidIterationLimit)
    } else {
        Ok(())
    }
}

/// Combine the outcome of the floating-point checks with the integer limits
/// into the configuration verdict. `all_finite` says whether every numeric
/// setting is finite; `ranges_valid` whether every floating-point setting
/// lies in its allowed range.
pub fn validation_verdict(
    all_finite: bool,
    ranges_valid: bool,
    orientation_neighbourhood: i32,
    max_iterations: i32,
) -> (verdict: Result<(), ParamsError>)
    ensures
        verdict == validation_verdict_of(
            all_finite,
            ranges_valid,
            orientation_neighbourhood,
            max_iterations,
        ),
        verdict is Ok <==> (all_finite && ranges_valid && orientation_neighbourhood >= 1
            && max_iterations >= 0),
{
    if !all_finite {
        return Err(ParamsError::NonFinite);
    }
    if !ranges_valid || orientation_neighbourhood < 1 {
        return Err(ParamsError::InvalidRange);
    }
    if max_iterations < 0 {
        return Err(ParamsError::InvalidIterationLimit);
    }
    Ok(())
}

/// Parameter validation reports a non-finite setting before anything else,
/// then a range violation (a floating-point range, or fewer than one
/// orientation neighbour), then a negative iteration limit, and accepts
/// parameters with none of these.
pub proof fn lemma_parameter_checks_in_order(
    all_finite: bool,
    ranges_valid: bool,
    orientation_neighbourhood: i32,
    max_iterations: i32,
)
    ensures
        !all_finite ==> validation_verdict_of(
            all_finite,
            ranges_valid,
            orientation_neighbourhood,
            max_iterations,
        ) == Err::<(), ParamsError>(ParamsError::NonFinite),
        all_finite && (!ranges_valid || orientation_neighbourhood < 1) ==> validation_verdict_of(
            all_finite,
            ranges_valid,
            orientation_neighbourhood,
            max_iterations,
        ) == Err::<(), ParamsError>(ParamsError::InvalidRange),
        all_finite && ranges_valid && orientation_neighbourhood >= 1 && max_iterations < 0
            ==> validation_verdict_of(
            all_finite,
            ranges_valid,
            orientation_neighbourhood,
            max_iterations,
        ) == Err::<(), ParamsError>(ParamsError::InvalidIterationLimit),
        all_finite && ranges_valid && orientation_neighbourhood >= 1 && max_iterations >= 0
            ==> validation_verdict_of(
            all_finite,
            ranges_valid,
            orientation_neighbourhood,
            max_iterations,
        ) == Ok::<(), ParamsError>(()),
{
}

} // verus!
