//! Canonical point-to-line ICP scan matching: the integer and decision logic
//! of the matcher, verified.
//!
//! The numeric engine (poses, projections, the closed-form solver and the
//! covariance estimate) works on floating-point values and lives outside
//! this crate. What stands here is the part of the matcher that decides on
//! plain values:
//!
//! - [`math`]: the correspondence hash used to detect oscillation;
//! - [`icp`]: the ICP loop's iteration counting, cycle detection and
//!   termination reasons;
//! - [`laser_data`]: jump tables of the smart correspondence search,
//!   neighbourhood walks, validity filters, and shape, capacity and per-ray
//!   checks of scan input;
//! - [`matching`]: match, covariance and termination statuses;
//! - [`params`]: configuration enums, defaults and the validation verdict;
//! - [`scan`]: gap filling of per-ray sequences;
//! - [`text`]: error messages.
//!
//! Readings and bearings enter as [`laser_data::OrderKey`]s: integers whose
//! order is the order of the floating-point values they stand for.

pub mod icp;
pub mod laser_data;
pub mod matching;
pub mod math;
pub mod params;
pub mod scan;
pub mod text;

pub use icp::{IcpLoop, IterationEvent, LoopEnd};
pub use laser_data::{CorrespondenceType, JumpTables, LaserDataError, OrderKey, RayCheck, ScanError};
pub use matching::{CovarianceStatus, MatchStatus, TerminationReason};
pub use math::corr_hash;
pub use params::{CorrespondenceSearch, DistanceMetric, ParamsError, WeightParams};
