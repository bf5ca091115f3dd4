//! Self-orientation of a fleet of agents from their internal dynamics alone.
//!
//! The verified core holds the integer side of the keel: sign patterns and
//! their cuts of the complete coupling graph, the energy zones with their
//! stability rule, and the calibration state with its perturbation and
//! lateness rules.

pub mod keel;
pub mod sign_pattern;
pub mod zone;

pub use keel::{Keel, ThresholdBreaches};
pub use sign_pattern::SignPattern;
pub use zone::{is_stable, FleetZone};
