//! Estimation of a wireless transmitter's 2-D position from signal-strength
//! readings taken at three known anchor points.
//!
//! The crate has two cooperating parts. The signal side turns raw wireless
//! status text into readings and averages repeated readings into one
//! measurement per anchor. The solver side turns three measured anchors into
//! an estimated location by linearising the three circle equations of the
//! log-distance path-loss model and solving the resulting 2x2 system exactly.
//!
//! All physical quantities are carried as scaled integers or exact integer
//! ratios, so every arithmetic step of the pipeline is exact; the one
//! transcendental step of the path-loss model (raising 10 to a rational
//! power) is left to the caller, who receives that exponent from this crate
//! as an exact ratio.

pub mod network_manager;
pub mod parse;
pub mod rat;
pub mod sampler;
pub mod trilateration_calc;
