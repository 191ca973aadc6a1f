//! Core of a local system monitor: unit conversion, process ranking, report
//! text and the refresh cadence of the interactive display, all verified.

pub mod text;
pub mod units;
pub mod usage;
pub mod snapshot;
pub mod rank;
pub mod refresh;
pub mod report;
pub mod display;
