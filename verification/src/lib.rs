//! Pairwise micro-benchmark comparison.
//!
//! Two routines that take the same input are timed against each other over
//! many trials. The differences of their timings are cleaned of extreme
//! outliers, and a z-test on the mean difference decides whether the two
//! routines differ.

pub mod counting;
pub mod export;
pub mod measure;
pub mod outliers;
pub mod report;
pub mod stats;

pub use export::export_rows;
pub use measure::{
    black_box, measure, measure_trial, measure_with, time_call, Coin, Generator, ThreadCoin,
};
pub use outliers::mask_symmetric_outliers;
pub use report::{report, ReportError, Summary};
