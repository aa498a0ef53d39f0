//! Rebuilds timing traces of finished CI runs from their raw text logs.
//!
//! A run is selected by name and status, its log archive is looked up in a
//! cache or downloaded, every log file of the archive is reduced to the
//! interval between its first and its last timestamped line, and the result
//! is a span tree: one span for the run, one child span for each log file.
//!
//! Everything here is computation on plain values. Reading files, talking to
//! the CI provider and exporting spans are left to the program around it,
//! which performs the requests that this library hands out:
//!
//! - [`pipeline`] sequences the whole work and is what a program drives;
//! - [`run`] chooses the runs, [`fetch`] looks one archive up in the cache
//!   laid out by [`cache`], under the claims of [`claims`];
//! - [`archive`] opens an archive, [`interval`] reads the interval of a log
//!   with the timestamps of [`timestamp`] and the days of [`calendar`];
//! - [`span`] builds the span tree of a run, named with [`decimal`];
//! - [`protocol`] shows what lookups achieve side by side, and [`course`]
//!   what a whole pipeline comes to.

pub mod calendar;
pub mod timestamp;
pub mod interval;
pub mod decimal;
pub mod run;
pub mod archive;
pub mod cache;
pub mod claims;
pub mod fetch;
pub mod protocol;
pub mod span;
pub mod pipeline;
pub mod course;
