//! Log analysers that normalise build- and test-tool console output into a
//! uniform diagnostic model: an ordered list of messages, each with zero or
//! more source locations.
//!
//! Three scanners are provided, one per log format:
//! - [`clang`]: compiler output of the form `path:row:col: message`;
//! - [`gradle`]: compiler output of the form `path:row: message`, with a
//!   caret line two lines below refining the column;
//! - [`karma_jasmine`]: test-runner output, scanned in a single pass for two
//!   independent failure signatures (uncaught-exception stack traces and
//!   failed-test assertion blocks).
//!
//! Every scanner is a pure function from the log text and a project-directory
//! prefix to a report; its exact result is stated by a spec function and
//! proved in the `ensures` clause.

pub mod clang;
pub mod gradle;
pub mod karma_jasmine;
pub mod text;
pub mod types;
