//! Bounded-concurrency scanner for the metadata directory of a package
//! environment.
//!
//! The library holds the verified core: the entry filter, the scan planning
//! step, and the state machine that enforces the concurrency cap while
//! classifying task outcomes. A thin unverified driver performs the actual
//! directory listing and runs the parse tasks, consulting this library for
//! every decision.

pub mod entries;
pub mod error;
pub mod prefix;
pub mod scan;
