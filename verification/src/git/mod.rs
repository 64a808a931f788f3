//! The git layer's data model and the parsers for git's plumbing output.

pub mod diff;
pub mod history;
pub mod review;
pub mod status;
