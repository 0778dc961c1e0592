//! Replayable long profiles of the managed counter cluster: what they submit, and what they check.

pub mod laws;
pub mod mixed;
pub mod plan;
pub mod script;
pub mod steps;
pub mod workload;
