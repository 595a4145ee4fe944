//! Core of a coverage-guided fuzzing engine: the control loop and its
//! feedback plane.
//!
//! The crate drives a target through an [`executors::Executor`], observes one
//! execution in a map observer, decides novelty against a persistent history
//! map, and evolves a corpus of interesting testcases.  Every data structure
//! and decision rule here is specified and verified; the target itself and
//! the clock are reached only through narrow interfaces.

use vstd::prelude::*;

pub mod corpus;
pub mod engines;
pub mod events;
pub mod executors;
pub mod feedback;
pub mod generators;
pub mod inputs;
pub mod map_observer;
pub mod max_map_feedback;
pub mod mutators;
pub mod observer;
pub mod serialize;
pub mod stages;
pub mod utils;

verus! {

/// Errors surfaced by the core.  Programming errors (a dangling observer
/// reference) and empty-corpus conditions are the only failure sources in the
/// verified pipeline.
#[derive(Clone, Copy, Debug, PartialEq, Eq, Structural)]
pub enum Error {
    /// A corpus or collection was empty where an element was needed.
    Empty,
    /// A name lookup (observer reference, metadata key) found nothing.
    KeyNotFound,
}

impl Error {
    /// A short human-readable description, for embedders that log errors.
    pub fn description(&self) -> (r: &'static str)
        ensures
            r@ == match self {
                Error::Empty => "empty container"@,
                Error::KeyNotFound => "key not found"@,
            },
    {
        match self {
            Error::Empty => "empty container",
            Error::KeyNotFound => "key not found",
        }
    }
}

} // verus!
