use vstd::prelude::*;

verus! {

/// The ways in which a request to this library can be refused.
#[derive(Clone, Debug, PartialEq, Eq)]
pub enum CaError {
    /// A rule was built from an entry that is neither 0 nor 1; `found` is
    /// the first such entry.
    InvalidRule { found: u8 },
    /// An automaton was asked about its history before it was simulated.
    NotSimulated,
    /// Workers of the driver failed: `count` of them, the first one with the
    /// message `first`.
    WorkerFailure { count: usize, first: String },
}

} // verus!
