//! The ways a search run can fail.

use vstd::prelude::*;

verus! {

/// Why a run ended without a result. Every failure is fatal for the run.
#[derive(Clone, Copy, Debug, PartialEq, Eq, Structural)]
pub enum SearchError {
    /// No compatible compute backend was found.
    BackendUnavailable,
    /// The backend failed to complete a round or to hand back its scores.
    RoundFailed,
    /// The grid has no worker, so no candidate would be evaluated.
    EmptyGrid,
}

impl SearchError {
    /// A short description for the user.
    pub fn message(&self) -> (text: &'static str)
        ensures
            text@ == match *self {
                SearchError::BackendUnavailable => "no compatible compute backend"@,
                SearchError::RoundFailed => "the backend failed to complete a round"@,
                SearchError::EmptyGrid => "the grid has no workers"@,
            },
    {
        match self {
            SearchError::BackendUnavailable => "no compatible compute backend",
            SearchError::RoundFailed => "the backend failed to complete a round",
            SearchError::EmptyGrid => "the grid has no workers",
        }
    }
}

} // verus!
