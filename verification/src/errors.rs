//! Validation errors.
//!
//! Dimension and shape problems are reported when a component is constructed,
//! never later: every constructor returns one of these instead of deferring a
//! panic to evaluation time.

use vstd::prelude::*;

verus! {

/// Why a component could not be built, or a query could not be answered.
#[derive(Clone, Copy, PartialEq, Eq, Structural, Debug)]
pub enum ValidationError {
    /// Sub-components report different agent counts, or a vector's length
    /// does not match the agent count.
    DimensionMismatch,
    /// An empty action or belief list was supplied.
    EmptyList,
    /// An action matrix has the wrong number of columns for its kind.
    WrongColumns,
    /// An action matrix holds a negative entry.
    NegativeEntry,
    /// The survival-probability trajectory was requested from an aggregator
    /// without the contest-ending rule.
    NotEndsOnContestWin,
}

impl ValidationError {
    /// A short human-readable description.
    pub fn message(&self) -> (r: &'static str)
        ensures
            r@.len() > 0,
    {
        proof {
            reveal_strlit("component dimensions disagree");
            reveal_strlit("input list is empty");
            reveal_strlit("wrong number of action columns");
            reveal_strlit("negative action entry");
            reveal_strlit("aggregator does not end on contest win");
        }
        match self {
            ValidationError::DimensionMismatch => "component dimensions disagree",
            ValidationError::EmptyList => "input list is empty",
            ValidationError::WrongColumns => "wrong number of action columns",
            ValidationError::NegativeEntry => "negative action entry",
            ValidationError::NotEndsOnContestWin => "aggregator does not end on contest win",
        }
    }
}

} // verus!
