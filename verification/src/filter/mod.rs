//! The filter tree and its evaluation: steps, sets of steps, groups of sets
//! and expressions made of groups.

pub mod expression;
pub mod group;
pub mod runner;
pub mod set;
pub mod step;

pub use expression::{ExpressionView, FilterExpression};
pub use group::{DataStrategy, FilterGroup, GroupView};
pub use runner::Filter;
pub use set::FilterSet;
pub use step::{FilterType, StepView};

use crate::dataset::{Data, DataView};
use crate::error::Error;
use vstd::prelude::*;

verus! {

/// Whether what an evaluation returned is what `expected` says: the value,
/// or the failure of the filter where there is none.
pub open spec fn outcome_is(result: Result<Data, Error>, expected: Option<DataView>) -> bool {
    match expected {
        Some(value) => result matches Ok(data) && data@ == value,
        None => result matches Err(Error::Filter),
    }
}

/// What can be applied to a document value: every level of the filter tree.
pub trait Filterable {
    /// What the filter makes of `input`, or `None` where it fails.
    spec fn eval(&self, input: DataView) -> Option<DataView>;

    /// Applies the filter to `data`.
    fn apply(&self, data: Data) -> (result: Result<Data, Error>)
        ensures
            outcome_is(result, self.eval(data@)),
    ;
}

/// Applies a compiled expression to a document: its groups one after the
/// other, each to what the one before it returned.
pub fn evaluate(expr: &FilterExpression, input: Data) -> (result: Result<Data, Error>)
    ensures
        outcome_is(result, expression::eval_groups(expr@.groups, input@)),
{
    expr.apply(input)
}

} // verus!
