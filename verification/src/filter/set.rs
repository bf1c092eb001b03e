//! A set: steps applied one after the other.

use crate::dataset::{Data, DataView};
use crate::error::Error;
use crate::filter::step::{eval_step, lemma_step_keeps_wf, FilterType, StepView};
use crate::filter::Filterable;
use vstd::prelude::*;
use vstd::string::*;

verus! {

/// A chain of steps, applied from the first to the last.
#[derive(Debug, Clone, PartialEq)]
pub struct FilterSet {
    pub types: Vec<FilterType>,
}

impl View for FilterSet {
    type V = Seq<StepView>;

    open spec fn view(&self) -> Seq<StepView> {
        self.types@.map_values(|step: FilterType| step@)
    }
}

impl Default for FilterSet {
    /// The set without steps.
    fn default() -> (set: FilterSet)
        ensures
            set@ == Seq::<StepView>::empty(),
    {
        let set = FilterSet { types: Vec::new() };
        set
    }
}

/// What a chain of steps makes of a value: each step works on what the one
/// before it returned, and the chain fails as soon as one step fails.
pub open spec fn eval_set(steps: Seq<StepView>, input: DataView) -> Option<DataView>
    decreases steps.len(),
{
    if steps.len() == 0 {
        Some(input)
    } else {
        match eval_step(steps[0], input) {
            Some(value) => eval_set(steps.drop_first(), value),
            None => None,
        }
    }
}

/// A chain of steps makes a well-formed value of a well-formed value.
pub proof fn lemma_set_keeps_wf(steps: Seq<StepView>, input: DataView)
    requires
        input.wf(),
    ensures
        eval_set(steps, input) matches Some(value) ==> value.wf(),
    decreases steps.len(),
{
    if steps.len() > 0 {
        lemma_step_keeps_wf(steps[0], input);
        if eval_step(steps[0], input) is Some {
            lemma_set_keeps_wf(steps.drop_first(), eval_step(steps[0], input)->0);
        }
    }
}

/// How a chain of steps is written: the steps one after the other.
pub open spec fn steps_text(steps: Seq<StepView>) -> Seq<char>
    decreases steps.len(),
{
    if steps.len() == 0 {
        Seq::empty()
    } else {
        steps_text(steps.drop_last()) + steps.last().text()
    }
}

impl FilterSet {
    /// The set as it is written in an expression.
    pub fn to_text(&self) -> (text: String)
        ensures
            text@ == steps_text(self@),
    {
        let mut text = String::new();
        let mut i: usize = 0;
        while i < self.types.len()
            invariant
                i <= self.types.len(),
                text@ == steps_text(self@.take(i as int)),
            decreases self.types.len() - i,
        {
            assert(self@.take(i + 1).drop_last() =~= self@.take(i as int));
            text.append(self.types[i].to_text().as_str());
            i += 1;
        }
        assert(self@.take(i as int) =~= self@);
        text
    }

    /// Appends a step to the set.
    pub fn add(&mut self, t: FilterType)
        ensures
            final(self)@ == old(self)@.push(t@),
    {
        self.types.push(t);
    }
}

impl Filterable for FilterSet {
    open spec fn eval(&self, input: DataView) -> Option<DataView> {
        eval_set(self@, input)
    }

    fn apply(&self, data: Data) -> (result: Result<Data, Error>) {
        let ghost steps = self@;
        let mut current = data;
        let mut i: usize = 0;
        assert(steps.skip(0) =~= steps);
        while i < self.types.len()
            invariant
                i <= self.types.len(),
                steps == self@,
                eval_set(steps, data@) == eval_set(steps.skip(i as int), current@),
            decreases self.types.len() - i,
        {
            assert(steps.skip(i as int).drop_first() =~= steps.skip(i + 1));
            current = self.types[i].apply(current)?;
            i += 1;
        }
        Ok(current)
    }
}

} // verus!
