//! A filter that remembers how far it has come.

use crate::dataset::{Data, DataView};
use crate::error::Error;
use crate::filter::expression::{eval_groups, FilterExpression};
use crate::filter::group::{eval_group, eval_serial, DataStrategy, FilterGroup, GroupView};
use crate::filter::set::{eval_set, FilterSet};
use crate::filter::step::{eval_step, FilterType, StepView};
use crate::filter::{outcome_is, Filterable};
use vstd::prelude::*;

verus! {

/// A chain of groups with a cursor.
///
/// `apply` feeds a value through the groups from the cursor on and moves the
/// cursor past every group that succeeded, so that a filter that has run to
/// its end hands later values back as they are. A filter made of steps by
/// [`Filter::new`] has one group for each step: its cursor counts steps.
pub struct Filter {
    expression: FilterExpression,
    current: usize,
}

/// The state of a [`Filter`]: its groups, and the index of the first group
/// that has not run.
pub struct FilterView {
    pub groups: Seq<GroupView>,
    pub current: nat,
}

impl View for Filter {
    type V = FilterView;

    closed spec fn view(&self) -> FilterView {
        FilterView { groups: self.expression@.groups, current: self.current as nat }
    }
}

/// What the groups from `current` on make of a value, and the index at which
/// they stop: that of the first group that fails, or the number of groups.
pub open spec fn run_from(groups: Seq<GroupView>, current: nat, input: DataView) -> (
    Option<DataView>,
    nat,
)
    decreases groups.len() - current,
{
    if current >= groups.len() {
        (Some(input), current)
    } else {
        match eval_group(groups[current as int], input) {
            Some(value) => run_from(groups, current + 1, value),
            None => (None, current),
        }
    }
}

/// A filter whose cursor stands at `current` does to a value what the chain
/// of its remaining groups does.
pub proof fn lemma_run_is_chain(groups: Seq<GroupView>, current: nat, input: DataView)
    requires
        current <= groups.len(),
    ensures
        run_from(groups, current, input).0 == eval_groups(groups.skip(current as int), input),
    decreases groups.len() - current,
{
    let rest = groups.skip(current as int);
    if current < groups.len() {
        assert(rest.drop_first() =~= groups.skip(current as int + 1));
        match eval_group(groups[current as int], input) {
            Some(value) => {
                lemma_run_is_chain(groups, current + 1, value);
            },
            None => {},
        }
    }
}

/// A filter whose cursor stands at the start does to a value what the
/// expression of its groups does.
pub proof fn lemma_fresh_run_is_whole(groups: Seq<GroupView>, input: DataView)
    ensures
        run_from(groups, 0, input).0 == eval_groups(groups, input),
{
    lemma_run_is_chain(groups, 0, input);
    assert(groups.skip(0) =~= groups);
}

impl Default for Filter {
    /// The filter of one serial group without sets, with the cursor at its
    /// start.
    fn default() -> (filter: Filter)
        ensures
            filter@ == (FilterView { groups: seq![GroupView::empty()], current: 0 }),
    {
        Filter { expression: FilterExpression::default(), current: 0 }
    }
}

/// The serial group of one set that holds `step` alone.
pub open spec fn step_group(step: StepView) -> GroupView {
    GroupView { sets: seq![seq![step]], strategy: DataStrategy::Serial }
}

/// The groups of a filter of steps: one group for each step.
pub open spec fn step_groups(steps: Seq<StepView>) -> Seq<GroupView> {
    steps.map_values(|step: StepView| step_group(step))
}

/// What the steps from `current` on make of a value, and the index at which
/// they stop: that of the first step that fails, or the number of steps.
pub open spec fn run_steps(steps: Seq<StepView>, current: nat, input: DataView) -> (
    Option<DataView>,
    nat,
)
    decreases steps.len() - current,
{
    if current >= steps.len() {
        (Some(input), current)
    } else {
        match eval_step(steps[current as int], input) {
            Some(value) => run_steps(steps, current + 1, value),
            None => (None, current),
        }
    }
}

/// The group of a step does to a value what the step does.
pub proof fn lemma_step_group_is_step(step: StepView, input: DataView)
    ensures
        eval_group(step_group(step), input) == eval_step(step, input),
{
    let sets = seq![seq![step]];
    reveal_with_fuel(eval_serial, 2);
    reveal_with_fuel(eval_set, 2);
    assert(sets.drop_first().len() == 0);
    assert(sets[0].drop_first().len() == 0);
}

/// A filter of steps runs step by step: its cursor counts the steps that
/// have succeeded, and stops at the step that fails.
pub proof fn lemma_filter_of_steps_runs_steps(steps: Seq<StepView>, current: nat, input: DataView)
    ensures
        run_from(step_groups(steps), current, input) == run_steps(steps, current, input),
    decreases steps.len() - current,
{
    if current < steps.len() {
        lemma_step_group_is_step(steps[current as int], input);
        match eval_step(steps[current as int], input) {
            Some(value) => {
                lemma_filter_of_steps_runs_steps(steps, current + 1, value);
            },
            None => {},
        }
    }
}

/// A copy of a step.
fn copy_of(step: &FilterType) -> (copy: FilterType)
    ensures
        copy@ == step@,
{
    match step {
        FilterType::Current => FilterType::Current,
        FilterType::Array => FilterType::Array,
        FilterType::Keys => FilterType::Keys,
        FilterType::Member(index) => FilterType::Member(*index),
        FilterType::Entry(name) => FilterType::Entry(name.clone()),
        FilterType::Range(start, end) => FilterType::Range(*start, *end),
    }
}

impl Filter {
    /// The filter that applies `types` one after the other, with the cursor
    /// at its start. Each step gets a serial group of its own, so that the
    /// cursor counts steps.
    pub fn new(types: Vec<FilterType>) -> (filter: Filter)
        ensures
            filter@ == (FilterView {
                groups: step_groups(types@.map_values(|step: FilterType| step@)),
                current: 0,
            }),
    {
        let ghost steps = types@.map_values(|step: FilterType| step@);
        let mut groups: Vec<FilterGroup> = Vec::new();
        let mut i: usize = 0;
        while i < types.len()
            invariant
                i <= types.len(),
                groups.len() == i,
                steps == types@.map_values(|step: FilterType| step@),
                forall|j: int| 0 <= j < i ==> (#[trigger] groups[j])@ == step_group(steps[j]),
            decreases types.len() - i,
        {
            let mut steps_of_set: Vec<FilterType> = Vec::new();
            steps_of_set.push(copy_of(&types[i]));
            let mut sets: Vec<FilterSet> = Vec::new();
            sets.push(FilterSet { types: steps_of_set });
            let group = FilterGroup { sets, strategy: DataStrategy::Serial };
            assert(group@.sets[0] =~= seq![steps[i as int]]);
            assert(group@.sets =~= seq![seq![steps[i as int]]]);
            groups.push(group);
            i += 1;
        }
        let filter = Filter { expression: FilterExpression { groups }, current: 0 };
        assert(filter@.groups =~= step_groups(steps));
        filter
    }

    /// Applies the groups from the cursor on, each to what the one before it
    /// returned, and leaves the cursor at the group that failed, or behind
    /// the last group.
    pub fn apply(&mut self, input: Data) -> (result: Result<Data, Error>)
        ensures
            outcome_is(
                result,
                run_from(old(self)@.groups, old(self)@.current, input@).0,
            ),
            final(self)@.groups == old(self)@.groups,
            final(self)@.current == run_from(
                old(self)@.groups,
                old(self)@.current,
                input@,
            ).1,
    {
        let ghost groups = self@.groups;
        let ghost whole = run_from(groups, self@.current, input@);
        let mut data = input;
        while self.current < self.expression.groups.len()
            invariant
                groups == old(self)@.groups,
                whole == run_from(groups, old(self)@.current, input@),
                self@.groups == groups,
                whole == run_from(groups, self@.current, data@),
            decreases groups.len() - self@.current,
        {
            match self.apply_current(data) {
                Some(new_data) => {
                    data = new_data;
                    self.current += 1;
                },
                None => {
                    return Err(Error::Filter);
                },
            }
        }
        Ok(data)
    }

    /// Applies the group under the cursor.
    fn apply_current(&self, data: Data) -> (result: Option<Data>)
        requires
            self@.current < self@.groups.len(),
        ensures
            match eval_group(self@.groups[self@.current as int], data@) {
                Some(value) => result matches Some(found) && found@ == value,
                None => result is None,
            },
    {
        match self.expression.groups[self.current].apply(data) {
            Ok(new_data) => Some(new_data),
            Err(_) => None,
        }
    }

    /// Replaces the strategy of the last group.
    pub fn change_strategy(&mut self, s: DataStrategy)
        ensures
            final(self)@.groups == self::expression_of(old(self)@).change_strategy(s).groups,
            final(self)@.current == old(self)@.current,
    {
        self.expression.change_strategy(s);
    }

    /// Appends a group to the filter.
    pub fn add_group(&mut self, g: FilterGroup)
        ensures
            final(self)@.groups == self::expression_of(old(self)@).add_group(g@).groups,
            final(self)@.current == old(self)@.current,
    {
        self.expression.add_group(g);
    }

    /// Appends a set to the last group.
    pub fn add_set(&mut self, s: FilterSet)
        ensures
            final(self)@.groups == self::expression_of(old(self)@).add_set(s@).groups,
            final(self)@.current == old(self)@.current,
    {
        self.expression.add_set(s);
    }

    /// Appends a step to the last set of the last group.
    pub fn add(&mut self, t: FilterType)
        ensures
            final(self)@.groups == self::expression_of(old(self)@).add_filter(t@).groups,
            final(self)@.current == old(self)@.current,
    {
        self.expression.add_filter(t);
    }
}

/// The groups of a filter, as an expression.
pub open spec fn expression_of(filter: FilterView) -> crate::filter::expression::ExpressionView {
    crate::filter::expression::ExpressionView { groups: filter.groups }
}

} // verus!
