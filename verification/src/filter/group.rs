//! A group: sets combined by a strategy, one after the other or side by side.

use crate::dataset::{Data, DataView};
use crate::error::Error;
use crate::filter::set::{eval_set, lemma_set_keeps_wf, steps_text, FilterSet};
use crate::filter::step::{FilterType, StepView};
use crate::filter::{outcome_is, Filterable};
use vstd::prelude::*;
use vstd::string::*;

verus! {

/// How the sets of a group combine.
#[derive(Debug, Clone, Copy, PartialEq, Eq)]
pub enum DataStrategy {
    /// Each set works on what the set before it returned.
    Serial,
    /// Every set works on the input of the group, and the results are
    /// collected in an `Array`.
    Concat,
}

/// Sets and the strategy that combines them.
#[derive(Debug, Clone)]
pub struct FilterGroup {
    pub sets: Vec<FilterSet>,
    pub strategy: DataStrategy,
}

/// The mathematical value of a [`FilterGroup`].
pub struct GroupView {
    pub sets: Seq<Seq<StepView>>,
    pub strategy: DataStrategy,
}

impl View for FilterGroup {
    type V = GroupView;

    open spec fn view(&self) -> GroupView {
        GroupView { sets: self.sets@.map_values(|set: FilterSet| set@), strategy: self.strategy }
    }
}

impl GroupView {
    /// The serial group without sets.
    pub open spec fn empty() -> GroupView {
        GroupView { sets: Seq::empty(), strategy: DataStrategy::Serial }
    }

    /// The group with its strategy replaced.
    pub open spec fn set_strategy(self, strategy: DataStrategy) -> GroupView {
        GroupView { strategy, ..self }
    }

    /// The group with one more set at its end.
    pub open spec fn add(self, set: Seq<StepView>) -> GroupView {
        GroupView { sets: self.sets.push(set), ..self }
    }

    /// The group with `step` appended to its last set; a group without sets
    /// gets a set for it.
    pub open spec fn add_filter(self, step: StepView) -> GroupView {
        if self.sets.len() == 0 {
            GroupView { sets: seq![seq![step]], ..self }
        } else {
            GroupView { sets: self.sets.drop_last().push(self.sets.last().push(step)), ..self }
        }
    }

    /// The steps of all sets, in order.
    pub open spec fn flatten(self) -> Seq<StepView> {
        self.sets.flatten()
    }
}

/// What sets make of a value one after the other: each set works on what the
/// set before it returned.
pub open spec fn eval_serial(sets: Seq<Seq<StepView>>, input: DataView) -> Option<DataView>
    decreases sets.len(),
{
    if sets.len() == 0 {
        Some(input)
    } else {
        match eval_set(sets[0], input) {
            Some(value) => eval_serial(sets.drop_first(), value),
            None => None,
        }
    }
}

/// What sets make of a value side by side: the `Array` of what each set
/// makes of the value, in the order of the sets; `None` if any set fails.
pub open spec fn eval_concat(sets: Seq<Seq<StepView>>, input: DataView) -> Option<DataView> {
    if forall|i: int| 0 <= i < sets.len() ==> (#[trigger] eval_set(sets[i], input)) is Some {
        Some(DataView::Array(Seq::new(sets.len(), |i: int| eval_set(sets[i], input)->0)))
    } else {
        None
    }
}

/// What a group makes of a value, by its strategy.
pub open spec fn eval_group(group: GroupView, input: DataView) -> Option<DataView> {
    match group.strategy {
        DataStrategy::Serial => eval_serial(group.sets, input),
        DataStrategy::Concat => eval_concat(group.sets, input),
    }
}

/// A group that collects hands out the `Array` of what its sets make of its
/// input, each on its own and in their order, and fails as a whole if any
/// set fails.
pub proof fn lemma_fan_out(group: GroupView, input: DataView)
    requires
        group.strategy == DataStrategy::Concat,
    ensures
        (forall|i: int| 0 <= i < group.sets.len() ==> eval_set(group.sets[i], input) is Some)
            ==> eval_group(group, input) == Some(
            DataView::Array(
                Seq::new(group.sets.len(), |i: int| eval_set(group.sets[i], input)->0),
            ),
        ),
        (exists|i: int| 0 <= i < group.sets.len() && eval_set(group.sets[i], input) is None)
            ==> eval_group(group, input) is None,
{
}

proof fn lemma_serial_keeps_wf(sets: Seq<Seq<StepView>>, input: DataView)
    requires
        input.wf(),
    ensures
        eval_serial(sets, input) matches Some(value) ==> value.wf(),
    decreases sets.len(),
{
    if sets.len() > 0 {
        lemma_set_keeps_wf(sets[0], input);
        if eval_set(sets[0], input) is Some {
            lemma_serial_keeps_wf(sets.drop_first(), eval_set(sets[0], input)->0);
        }
    }
}

/// A group makes a well-formed value of a well-formed value.
pub proof fn lemma_group_keeps_wf(group: GroupView, input: DataView)
    requires
        input.wf(),
    ensures
        eval_group(group, input) matches Some(value) ==> value.wf(),
{
    match group.strategy {
        DataStrategy::Serial => {
            lemma_serial_keeps_wf(group.sets, input);
        },
        DataStrategy::Concat => {
            if eval_concat(group.sets, input) is Some {
                let items = eval_concat(group.sets, input)->0->Array_0;
                assert forall|i: int| 0 <= i < items.len() implies (#[trigger] items[i]).wf() by {
                    lemma_set_keeps_wf(group.sets[i], input);
                }
            }
        },
    }
}

/// Appending a step to a group appends it to the steps of the group.
pub proof fn lemma_group_add_filter_flatten(group: GroupView, step: StepView)
    ensures
        group.add_filter(step).flatten() == group.flatten().push(step),
{
    broadcast use Seq::lemma_flatten_push;

    if group.sets.len() > 0 {
        assert(group.sets =~= group.sets.drop_last().push(group.sets.last()));
    }
}

/// Appending an empty set to a group leaves the steps of the group as they
/// are.
pub proof fn lemma_group_add_empty_flatten(group: GroupView)
    ensures
        group.add(Seq::empty()).flatten() == group.flatten(),
{
    broadcast use Seq::lemma_flatten_push;
}

impl Default for FilterGroup {
    /// The serial group without sets.
    fn default() -> (group: FilterGroup)
        ensures
            group@ == GroupView::empty(),
    {
        let group = FilterGroup { sets: Vec::new(), strategy: DataStrategy::Serial };
        assert(group@.sets =~= Seq::empty());
        group
    }
}

/// The texts of `parts`, with `separator` between each two of them.
pub open spec fn joined(parts: Seq<Seq<char>>, separator: Seq<char>) -> Seq<char>
    decreases parts.len(),
{
    if parts.len() == 0 {
        Seq::empty()
    } else if parts.len() == 1 {
        parts[0]
    } else {
        joined(parts.drop_last(), separator) + separator + parts.last()
    }
}

impl DataStrategy {
    /// What stands between the sets of a group with this strategy: a comma
    /// where the group collects, and nothing where it chains.
    pub open spec fn separator(self) -> Seq<char> {
        match self {
            DataStrategy::Serial => ""@,
            DataStrategy::Concat => ","@,
        }
    }
}

impl GroupView {
    /// How the group is written: its sets, with the separator of its
    /// strategy between them.
    pub open spec fn text(self) -> Seq<char> {
        joined(self.sets.map_values(|set: Seq<StepView>| steps_text(set)), self.strategy.separator())
    }
}

impl FilterGroup {
    /// The group as it is written in an expression.
    pub fn to_text(&self) -> (text: String)
        ensures
            text@ == self@.text(),
    {
        let separator = match self.strategy {
            DataStrategy::Serial => "",
            DataStrategy::Concat => ",",
        };
        let ghost parts = self@.sets.map_values(|set: Seq<StepView>| steps_text(set));
        let mut text = String::new();
        let mut i: usize = 0;
        while i < self.sets.len()
            invariant
                i <= self.sets.len(),
                separator@ == self.strategy.separator(),
                parts == self@.sets.map_values(|set: Seq<StepView>| steps_text(set)),
                text@ == joined(parts.take(i as int), separator@),
            decreases self.sets.len() - i,
        {
            assert(parts.take(i + 1).drop_last() =~= parts.take(i as int));
            if i > 0 {
                text.append(separator);
            }
            text.append(self.sets[i].to_text().as_str());
            i += 1;
        }
        assert(parts.take(i as int) =~= parts);
        text
    }

    /// Replaces the strategy of the group.
    pub fn set_strategy(&mut self, s: DataStrategy)
        ensures
            final(self)@ == old(self)@.set_strategy(s),
    {
        self.strategy = s;
    }

    /// Appends a set to the group.
    pub fn add(&mut self, s: FilterSet)
        ensures
            final(self)@ == old(self)@.add(s@),
    {
        self.sets.push(s);
        assert(self@.sets =~= old(self)@.sets.push(s@));
    }

    /// Appends a step to the last set of the group; a group without sets
    /// gets a set for it.
    pub fn add_filter(&mut self, t: FilterType)
        ensures
            final(self)@ == old(self)@.add_filter(t@),
    {
        let mut last = match self.sets.pop() {
            Some(set) => set,
            None => FilterSet::default(),
        };
        last.add(t);
        self.sets.push(last);
        assert(self@.sets =~= old(self)@.add_filter(t@).sets);
    }

    /// Applies the sets one after the other.
    pub fn apply_serial(&self, input: Data) -> (result: Result<Data, Error>)
        ensures
            outcome_is(result, eval_serial(self@.sets, input@)),
    {
        let ghost sets = self@.sets;
        let mut data = input;
        let mut i: usize = 0;
        assert(sets.skip(0) =~= sets);
        while i < self.sets.len()
            invariant
                i <= self.sets.len(),
                sets == self@.sets,
                eval_serial(sets, input@) == eval_serial(sets.skip(i as int), data@),
            decreases self.sets.len() - i,
        {
            assert(sets.skip(i as int).drop_first() =~= sets.skip(i + 1));
            data = self.sets[i].apply(data)?;
            i += 1;
        }
        Ok(data)
    }

    /// Applies every set to the same value and collects what they return.
    pub fn apply_concat(&self, input: Data) -> (result: Result<Data, Error>)
        ensures
            outcome_is(result, eval_concat(self@.sets, input@)),
    {
        let ghost sets = self@.sets;
        let ghost given = input@;
        let mut data: Vec<Data> = Vec::new();
        let mut i: usize = 0;
        while i < self.sets.len()
            invariant
                i <= self.sets.len(),
                sets == self@.sets,
                given == input@,
                data.len() == i,
                forall|j: int| 0 <= j < i ==> (#[trigger] eval_set(sets[j], given)) is Some,
                forall|j: int| 0 <= j < i ==> (#[trigger] data[j])@ == eval_set(sets[j], given)->0,
            decreases self.sets.len() - i,
        {
            assert(sets[i as int] == self.sets[i as int]@);
            let new_data = self.sets[i].apply(input.clone())?;
            data.push(new_data);
            i += 1;
        }
        let collected = Data::Array(data);
        assert(collected@->Array_0 =~= eval_concat(sets, given)->0->Array_0);
        Ok(collected)
    }
}

impl Filterable for FilterGroup {
    open spec fn eval(&self, input: DataView) -> Option<DataView> {
        eval_group(self@, input)
    }

    fn apply(&self, data: Data) -> (result: Result<Data, Error>) {
        match self.strategy {
            DataStrategy::Serial => self.apply_serial(data),
            DataStrategy::Concat => self.apply_concat(data),
        }
    }
}

} // verus!
