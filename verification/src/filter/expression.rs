//! An expression: groups applied one after the other.

use crate::dataset::{Data, DataView};
use crate::error::Error;
use crate::filter::group::{
    eval_group, joined, lemma_group_keeps_wf, DataStrategy, FilterGroup, GroupView,
};
use crate::filter::set::FilterSet;
use crate::filter::step::{FilterType, StepView};
use crate::filter::Filterable;
use vstd::prelude::*;
use vstd::string::*;

verus! {

/// A compiled expression: a chain of groups.
#[derive(Debug, Clone)]
pub struct FilterExpression {
    pub groups: Vec<FilterGroup>,
}

/// The mathematical value of a [`FilterExpression`].
pub struct ExpressionView {
    pub groups: Seq<GroupView>,
}

impl View for FilterExpression {
    type V = ExpressionView;

    open spec fn view(&self) -> ExpressionView {
        ExpressionView { groups: self.groups@.map_values(|group: FilterGroup| group@) }
    }
}

impl ExpressionView {
    /// The expression that every compilation starts from: one serial group
    /// without sets.
    pub open spec fn initial() -> ExpressionView {
        ExpressionView { groups: seq![GroupView::empty()] }
    }

    /// The expression with the strategy of its last group replaced; an
    /// expression without groups stays as it is.
    pub open spec fn change_strategy(self, strategy: DataStrategy) -> ExpressionView {
        if self.groups.len() == 0 {
            self
        } else {
            ExpressionView {
                groups: self.groups.drop_last().push(self.groups.last().set_strategy(strategy)),
            }
        }
    }

    /// The expression with one more group at its end.
    pub open spec fn add_group(self, group: GroupView) -> ExpressionView {
        ExpressionView { groups: self.groups.push(group) }
    }

    /// The expression with `set` appended to its last group; an expression
    /// without groups gets a group for it.
    pub open spec fn add_set(self, set: Seq<StepView>) -> ExpressionView {
        if self.groups.len() == 0 {
            ExpressionView { groups: seq![GroupView::empty().add(set)] }
        } else {
            ExpressionView { groups: self.groups.drop_last().push(self.groups.last().add(set)) }
        }
    }

    /// The expression with `step` appended to the last set of its last
    /// group; where the group or the set is missing, it is made.
    pub open spec fn add_filter(self, step: StepView) -> ExpressionView {
        if self.groups.len() == 0 {
            ExpressionView { groups: seq![GroupView::empty().add_filter(step)] }
        } else {
            ExpressionView {
                groups: self.groups.drop_last().push(self.groups.last().add_filter(step)),
            }
        }
    }

    /// The steps of the expression, in the order of its groups and sets.
    pub open spec fn flatten(self) -> Seq<StepView> {
        self.groups.map_values(|group: GroupView| group.flatten()).flatten()
    }
}

/// What a chain of groups makes of a value: each group works on what the
/// group before it returned, and the chain fails as soon as one group fails.
pub open spec fn eval_groups(groups: Seq<GroupView>, input: DataView) -> Option<DataView>
    decreases groups.len(),
{
    if groups.len() == 0 {
        Some(input)
    } else {
        match eval_group(groups[0], input) {
            Some(value) => eval_groups(groups.drop_first(), value),
            None => None,
        }
    }
}

/// An expression makes a well-formed value of a well-formed value: what it
/// returns holds no key twice in a `Hash` if its input holds none.
pub proof fn lemma_expression_keeps_wf(groups: Seq<GroupView>, input: DataView)
    requires
        input.wf(),
    ensures
        eval_groups(groups, input) matches Some(value) ==> value.wf(),
    decreases groups.len(),
{
    if groups.len() > 0 {
        lemma_group_keeps_wf(groups[0], input);
        if eval_group(groups[0], input) is Some {
            lemma_expression_keeps_wf(groups.drop_first(), eval_group(groups[0], input)->0);
        }
    }
}

/// The steps of an expression with one more group are the steps of the
/// expression, followed by those of the group.
proof fn lemma_flatten_last(groups: Seq<GroupView>, last: GroupView)
    ensures
        (ExpressionView { groups: groups.push(last) }).flatten() == (ExpressionView {
            groups,
        }).flatten() + last.flatten(),
{
    broadcast use Seq::lemma_flatten_push;

    let flat = |group: GroupView| group.flatten();
    assert(groups.push(last).map_values(flat) =~= groups.map_values(flat).push(last.flatten()));
}

/// What the builders do to the steps of an expression: a step is appended
/// to them, and a new group, a new set or another strategy leaves them as
/// they are.
pub proof fn lemma_builders_keep_order(expression: ExpressionView, step: StepView)
    ensures
        ExpressionView::initial().flatten() == Seq::<StepView>::empty(),
        expression.add_filter(step).flatten() == expression.flatten().push(step),
        expression.add_group(GroupView::empty()).flatten() == expression.flatten(),
        expression.add_set(Seq::empty()).flatten() == expression.flatten(),
        forall|strategy: DataStrategy| #[trigger]
            expression.change_strategy(strategy).flatten() == expression.flatten(),
{
    broadcast use Seq::lemma_flatten_push;

    let none = ExpressionView { groups: Seq::empty() };
    lemma_flatten_last(none.groups, GroupView::empty());
    lemma_flatten_last(expression.groups, GroupView::empty());
    if expression.groups.len() == 0 {
        lemma_flatten_last(none.groups, GroupView::empty().add_filter(step));
        lemma_flatten_last(none.groups, GroupView::empty().add(Seq::empty()));
    } else {
        let before = expression.groups.drop_last();
        let last = expression.groups.last();
        assert(expression.groups =~= before.push(last));
        lemma_flatten_last(before, last);
        lemma_flatten_last(before, last.add_filter(step));
        lemma_flatten_last(before, last.add(Seq::empty()));
        crate::filter::group::lemma_group_add_filter_flatten(last, step);
        assert forall|strategy: DataStrategy| #[trigger]
            expression.change_strategy(strategy).flatten() == expression.flatten() by {
            lemma_flatten_last(before, last.set_strategy(strategy));
        }
    }
}

impl Default for FilterExpression {
    /// The expression of one serial group without sets.
    fn default() -> (expression: FilterExpression)
        ensures
            expression@ == ExpressionView::initial(),
    {
        let mut groups: Vec<FilterGroup> = Vec::new();
        groups.push(FilterGroup::default());
        let expression = FilterExpression { groups };
        assert(expression@.groups =~= ExpressionView::initial().groups);
        expression
    }
}

impl ExpressionView {
    /// How the expression is written: its groups, with a bar between each
    /// two of them.
    pub open spec fn text(self) -> Seq<char> {
        joined(self.groups.map_values(|group: GroupView| group.text()), "|"@)
    }
}

impl FilterExpression {
    /// The expression as it is written.
    pub fn to_text(&self) -> (text: String)
        ensures
            text@ == self@.text(),
    {
        let ghost parts = self@.groups.map_values(|group: GroupView| group.text());
        let mut text = String::new();
        let mut i: usize = 0;
        while i < self.groups.len()
            invariant
                i <= self.groups.len(),
                parts == self@.groups.map_values(|group: GroupView| group.text()),
                text@ == joined(parts.take(i as int), "|"@),
            decreases self.groups.len() - i,
        {
            assert(parts.take(i + 1).drop_last() =~= parts.take(i as int));
            if i > 0 {
                text.append("|");
            }
            text.append(self.groups[i].to_text().as_str());
            i += 1;
        }
        assert(parts.take(i as int) =~= parts);
        text
    }

    /// Replaces the strategy of the last group.
    pub fn change_strategy(&mut self, s: DataStrategy)
        ensures
            final(self)@ == old(self)@.change_strategy(s),
    {
        if let Some(mut last) = self.groups.pop() {
            last.set_strategy(s);
            self.groups.push(last);
            assert(self@.groups =~= old(self)@.change_strategy(s).groups);
        }
    }

    /// Appends a group to the expression.
    pub fn add_group(&mut self, g: FilterGroup)
        ensures
            final(self)@ == old(self)@.add_group(g@),
    {
        self.groups.push(g);
        assert(self@.groups =~= old(self)@.groups.push(g@));
    }

    /// Appends a set to the last group.
    pub fn add_set(&mut self, s: FilterSet)
        ensures
            final(self)@ == old(self)@.add_set(s@),
    {
        let mut last = match self.groups.pop() {
            Some(group) => group,
            None => FilterGroup::default(),
        };
        last.add(s);
        self.groups.push(last);
        assert(self@.groups =~= old(self)@.add_set(s@).groups);
    }

    /// Appends a step to the last set of the last group.
    pub fn add_filter(&mut self, t: FilterType)
        ensures
            final(self)@ == old(self)@.add_filter(t@),
    {
        let mut last = match self.groups.pop() {
            Some(group) => group,
            None => FilterGroup::default(),
        };
        last.add_filter(t);
        self.groups.push(last);
        assert(self@.groups =~= old(self)@.add_filter(t@).groups);
    }
}

impl Filterable for FilterExpression {
    open spec fn eval(&self, input: DataView) -> Option<DataView> {
        eval_groups(self@.groups, input)
    }

    fn apply(&self, data: Data) -> (result: Result<Data, Error>) {
        let ghost groups = self@.groups;
        let mut current = data;
        let mut i: usize = 0;
        assert(groups.skip(0) =~= groups);
        while i < self.groups.len()
            invariant
                i <= self.groups.len(),
                groups == self@.groups,
                eval_groups(groups, data@) == eval_groups(groups.skip(i as int), current@),
            decreases self.groups.len() - i,
        {
            assert(groups.skip(i as int).drop_first() =~= groups.skip(i + 1));
            current = self.groups[i].apply(current)?;
            i += 1;
        }
        Ok(current)
    }
}

} // verus!
