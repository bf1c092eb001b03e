//! The steps: the atomic operations of which every filter is made.

use crate::dataset::{key_index, lemma_key_index, Data, DataView};
use crate::error::Error;
use crate::filter::{outcome_is, Filterable};
use crate::number::{decimal_text, push_decimal};
use vstd::prelude::*;
use vstd::string::*;

verus! {

/// One step of a traversal.
#[derive(Debug, Clone, PartialEq)]
pub enum FilterType {
    /// Passes the value through.
    Current,
    /// Passes an `Array` through and fails on anything else.
    Array,
    /// The indices of an `Array`, or the keys of a `Hash`.
    Keys,
    /// The element of an `Array` at the given index.
    Member(usize),
    /// The value of a `Hash` under the given key; of an `Array`, the values
    /// under that key of the elements that have it.
    Entry(String),
    /// The elements of an `Array` from the first index up to the second,
    /// where a second index of 0 stands for the end of the `Array`.
    Range(usize, usize),
}

/// The mathematical value of a [`FilterType`].
pub enum StepView {
    Current,
    Array,
    Keys,
    Member(nat),
    Entry(Seq<char>),
    Range(nat, nat),
}

impl View for FilterType {
    type V = StepView;

    open spec fn view(&self) -> StepView {
        match self {
            FilterType::Current => StepView::Current,
            FilterType::Array => StepView::Array,
            FilterType::Keys => StepView::Keys,
            FilterType::Member(index) => StepView::Member(*index as nat),
            FilterType::Entry(name) => StepView::Entry(name@),
            FilterType::Range(start, end) => StepView::Range(*start as nat, *end as nat),
        }
    }
}

impl StepView {
    /// How the step is written.
    pub open spec fn text(self) -> Seq<char> {
        match self {
            StepView::Current => "."@,
            StepView::Array => "[]"@,
            StepView::Keys => "keys"@,
            StepView::Member(index) => "["@ + decimal_text(index) + "]"@,
            StepView::Entry(name) => "[\""@ + name + "\"]"@,
            StepView::Range(start, end) => "["@ + decimal_text(start) + ":"@ + decimal_text(end)
                + "]"@,
        }
    }
}

/// The values under `name` of those elements of `items` that are a `Hash`
/// with that key, in the order of the elements.
pub open spec fn pluck(items: Seq<DataView>, name: Seq<char>) -> Seq<DataView>
    decreases items.len(),
{
    if items.len() == 0 {
        Seq::empty()
    } else {
        let before = pluck(items.drop_last(), name);
        match items.last().field(name) {
            Some(value) => before.push(value),
            None => before,
        }
    }
}

/// The indices of a sequence of `len` elements, as values.
pub open spec fn indices(len: nat) -> Seq<DataView> {
    Seq::new(len, |i: int| DataView::Integer(i as i64))
}

/// The keys of `entries`, as values, in the order of the entries.
pub open spec fn key_values(entries: Seq<(Seq<char>, DataView)>) -> Seq<DataView> {
    Seq::new(entries.len(), |i: int| DataView::String(entries[i].0))
}

/// The elements of `items` whose index `i` has `start <= i < end`, where an
/// `end` of 0 stands for the length of `items`.
pub open spec fn slice(items: Seq<DataView>, start: nat, end: nat) -> Seq<DataView> {
    let stop = if end > 0 && end < items.len() {
        end
    } else {
        items.len()
    };
    if start < stop {
        items.subrange(start as int, stop as int)
    } else {
        Seq::empty()
    }
}

/// What a step makes of a value, or `None` where the step fails.
///
/// `Keys` fails on an `Array` with more elements than a 64-bit signed integer
/// can count, since its indices would not be values.
pub open spec fn eval_step(step: StepView, input: DataView) -> Option<DataView> {
    match step {
        StepView::Current => Some(input),
        StepView::Array => if input is Array {
            Some(input)
        } else {
            None
        },
        StepView::Keys => match input {
            DataView::Array(items) => if items.len() <= i64::MAX {
                Some(DataView::Array(indices(items.len())))
            } else {
                None
            },
            DataView::Hash(entries) => Some(DataView::Array(key_values(entries))),
            _ => None,
        },
        StepView::Member(index) => match input {
            DataView::Array(items) => if index < items.len() {
                Some(items[index as int])
            } else {
                None
            },
            _ => None,
        },
        StepView::Entry(name) => match input {
            DataView::Hash(entries) => input.field(name),
            DataView::Array(items) => Some(DataView::Array(pluck(items, name))),
            _ => None,
        },
        StepView::Range(start, end) => match input {
            DataView::Array(items) => Some(DataView::Array(slice(items, start, end))),
            _ => None,
        },
    }
}

proof fn lemma_pluck_keeps_wf(items: Seq<DataView>, name: Seq<char>)
    requires
        forall|i: int| 0 <= i < items.len() ==> (#[trigger] items[i]).wf(),
    ensures
        forall|j: int|
            0 <= j < pluck(items, name).len() ==> (#[trigger] pluck(items, name)[j]).wf(),
    decreases items.len(),
{
    if items.len() > 0 {
        let before = items.drop_last();
        assert forall|i: int| 0 <= i < before.len() implies (#[trigger] before[i]).wf() by {}
        lemma_pluck_keeps_wf(before, name);
        if items.last().field(name) is Some {
            lemma_key_index(items.last()->Hash_0, name);
        }
        let earlier = pluck(before, name);
        let all = pluck(items, name);
        assert forall|j: int| 0 <= j < all.len() implies (#[trigger] all[j]).wf() by {
            if j < earlier.len() {
                assert(all[j] == earlier[j]);
            }
        }
    }
}

/// A step makes a well-formed value of a well-formed value: no step brings
/// a key twice into a `Hash`.
pub proof fn lemma_step_keeps_wf(step: StepView, input: DataView)
    requires
        input.wf(),
    ensures
        eval_step(step, input) matches Some(value) ==> value.wf(),
{
    if eval_step(step, input) is Some {
        match (step, input) {
            (StepView::Keys, _) => {
                let keys = eval_step(step, input)->0->Array_0;
                assert forall|i: int| 0 <= i < keys.len() implies (#[trigger] keys[i]).wf() by {}
            },
            (StepView::Entry(name), DataView::Hash(entries)) => {
                lemma_key_index(entries, name);
            },
            (StepView::Entry(name), DataView::Array(items)) => {
                lemma_pluck_keeps_wf(items, name);
            },
            (StepView::Range(start, end), DataView::Array(items)) => {
                let part = slice(items, start, end);
                assert forall|i: int| 0 <= i < part.len() implies (#[trigger] part[i]).wf() by {}
            },
            _ => {},
        }
    }
}

/// `Current` hands every value back as it is.
pub proof fn lemma_current_is_identity(input: DataView)
    ensures
        eval_step(StepView::Current, input) == Some(input),
{
}

/// What the bounds of a `Range` select from an `Array` of `n` elements: two
/// zeros the whole `Array`; a start `k` and a zero the elements from `k` to
/// the end; bounds `a` and `b` with `0 < a < b <= n` the elements from `a`
/// up to `b`.
pub proof fn lemma_range_bounds(items: Seq<DataView>, start: nat, end: nat)
    ensures
        eval_step(StepView::Range(0, 0), DataView::Array(items)) == Some(DataView::Array(items)),
        start <= items.len() ==> eval_step(StepView::Range(start, 0), DataView::Array(items))
            == Some(DataView::Array(items.subrange(start as int, items.len() as int))),
        start > items.len() ==> eval_step(StepView::Range(start, 0), DataView::Array(items))
            == Some(DataView::Array(Seq::empty())),
        0 < start < end <= items.len() ==> eval_step(
            StepView::Range(start, end),
            DataView::Array(items),
        ) == Some(DataView::Array(items.subrange(start as int, end as int))),
{
    assert(slice(items, 0, 0) =~= items);
    if start <= items.len() {
        assert(slice(items, start, 0) =~= items.subrange(start as int, items.len() as int));
    }
}

impl FilterType {
    /// The step as it is written in an expression.
    pub fn to_text(&self) -> (text: String)
        ensures
            text@ == self@.text(),
    {
        match self {
            FilterType::Current => String::from_str("."),
            FilterType::Array => String::from_str("[]"),
            FilterType::Keys => String::from_str("keys"),
            FilterType::Member(index) => {
                let mut text = String::from_str("[");
                push_decimal(&mut text, *index);
                text.append("]");
                text
            },
            FilterType::Entry(name) => {
                let mut text = String::from_str("[\"");
                text.append(name.as_str());
                text.append("\"]");
                text
            },
            FilterType::Range(start, end) => {
                let mut text = String::from_str("[");
                push_decimal(&mut text, *start);
                text.append(":");
                push_decimal(&mut text, *end);
                text.append("]");
                text
            },
        }
    }

    /// The step `Array`: an `Array` passes, anything else fails.
    pub fn array(&self, data: Data) -> (result: Result<Data, Error>)
        ensures
            outcome_is(result, eval_step(StepView::Array, data@)),
    {
        match data {
            Data::Array(items) => Ok(Data::Array(items)),
            _ => Err(Error::Filter),
        }
    }

    /// The step `Keys`: the indices of an `Array`, the keys of a `Hash`.
    pub fn keys(&self, data: Data) -> (result: Result<Data, Error>)
        ensures
            outcome_is(result, eval_step(StepView::Keys, data@)),
    {
        proof {
            reveal_with_fuel(<Data as View>::view, 2);
        }
        match data {
            Data::Array(items) => {
                let len = items.len();
                if len as u64 > 0x7fff_ffff_ffff_ffffu64 {
                    return Err(Error::Filter);
                }
                let mut list: Vec<Data> = Vec::new();
                let mut index: usize = 0;
                while index < len
                    invariant
                        index <= len <= i64::MAX,
                        list.len() == index,
                        forall|j: int|
                            0 <= j < index ==> (#[trigger] list[j])@ == DataView::Integer(j as i64),
                    decreases len - index,
                {
                    list.push(Data::Integer(index as i64));
                    index += 1;
                }
                let keys = Data::Array(list);
                assert(keys@->Array_0 =~= indices(len as nat));
                Ok(keys)
            },
            Data::Hash(entries) => {
                let ghost all = data@->Hash_0;
                let mut list: Vec<Data> = Vec::new();
                let mut index: usize = 0;
                while index < entries.len()
                    invariant
                        index <= entries.len(),
                        list.len() == index,
                        forall|j: int|
                            0 <= j < index ==> (#[trigger] list[j])@ == DataView::String(
                                entries[j].0@,
                            ),
                    decreases entries.len() - index,
                {
                    list.push(Data::String(entries[index].0.clone()));
                    index += 1;
                }
                let keys = Data::Array(list);
                assert(keys@->Array_0 =~= key_values(all));
                Ok(keys)
            },
            _ => Err(Error::Filter),
        }
    }

    /// The step `Member`: the element of an `Array` at `idx`.
    pub fn member(&self, data: Data, idx: usize) -> (result: Result<Data, Error>)
        ensures
            outcome_is(result, eval_step(StepView::Member(idx as nat), data@)),
    {
        proof {
            reveal_with_fuel(<Data as View>::view, 2);
        }
        match data {
            Data::Array(items) => {
                if idx < items.len() {
                    Ok(items[idx].clone())
                } else {
                    Err(Error::Filter)
                }
            },
            _ => Err(Error::Filter),
        }
    }

    /// The step `Entry`: the value of a `Hash` under `name`; of an `Array`,
    /// the values under `name` of the elements that have one.
    pub fn entry(&self, data: Data, name: String) -> (result: Result<Data, Error>)
        ensures
            outcome_is(result, eval_step(StepView::Entry(name@), data@)),
    {
        proof {
            reveal_with_fuel(<Data as View>::view, 2);
        }
        match &data {
            Data::Hash(_) => {
                match data.get(&name) {
                    Some(value) => Ok(value.clone()),
                    None => Err(Error::Filter),
                }
            },
            Data::Array(items) => {
                let ghost all = data@->Array_0;
                let mut found: Vec<Data> = Vec::new();
                let mut index: usize = 0;
                while index < items.len()
                    invariant
                        index <= items.len(),
                        all.len() == items.len(),
                        forall|j: int| 0 <= j < items.len() ==> #[trigger] all[j] == items[j]@,
                        found.len() == pluck(all.take(index as int), name@).len(),
                        forall|j: int|
                            0 <= j < found.len() ==> (#[trigger] found[j])@ == pluck(
                                all.take(index as int),
                                name@,
                            )[j],
                    decreases items.len() - index,
                {
                    assert(all.take(index + 1).drop_last() =~= all.take(index as int));
                    if let Some(value) = items[index].get(&name) {
                        found.push(value.clone());
                    }
                    index += 1;
                }
                assert(all.take(index as int) =~= all);
                let values = Data::Array(found);
                assert(values@->Array_0 =~= pluck(all, name@));
                Ok(values)
            },
            _ => Err(Error::Filter),
        }
    }

    /// The step `Range`: the elements of an `Array` from `start` up to `end`,
    /// or up to its last element where `end` is 0.
    pub fn range(&self, data: Data, start: usize, end: usize) -> (result: Result<Data, Error>)
        ensures
            outcome_is(result, eval_step(StepView::Range(start as nat, end as nat), data@)),
    {
        proof {
            reveal_with_fuel(<Data as View>::view, 2);
        }
        match data {
            Data::Array(items) => {
                let ghost all = data@->Array_0;
                let stop = if end > 0 && end < items.len() {
                    end
                } else {
                    items.len()
                };
                let mut list: Vec<Data> = Vec::new();
                let mut index: usize = start;
                while index < stop
                    invariant
                        start <= index,
                        stop <= items.len(),
                        start < stop ==> index <= stop,
                        list.len() == (if start < stop {
                            index - start
                        } else {
                            0
                        }),
                        forall|j: int| 0 <= j < list.len() ==> (#[trigger] list[j])@ == items[start + j]@,
                    decreases stop - index,
                {
                    list.push(items[index].clone());
                    index += 1;
                }
                let part = Data::Array(list);
                assert(part@->Array_0 =~= slice(all, start as nat, end as nat));
                Ok(part)
            },
            _ => Err(Error::Filter),
        }
    }
}

impl Filterable for FilterType {
    open spec fn eval(&self, input: DataView) -> Option<DataView> {
        eval_step(self@, input)
    }

    fn apply(&self, data: Data) -> (result: Result<Data, Error>) {
        match self {
            FilterType::Current => Ok(data),
            FilterType::Array => self.array(data),
            FilterType::Range(start, end) => self.range(data, *start, *end),
            FilterType::Keys => self.keys(data),
            FilterType::Member(index) => self.member(data, *index),
            FilterType::Entry(name) => self.entry(data, name.clone()),
        }
    }
}

} // verus!
