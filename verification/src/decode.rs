//! From what a decoder found in a file to a document.
//!
//! A decoder of JSON or YAML hands over a [`Decoded`] value. It differs from
//! a document in three places: it may be null, a number comes with what it
//! is as a whole number and as a real, and an object may name a key twice.

use crate::dataset::{
    distinct_keys, entry_views, insert_entry, key_index, lemma_hash_view, lemma_key_index,
    lemma_put, put, Data, DataView,
};
use crate::error::{result_is, Error, ErrorView};
use vstd::prelude::*;
use vstd::string::*;

verus! {

/// What a decoder found.
#[derive(Debug, PartialEq)]
pub enum Decoded {
    Null,
    Boolean(bool),
    /// A number: its value as a 64-bit integer, where it has one, and the
    /// bit pattern of its value as a 32-bit real, where it has one.
    Number { whole: Option<i64>, bits: Option<u32> },
    String(String),
    Array(Vec<Decoded>),
    Object(Vec<(String, Decoded)>),
}

/// The mathematical value of a [`Decoded`].
pub enum DecodedView {
    Null,
    Boolean(bool),
    Number { whole: Option<i64>, bits: Option<u32> },
    String(Seq<char>),
    Array(Seq<DecodedView>),
    Object(Seq<(Seq<char>, DecodedView)>),
}

impl View for Decoded {
    type V = DecodedView;

    open spec fn view(&self) -> DecodedView
        decreases self,
    {
        match self {
            Decoded::Null => DecodedView::Null,
            Decoded::Boolean(flag) => DecodedView::Boolean(*flag),
            Decoded::Number { whole, bits } => DecodedView::Number { whole: *whole, bits: *bits },
            Decoded::String(text) => DecodedView::String(text@),
            Decoded::Array(items) => DecodedView::Array(
                Seq::new(
                    items.len() as nat,
                    |i: int|
                        if 0 <= i < items.len() {
                            items[i]@
                        } else {
                            arbitrary()
                        },
                ),
            ),
            Decoded::Object(entries) => DecodedView::Object(
                Seq::new(
                    entries.len() as nat,
                    |i: int|
                        if 0 <= i < entries.len() {
                            (entries[i].0@, entries[i].1@)
                        } else {
                            arbitrary()
                        },
                ),
            ),
        }
    }
}

/// The message for a value that is null.
pub open spec fn null_message() -> Seq<char> {
    "JSON is not an object or an array"@
}

/// The message for a number that is neither a whole number nor a real.
pub open spec fn number_message() -> Seq<char> {
    "invalid number: None"@
}

/// The document that a decoded value stands for.
///
/// A number is an `Integer` where it is a whole number, and a `Real`
/// otherwise; of two entries of an object with the same key the later one
/// counts; null is no document, and neither is a value that holds one. The
/// error is that of the first part, in the order of the text, that is no
/// document.
pub open spec fn document_of(raw: DecodedView) -> Result<DataView, ErrorView>
    decreases raw,
{
    match raw {
        DecodedView::Null => Err(ErrorView::Dataset(null_message())),
        DecodedView::Boolean(flag) => Ok(DataView::Boolean(flag)),
        DecodedView::Number { whole: Some(number), bits: _ } => Ok(DataView::Integer(number)),
        DecodedView::Number { whole: None, bits: Some(bits) } => Ok(DataView::Real(bits)),
        DecodedView::Number { whole: None, bits: None } => Err(
            ErrorView::Dataset(number_message()),
        ),
        DecodedView::String(text) => Ok(DataView::String(text)),
        DecodedView::Array(items) => match documents_of(items) {
            Ok(values) => Ok(DataView::Array(values)),
            Err(error) => Err(error),
        },
        DecodedView::Object(entries) => match entries_of(entries) {
            Ok(values) => Ok(DataView::Hash(values)),
            Err(error) => Err(error),
        },
    }
}

/// The documents that decoded values stand for, one for one.
pub open spec fn documents_of(items: Seq<DecodedView>) -> Result<Seq<DataView>, ErrorView>
    decreases items,
{
    if items.len() == 0 {
        Ok(Seq::empty())
    } else {
        match documents_of(items.drop_last()) {
            Err(error) => Err(error),
            Ok(before) => match document_of(items.last()) {
                Err(error) => Err(error),
                Ok(value) => Ok(before.push(value)),
            },
        }
    }
}

/// The entries of the `Hash` that the entries of an object stand for: each
/// key once, with the document of the last entry that names it.
pub open spec fn entries_of(entries: Seq<(Seq<char>, DecodedView)>) -> Result<
    Seq<(Seq<char>, DataView)>,
    ErrorView,
>
    decreases entries,
{
    if entries.len() == 0 {
        Ok(Seq::empty())
    } else {
        match entries_of(entries.drop_last()) {
            Err(error) => Err(error),
            Ok(before) => match document_of(entries.last().1) {
                Err(error) => Err(error),
                Ok(value) => Ok(put(before, entries.last().0, value)),
            },
        }
    }
}

/// Where the first `k` values hold one that is no document, the error of
/// all the values is the error of those.
proof fn lemma_first_bad_item(items: Seq<DecodedView>, k: int)
    requires
        0 <= k <= items.len(),
        documents_of(items.take(k)) is Err,
    ensures
        documents_of(items) == Err::<Seq<DataView>, ErrorView>(
            documents_of(items.take(k))->Err_0,
        ),
    decreases items.len() - k,
{
    if k < items.len() {
        assert(items.take(k + 1).drop_last() =~= items.take(k));
        lemma_first_bad_item(items, k + 1);
    } else {
        assert(items.take(k) =~= items);
    }
}

/// Where the first `k` entries hold one whose value is no document, the
/// error of all the entries is the error of those.
proof fn lemma_first_bad_entry(entries: Seq<(Seq<char>, DecodedView)>, k: int)
    requires
        0 <= k <= entries.len(),
        entries_of(entries.take(k)) is Err,
    ensures
        entries_of(entries) == Err::<Seq<(Seq<char>, DataView)>, ErrorView>(
            entries_of(entries.take(k))->Err_0,
        ),
    decreases entries.len() - k,
{
    if k < entries.len() {
        assert(entries.take(k + 1).drop_last() =~= entries.take(k));
        lemma_first_bad_entry(entries, k + 1);
    } else {
        assert(entries.take(k) =~= entries);
    }
}

/// The document of a decoded value is well formed: no `Hash` in it holds a
/// key twice.
pub proof fn lemma_document_is_wf(raw: DecodedView)
    ensures
        document_of(raw) matches Ok(document) ==> document.wf(),
    decreases raw,
{
    match raw {
        DecodedView::Array(items) => {
            lemma_documents_are_wf(items);
        },
        DecodedView::Object(entries) => {
            lemma_entries_are_wf(entries);
        },
        _ => {},
    }
}

proof fn lemma_documents_are_wf(items: Seq<DecodedView>)
    ensures
        documents_of(items) matches Ok(values) ==> forall|i: int|
            0 <= i < values.len() ==> (#[trigger] values[i]).wf(),
    decreases items,
{
    if items.len() > 0 {
        lemma_documents_are_wf(items.drop_last());
        lemma_document_is_wf(items.last());
    }
}

proof fn lemma_entries_are_wf(entries: Seq<(Seq<char>, DecodedView)>)
    ensures
        entries_of(entries) matches Ok(values) ==> distinct_keys(values) && forall|i: int|
            0 <= i < values.len() ==> (#[trigger] values[i]).1.wf(),
    decreases entries,
{
    if entries.len() > 0 {
        lemma_entries_are_wf(entries.drop_last());
        lemma_document_is_wf(entries.last().1);
        if entries_of(entries) is Ok {
            let before = entries_of(entries.drop_last())->Ok_0;
            let value = document_of(entries.last().1)->Ok_0;
            lemma_put(before, entries.last().0, value);
            lemma_key_index(before, entries.last().0);
            let at = key_index(before, entries.last().0);
            let after = put(before, entries.last().0, value);
            assert forall|i: int| 0 <= i < after.len() implies (#[trigger] after[i]).1.wf() by {
                if i != at {
                    assert(after[i] == before[i]);
                }
            }
        }
    }
}

/// Makes a document of a decoded value.
pub fn document_from(raw: &Decoded) -> (result: Result<Data, Error>)
    ensures
        result_is(result, document_of(raw@)),
    decreases raw,
{
    match raw {
        Decoded::Null => Err(
            Error::Dataset(String::from_str("JSON is not an object or an array")),
        ),
        Decoded::Boolean(flag) => Ok(Data::Boolean(*flag)),
        Decoded::Number { whole: Some(number), bits: _ } => Ok(Data::Integer(*number)),
        Decoded::Number { whole: None, bits: Some(bits) } => Ok(Data::Real(*bits)),
        Decoded::Number { whole: None, bits: None } => Err(
            Error::Dataset(String::from_str("invalid number: None")),
        ),
        Decoded::String(text) => Ok(Data::String(text.clone())),
        Decoded::Array(items) => {
            let ghost all = raw@->Array_0;
            proof {
                reveal_with_fuel(<Decoded as View>::view, 2);
                assert(all.take(0) =~= Seq::<DecodedView>::empty());
            }
            let mut values: Vec<Data> = Vec::new();
            let mut i: usize = 0;
            while i < items.len()
                invariant
                    i <= items.len(),
                    raw is Array,
                    raw->Array_0 == *items,
                    raw@ == DecodedView::Array(all),
                    all.len() == items.len(),
                    forall|j: int| 0 <= j < items.len() ==> #[trigger] all[j] == items[j]@,
                    documents_of(all.take(i as int)) is Ok,
                    documents_of(all.take(i as int))->Ok_0.len() == values.len(),
                    forall|j: int|
                        0 <= j < values.len() ==> (#[trigger] values[j])@ == documents_of(
                            all.take(i as int),
                        )->Ok_0[j],
                decreases items.len() - i,
            {
                proof {
                    assert(all.take(i + 1).drop_last() =~= all.take(i as int));
                    assert(all.take(i + 1).last() == items[i as int]@);
                    if document_of(items[i as int]@) is Err {
                        lemma_first_bad_item(all, i + 1);
                    }
                }
                let value = document_from(&items[i])?;
                values.push(value);
                i += 1;
            }
            let document = Data::Array(values);
            proof {
                reveal_with_fuel(<Data as View>::view, 2);
                assert(all.take(i as int) =~= all);
                assert(document@->Array_0 =~= documents_of(all)->Ok_0);
            }
            Ok(document)
        },
        Decoded::Object(entries) => {
            let ghost all = raw@->Object_0;
            proof {
                reveal_with_fuel(<Decoded as View>::view, 2);
                assert(all.take(0) =~= Seq::<(Seq<char>, DecodedView)>::empty());
            }
            let mut values: Vec<(String, Data)> = Vec::new();
            let mut i: usize = 0;
            assert(entry_views(values@) =~= Seq::empty());
            while i < entries.len()
                invariant
                    i <= entries.len(),
                    raw is Object,
                    raw->Object_0 == *entries,
                    raw@ == DecodedView::Object(all),
                    all.len() == entries.len(),
                    forall|j: int|
                        0 <= j < entries.len() ==> #[trigger] all[j] == (
                            entries[j].0@,
                            entries[j].1@,
                        ),
                    entries_of(all.take(i as int)) == Ok::<
                        Seq<(Seq<char>, DataView)>,
                        ErrorView,
                    >(entry_views(values@)),
                decreases entries.len() - i,
            {
                proof {
                    assert(all.take(i + 1).drop_last() =~= all.take(i as int));
                    assert(all.take(i + 1).last() == (entries[i as int].0@, entries[i as int].1@));
                    if document_of(entries[i as int].1@) is Err {
                        lemma_first_bad_entry(all, i + 1);
                    }
                }
                let value = document_from(&entries[i].1)?;
                insert_entry(&mut values, entries[i].0.clone(), value);
                i += 1;
            }
            proof {
                lemma_hash_view(values);
                assert(all.take(i as int) =~= all);
            }
            Ok(Data::Hash(values))
        },
    }
}

} // verus!
