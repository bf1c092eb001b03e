//! The document model: the values that every filter reads and produces.

use crate::error::{Error, ErrorView};
use crate::std_specs::{may_be_extension, path_extension, plain_extension, plain_name, text_of};
use vstd::prelude::*;
use vstd::string::*;

verus! {

/// A document value.
///
/// A `Hash` holds its entries in a vector; in a well-formed value no key
/// occurs twice (see [`DataView::wf`]). A `Real` holds the bit pattern of a
/// 32-bit IEEE 754 number, which filters carry along and never inspect.
#[derive(Debug, PartialEq)]
pub enum Data {
    Hash(Vec<(String, Data)>),
    Array(Vec<Data>),
    String(String),
    Integer(i64),
    Real(u32),
    Boolean(bool),
}

/// The mathematical value that a [`Data`] stands for.
pub enum DataView {
    Hash(Seq<(Seq<char>, DataView)>),
    Array(Seq<DataView>),
    String(Seq<char>),
    Integer(i64),
    Real(u32),
    Boolean(bool),
}

impl View for Data {
    type V = DataView;

    open spec fn view(&self) -> DataView
        decreases self,
    {
        match self {
            Data::Hash(entries) => DataView::Hash(
                Seq::new(
                    entries.len() as nat,
                    |i: int|
                        if 0 <= i < entries.len() {
                            (entries[i].0@, entries[i].1@)
                        } else {
                            arbitrary()
                        },
                ),
            ),
            Data::Array(items) => DataView::Array(
                Seq::new(
                    items.len() as nat,
                    |i: int|
                        if 0 <= i < items.len() {
                            items[i]@
                        } else {
                            arbitrary()
                        },
                ),
            ),
            Data::String(s) => DataView::String(s@),
            Data::Integer(n) => DataView::Integer(*n),
            Data::Real(bits) => DataView::Real(*bits),
            Data::Boolean(b) => DataView::Boolean(*b),
        }
    }
}

/// The value of the first entry of `entries` whose key is `name`.
pub open spec fn lookup(entries: Seq<(Seq<char>, DataView)>, name: Seq<char>) -> Option<DataView>
    decreases entries.len(),
{
    if entries.len() == 0 {
        None
    } else if entries[0].0 == name {
        Some(entries[0].1)
    } else {
        lookup(entries.drop_first(), name)
    }
}

/// Whether no key occurs twice among `entries`.
pub open spec fn distinct_keys(entries: Seq<(Seq<char>, DataView)>) -> bool {
    forall|i: int, j: int|
        0 <= i < j < entries.len() ==> (#[trigger] entries[i]).0 != (#[trigger] entries[j]).0
}

impl DataView {
    /// The value that a `Hash` holds under `name`; `None` where there is no
    /// such entry, or the value is no `Hash`.
    pub open spec fn field(self, name: Seq<char>) -> Option<DataView> {
        match self {
            DataView::Hash(entries) => lookup(entries, name),
            _ => None,
        }
    }

    /// Whether the value is well formed: no `Hash` in it, at any depth, holds
    /// a key twice.
    pub open spec fn wf(self) -> bool
        decreases self,
    {
        match self {
            DataView::Hash(entries) => distinct_keys(entries) && forall|i: int|
                0 <= i < entries.len() ==> (#[trigger] entries[i]).1.wf(),
            DataView::Array(items) => forall|i: int|
                0 <= i < items.len() ==> (#[trigger] items[i]).wf(),
            _ => true,
        }
    }
}

/// The index of the first entry of `entries` whose key is `name`, or the
/// number of entries if there is none.
pub open spec fn key_index(entries: Seq<(Seq<char>, DataView)>, name: Seq<char>) -> int
    decreases entries.len(),
{
    if entries.len() == 0 {
        0
    } else if entries[0].0 == name {
        0
    } else {
        1 + key_index(entries.drop_first(), name)
    }
}

/// The entries with `value` under `name`: in the place of the entry with
/// that key, or behind the last entry where there is none.
pub open spec fn put(entries: Seq<(Seq<char>, DataView)>, name: Seq<char>, value: DataView) -> Seq<
    (Seq<char>, DataView),
> {
    let at = key_index(entries, name);
    if at < entries.len() {
        entries.update(at, (name, value))
    } else {
        entries.push((name, value))
    }
}

/// The views of the entries of a `Hash`.
pub open spec fn entry_views(entries: Seq<(String, Data)>) -> Seq<(Seq<char>, DataView)> {
    entries.map_values(|entry: (String, Data)| (entry.0@, entry.1@))
}

/// The view of a `Hash` is made of the views of its entries.
pub proof fn lemma_hash_view(entries: Vec<(String, Data)>)
    ensures
        Data::Hash(entries)@ == DataView::Hash(entry_views(entries@)),
{
    reveal_with_fuel(<Data as View>::view, 2);
    assert(Data::Hash(entries)@->Hash_0 =~= entry_views(entries@));
}

/// Where the first entry with a key stands: no entry before it has the key,
/// and it has the key itself unless it is past the last entry.
pub proof fn lemma_key_index(entries: Seq<(Seq<char>, DataView)>, name: Seq<char>)
    ensures
        0 <= key_index(entries, name) <= entries.len(),
        forall|i: int| 0 <= i < key_index(entries, name) ==> (#[trigger] entries[i]).0 != name,
        key_index(entries, name) < entries.len() ==> entries[key_index(entries, name)].0 == name,
        lookup(entries, name) == (if key_index(entries, name) < entries.len() {
            Some(entries[key_index(entries, name)].1)
        } else {
            None
        }),
    decreases entries.len(),
{
    if entries.len() > 0 && entries[0].0 != name {
        let rest = entries.drop_first();
        lemma_key_index(rest, name);
        assert forall|i: int| 0 <= i < key_index(entries, name) implies (#[trigger] entries[i]).0
            != name by {
            if i > 0 {
                assert(entries[i] == rest[i - 1]);
            }
        }
    }
}

/// Putting a value under a key keeps the keys distinct, makes the value the
/// one that is found under the key, and leaves what is found under every
/// other key as it was.
pub proof fn lemma_put(entries: Seq<(Seq<char>, DataView)>, name: Seq<char>, value: DataView)
    ensures
        distinct_keys(entries) ==> distinct_keys(put(entries, name, value)),
        lookup(put(entries, name, value), name) == Some(value),
        forall|other: Seq<char>|
            other != name ==> #[trigger] lookup(put(entries, name, value), other) == lookup(
                entries,
                other,
            ),
{
    let after = put(entries, name, value);
    let at = key_index(entries, name);
    lemma_key_index(entries, name);
    lemma_key_index(after, name);
    assert(after[at] == (name, value));
    assert(key_index(after, name) == at);
    assert forall|other: Seq<char>| other != name implies #[trigger] lookup(after, other)
        == lookup(entries, other) by {
        lemma_key_index(entries, other);
        lemma_key_index(after, other);
        let before_at = key_index(entries, other);
        if before_at < entries.len() {
            assert(after[before_at] == entries[before_at]);
        }
    }
}

/// Puts `value` under `key` among the entries of a `Hash`: in the place of
/// the entry with that key, or behind the last entry where there is none.
pub fn insert_entry(entries: &mut Vec<(String, Data)>, key: String, value: Data)
    ensures
        entry_views(final(entries)@) == put(entry_views(old(entries)@), key@, value@),
{
    let ghost before = entry_views(entries@);
    let mut i: usize = 0;
    assert(before.skip(0) =~= before);
    while i < entries.len()
        invariant
            i <= entries.len(),
            entries@ == old(entries)@,
            before == entry_views(entries@),
            key_index(before, key@) == i + key_index(before.skip(i as int), key@),
        decreases entries.len() - i,
    {
        assert(before.skip(i as int).drop_first() =~= before.skip(i + 1));
        if entries[i].0 == key {
            entries.set(i, (key, value));
            return ;
        }
        i += 1;
    }
    entries.push((key, value));
}

/// The formats in which a document can be stored.
#[derive(Debug, Clone, Copy, PartialEq, Eq)]
pub enum Format {
    Yaml,
    Json,
}

/// The message for a file name without an extension.
pub open spec fn missing_extension_message() -> Seq<char> {
    "missing file extension"@
}

/// The message for a file name with an extension that names no format.
pub open spec fn unknown_extension_message(extension: Seq<char>) -> Seq<char> {
    "unknown file extension: "@ + extension
}

/// The format that the extension of a file name stands for: `yaml` and
/// `yml` for YAML, `json` for JSON.
pub open spec fn format_of(extension: Option<Seq<char>>) -> Result<Format, ErrorView> {
    match extension {
        None => Err(ErrorView::Dataset(missing_extension_message())),
        Some(text) => if text == "yaml"@ || text == "yml"@ {
            Ok(Format::Yaml)
        } else if text == "json"@ {
            Ok(Format::Json)
        } else {
            Err(ErrorView::Dataset(unknown_extension_message(text)))
        },
    }
}

/// Whether what a function returned is the format, or the error, that
/// `expected` says.
pub open spec fn format_is(result: Result<Format, Error>, expected: Result<Format, ErrorView>) -> bool {
    match expected {
        Ok(format) => result == Ok::<Format, Error>(format),
        Err(error) => result matches Err(found) && found@ == error,
    }
}

/// The format that the extension of a file name stands for.
pub fn format_for(extension: Option<&str>) -> (result: Result<Format, Error>)
    ensures
        format_is(
            result,
            format_of(
                match extension {
                    Some(text) => Some(text@),
                    None => None,
                },
            ),
        ),
{
    match extension {
        None => Err(Error::Dataset(String::from_str("missing file extension"))),
        Some(text) => {
            let found = String::from_str(text);
            if found == String::from_str("yaml") || found == String::from_str("yml") {
                Ok(Format::Yaml)
            } else if found == String::from_str("json") {
                Ok(Format::Json)
            } else {
                Err(Error::Dataset(String::from_str("unknown file extension: ").concat(text)))
            }
        },
    }
}

/// The format of the file `filename`, by its extension.
///
/// The extension of a plain name is what follows its last dot. In a path
/// of several parts it is for the platform to say what counts as the
/// extension: the format is then the one of some text that the platform can
/// take for it.
pub fn detect_format(filename: &str) -> (result: Result<Format, Error>)
    ensures
        plain_name(filename@) ==> format_is(result, format_of(plain_extension(filename@))),
        exists|extension: Option<Seq<char>>| #[trigger]
            may_be_extension(filename@, extension) && format_is(result, format_of(extension)),
{
    match &path_extension(filename) {
        Some(text) => format_for(Some(text.as_str())),
        None => format_for(None),
    }
}

/// The document that a file of several documents stands for: the one
/// document where there is one, and else the `Array` of them all.
pub fn merge_documents(documents: Vec<Data>) -> (data: Data)
    ensures
        documents.len() == 1 ==> data@ == documents[0]@,
        documents.len() != 1 ==> data@ == DataView::Array(
            documents@.map_values(|document: Data| document@),
        ),
{
    let mut rest = documents;
    if rest.len() == 1 {
        match rest.pop() {
            Some(only) => only,
            None => Data::Array(rest),
        }
    } else {
        let all = Data::Array(rest);
        assert(all@->Array_0 =~= documents@.map_values(|document: Data| document@)) by {
            reveal_with_fuel(<Data as View>::view, 2);
        }
        all
    }
}

impl Clone for Data {
    /// A copy of the whole value.
    fn clone(&self) -> (copy: Data)
        ensures
            copy@ == self@,
        decreases self,
    {
        match self {
            Data::Hash(entries) => {
                let mut copies: Vec<(String, Data)> = Vec::new();
                let mut i: usize = 0;
                while i < entries.len()
                    invariant
                        i <= entries.len(),
                        copies.len() == i,
                        forall|j: int|
                            0 <= j < i ==> (#[trigger] copies[j]).0@ == entries[j].0@ && copies[j].1@
                                == entries[j].1@,
                        self is Hash,
                        self->Hash_0 == *entries,
                    decreases entries.len() - i,
                {
                    copies.push((entries[i].0.clone(), entries[i].1.clone()));
                    i += 1;
                }
                let copy = Data::Hash(copies);
                assert(copy@ == self@) by {
                    reveal_with_fuel(<Data as View>::view, 2);
                    assert(copy@->Hash_0 =~= self@->Hash_0);
                }
                copy
            },
            Data::Array(items) => {
                let mut copies: Vec<Data> = Vec::new();
                let mut i: usize = 0;
                while i < items.len()
                    invariant
                        i <= items.len(),
                        copies.len() == i,
                        forall|j: int| 0 <= j < i ==> (#[trigger] copies[j])@ == items[j]@,
                        self is Array,
                        self->Array_0 == *items,
                    decreases items.len() - i,
                {
                    copies.push(items[i].clone());
                    i += 1;
                }
                let copy = Data::Array(copies);
                assert(copy@ == self@) by {
                    reveal_with_fuel(<Data as View>::view, 2);
                    assert(copy@->Array_0 =~= self@->Array_0);
                }
                copy
            },
            Data::String(s) => Data::String(s.clone()),
            Data::Integer(n) => Data::Integer(*n),
            Data::Real(bits) => Data::Real(*bits),
            Data::Boolean(b) => Data::Boolean(*b),
        }
    }
}

/// Whether no key occurs twice among the entries.
fn keys_are_distinct(entries: &Vec<(String, Data)>) -> (distinct: bool)
    ensures
        distinct == distinct_keys(entry_views(entries@)),
{
    let ghost views = entry_views(entries@);
    let mut j: usize = 0;
    while j < entries.len()
        invariant
            j <= entries.len(),
            views == entry_views(entries@),
            forall|a: int, b: int|
                0 <= a < b < j ==> (#[trigger] views[a]).0 != (#[trigger] views[b]).0,
        decreases entries.len() - j,
    {
        let mut i: usize = 0;
        while i < j
            invariant
                i <= j < entries.len(),
                views == entry_views(entries@),
                forall|a: int| 0 <= a < i ==> (#[trigger] views[a]).0 != views[j as int].0,
            decreases j - i,
        {
            if entries[i].0 == entries[j].0 {
                assert(views[i as int].0 == views[j as int].0);
                return false;
            }
            i += 1;
        }
        j += 1;
    }
    true
}

impl Data {
    /// Whether the value is well formed: no `Hash` in it, at any depth,
    /// holds a key twice.
    ///
    /// Whoever builds a `Hash` by hand can ask this before handing it on.
    pub fn is_well_formed(&self) -> (well_formed: bool)
        ensures
            well_formed == self@.wf(),
        decreases self,
    {
        match self {
            Data::Hash(entries) => {
                let ghost views = entry_views(entries@);
                proof {
                    lemma_hash_view(*entries);
                }
                if !keys_are_distinct(entries) {
                    return false;
                }
                let mut i: usize = 0;
                while i < entries.len()
                    invariant
                        i <= entries.len(),
                        self is Hash,
                        self->Hash_0 == *entries,
                        self@ == DataView::Hash(views),
                        views == entry_views(entries@),
                        distinct_keys(views),
                        forall|k: int| 0 <= k < i ==> (#[trigger] views[k]).1.wf(),
                    decreases entries.len() - i,
                {
                    if !entries[i].1.is_well_formed() {
                        assert(!views[i as int].1.wf());
                        return false;
                    }
                    i += 1;
                }
                true
            },
            Data::Array(items) => {
                let ghost views = self@->Array_0;
                proof {
                    reveal_with_fuel(<Data as View>::view, 2);
                }
                let mut i: usize = 0;
                while i < items.len()
                    invariant
                        i <= items.len(),
                        self is Array,
                        self->Array_0 == *items,
                        self@ == DataView::Array(views),
                        views.len() == items.len(),
                        forall|k: int| 0 <= k < items.len() ==> #[trigger] views[k] == items[k]@,
                        forall|k: int| 0 <= k < i ==> (#[trigger] views[k]).wf(),
                    decreases items.len() - i,
                {
                    if !items[i].is_well_formed() {
                        assert(!views[i as int].wf());
                        assert(self@->Array_0 == views);
                        return false;
                    }
                    i += 1;
                }
                true
            },
            _ => true,
        }
    }

    /// The value that a `Hash` holds under `name`.
    pub fn get(&self, name: &String) -> (found: Option<&Data>)
        ensures
            match self@.field(name@) {
                Some(value) => found matches Some(data) && data@ == value,
                None => found is None,
            },
    {
        match self {
            Data::Hash(entries) => {
                let ghost all = self@->Hash_0;
                proof {
                    reveal_with_fuel(<Data as View>::view, 2);
                }
                assert(all.skip(0) =~= all);
                let mut i: usize = 0;
                while i < entries.len()
                    invariant
                        i <= entries.len(),
                        self@ == DataView::Hash(all),
                        all.len() == entries.len(),
                        forall|j: int|
                            0 <= j < entries.len() ==> (#[trigger] all[j]) == (
                                entries[j].0@,
                                entries[j].1@,
                            ),
                        lookup(all, name@) == lookup(all.skip(i as int), name@),
                    decreases entries.len() - i,
                {
                    assert(all.skip(i as int).drop_first() =~= all.skip(i + 1));
                    if entries[i].0 == *name {
                        return Some(&entries[i].1);
                    }
                    i += 1;
                }
                None
            },
            _ => None,
        }
    }
}

} // verus!
