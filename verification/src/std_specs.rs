//! Contracts for the functions of the standard library that the crate calls
//! and that `vstd` does not specify. Verus takes each of them on trust.

use vstd::prelude::*;

verus! {

/// Whether `c` has the Unicode property `White_Space`: the controls from
/// tab to carriage return, the blank, next line, the blank without a break,
/// the ogham blank, the blanks of fixed width, the separators of lines and
/// of paragraphs, and the narrow, the mathematical and the ideographic
/// blank.
pub open spec fn white_space(c: char) -> bool {
    ('\u{9}' <= c <= '\u{D}') || c == ' ' || c == '\u{85}' || c == '\u{A0}' || c == '\u{1680}'
        || ('\u{2000}' <= c <= '\u{200A}') || c == '\u{2028}' || c == '\u{2029}' || c
        == '\u{202F}' || c == '\u{205F}' || c == '\u{3000}'
}

/// `char::is_whitespace` tells whether the character has the property
/// `White_Space`.
pub assume_specification[ char::is_whitespace ](c: char) -> (r: bool)
    ensures
        r == white_space(c),
;

/// What `Path::extension` can hand out for the path `filename`: nothing, or
/// a text without a dot that stands in `filename` right behind a dot.
pub open spec fn may_be_extension(filename: Seq<char>, extension: Option<Seq<char>>) -> bool {
    match extension {
        None => true,
        Some(text) => !text.contains('.') && exists|at: int|
            0 < at && at + text.len() <= filename.len() && filename[at - 1] == '.'
                && #[trigger] filename.subrange(at, at + text.len()) == text,
    }
}

/// Whether `filename` is a plain name: it holds none of the characters
/// that part a path into components or set a prefix off on some platform.
pub open spec fn plain_name(filename: Seq<char>) -> bool {
    forall|i: int|
        0 <= i < filename.len() ==> (#[trigger] filename[i]) != '/' && filename[i] != '\\'
            && filename[i] != ':'
}

/// The index of the last dot of `name`, or -1 where it holds none.
pub open spec fn last_dot(name: Seq<char>) -> int
    decreases name.len(),
{
    if name.len() == 0 {
        -1
    } else if name.last() == '.' {
        name.len() - 1
    } else {
        last_dot(name.drop_last())
    }
}

/// The extension of a plain name: what follows its last dot, where it has a
/// dot that is not its first character and is not the name `..`.
pub open spec fn plain_extension(name: Seq<char>) -> Option<Seq<char>> {
    if last_dot(name) <= 0 || name == ".."@ {
        None
    } else {
        Some(name.subrange(last_dot(name) + 1, name.len() as int))
    }
}

/// The last dot of a name is a dot of the name, and no dot follows it.
pub proof fn lemma_last_dot(name: Seq<char>)
    ensures
        -1 <= last_dot(name) < name.len(),
        last_dot(name) >= 0 ==> name[last_dot(name)] == '.',
        forall|i: int| last_dot(name) < i < name.len() ==> name[i] != '.',
    decreases name.len(),
{
    if name.len() > 0 && name.last() != '.' {
        let front = name.drop_last();
        lemma_last_dot(front);
        assert forall|i: int| last_dot(name) < i < name.len() implies name[i] != '.' by {
            if i < front.len() {
                assert(front[i] == name[i]);
            }
        }
    }
}

/// The extension of a plain name is one that the name can have.
pub proof fn lemma_plain_extension_fits(name: Seq<char>)
    ensures
        may_be_extension(name, plain_extension(name)),
{
    lemma_last_dot(name);
    if plain_extension(name) is Some {
        let text = plain_extension(name)->0;
        let at = last_dot(name) + 1;
        assert(name.subrange(at, at + text.len()) == text);
        assert forall|i: int| 0 <= i < text.len() implies text[i] != '.' by {
            assert(text[i] == name[at + i]);
        }
    }
}

/// The text of an optional string.
pub open spec fn text_of(text: Option<String>) -> Option<Seq<char>> {
    match text {
        Some(text) => Some(text@),
        None => None,
    }
}

/// `Path::extension` hands out the part of the file name behind its last
/// dot, where the path has a file name with a dot that is not its first
/// character, and nothing otherwise. Which part of a path is its file name
/// depends on the platform, so of a path at large the contract claims only
/// what holds of the extension on each of them: it holds no dot, and it
/// stands in the path right behind one. A plain name is its own file name
/// on every platform, but for `.` and `..`, which have none: of it the
/// contract says which text is handed out.
#[verifier::external_body]
pub(crate) fn path_extension(filename: &str) -> (extension: Option<String>)
    ensures
        may_be_extension(filename@, text_of(extension)),
        plain_name(filename@) ==> text_of(extension) == plain_extension(filename@),
{
    match std::path::Path::new(filename).extension() {
        Some(extension) => match extension.to_str() {
            Some(text) => Some(text.to_string()),
            None => None,
        },
        None => None,
    }
}

/// `String::push` appends the character to the end of the string and leaves
/// the characters before it as they were.
pub assume_specification[ std::string::String::push ](s: &mut std::string::String, ch: char)
    ensures
        final(s)@ == old(s)@.push(ch),
;

} // verus!
