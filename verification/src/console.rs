//! What the read loop of a console needs besides reading and printing.

use crate::lexer::{chars_of, text_between};
use vstd::prelude::*;

verus! {

/// A line without the line feed at its end, and without the carriage return
/// before that.
pub open spec fn without_line_end(line: Seq<char>) -> Seq<char> {
    let fed = if line.len() > 0 && line.last() == '\n' {
        line.drop_last()
    } else {
        line
    };
    if fed.len() > 0 && fed.last() == '\r' {
        fed.drop_last()
    } else {
        fed
    }
}

/// Takes the end of the line off a line that was read.
pub fn trim_line_end(line: String) -> (text: String)
    ensures
        text@ == without_line_end(line@),
{
    let chars = chars_of(line.as_str());
    let mut end = chars.len();
    if end > 0 && chars[end - 1] == '\n' {
        end -= 1;
    }
    if end > 0 && chars[end - 1] == '\r' {
        end -= 1;
    }
    text_between(&chars, 0, end)
}

} // verus!
