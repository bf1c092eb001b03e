//! The failures that the stages of the pipeline report.

use vstd::prelude::*;
use vstd::string::*;

verus! {

/// What went wrong, by the stage that noticed it.
///
/// The three variants with a message carry a text for the user; a filter
/// that does not match carries no detail.
#[derive(Debug)]
pub enum Error {
    /// The document could not be loaded.
    Dataset(String),
    /// The expression holds a character or a string literal that is no token.
    Lexer(String),
    /// The tokens do not form an expression.
    Parser(String),
    /// A step met a value that it cannot be applied to.
    Filter,
}

/// The mathematical value of an [`Error`].
pub enum ErrorView {
    Dataset(Seq<char>),
    Lexer(Seq<char>),
    Parser(Seq<char>),
    Filter,
}

impl View for Error {
    type V = ErrorView;

    open spec fn view(&self) -> ErrorView {
        match self {
            Error::Dataset(message) => ErrorView::Dataset(message@),
            Error::Lexer(message) => ErrorView::Lexer(message@),
            Error::Parser(message) => ErrorView::Parser(message@),
            Error::Filter => ErrorView::Filter,
        }
    }
}

/// Whether what a function returned is what `expected` says, value for
/// value and error for error.
pub open spec fn result_is<T: View>(result: Result<T, Error>, expected: Result<T::V, ErrorView>) -> bool {
    match expected {
        Ok(value) => result matches Ok(found) && found@ == value,
        Err(error) => result matches Err(found) && found@ == error,
    }
}

impl ErrorView {
    /// The line that tells the user of the error.
    pub open spec fn report(self) -> Seq<char> {
        match self {
            ErrorView::Lexer(message) => "[Lexer] ERROR: "@ + message,
            ErrorView::Parser(message) => "[Parser] ERROR: "@ + message,
            ErrorView::Filter => "Expression did not match anything"@,
            ErrorView::Dataset(_) => "Generic error"@,
        }
    }
}

impl Error {
    /// The line that tells the user of the error.
    pub fn report(&self) -> (line: String)
        ensures
            line@ == self@.report(),
    {
        match self {
            Error::Lexer(message) => "[Lexer] ERROR: ".to_owned().concat(message.as_str()),
            Error::Parser(message) => "[Parser] ERROR: ".to_owned().concat(message.as_str()),
            Error::Filter => "Expression did not match anything".to_owned(),
            Error::Dataset(_) => "Generic error".to_owned(),
        }
    }
}

} // verus!
