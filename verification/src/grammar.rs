//! The grammar of expressions, stated over the stream of their tokens.
//!
//! ```text
//! expr         := group ('|' group)*
//! group        := set (',' set)*
//! set          := step*
//! step         := '.' WORD? | '[' bracket_body ']' | 'keys'
//! bracket_body := '' | NUMBER | STRING | range
//! range        := NUMBER? ':' NUMBER?
//! ```

use crate::error::ErrorView;
use crate::filter::expression::lemma_builders_keep_order;
use crate::filter::{DataStrategy, ExpressionView, GroupView, StepView};
use crate::lexer::{Outcome, TokenStream, TokenView};
use crate::number::{decimal_text, number_of};
use vstd::prelude::*;

verus! {

/// The message for a word that is no keyword.
pub open spec fn unknown_keyword_message(word: Seq<char>) -> Seq<char> {
    "unknown keyword: "@ + word
}

/// The message for a token that starts no step.
pub open spec fn unexpected_token_message(token: TokenView) -> Seq<char> {
    "unexpected token: "@ + token.description()
}

/// The message for a `[` without its `]`.
pub open spec fn unclosed_bracket_message() -> Seq<char> {
    "bracketed expression not closed"@
}

/// The message for brackets that hold several tokens and no range.
pub open spec fn invalid_bracket_message() -> Seq<char> {
    "invalid bracket expression"@
}

/// The message for brackets that hold one token that is neither a number
/// nor a string.
pub open spec fn unexpected_in_bracket_message(token: TokenView) -> Seq<char> {
    "expected number, string or range in bracketed expression, got "@ + token.description()
}

/// The message for digits that write no number that the machine can hold.
pub open spec fn invalid_number_message(digits: Seq<char>) -> Seq<char> {
    "invalid number: "@ + digits
}

/// The message for a range whose bounds are in the wrong order.
pub open spec fn invalid_range_message(start: nat, end: nat) -> Seq<char> {
    "invalid range: start ("@ + decimal_text(start) + ") has to be less than end ("@
        + decimal_text(end) + ")"@
}

/// The message for a range that begins with neither a number nor a colon.
pub open spec fn expected_colon_or_start_message(token: TokenView) -> Seq<char> {
    "expected colon or start range, got "@ + token.description()
}

/// The message for a range whose start is not followed by a colon.
pub open spec fn expected_colon_message() -> Seq<char> {
    "invalid range, expected colon separator"@
}

/// The message for a range whose colon is followed by something else than
/// a number.
pub open spec fn expected_end_message(token: TokenView) -> Seq<char> {
    "expected end range, got "@ + token.description()
}

/// The message for a range that goes on after its end.
pub open spec fn after_range_message(token: TokenView) -> Seq<char> {
    "invalid range, unexpected "@ + token.description()
}

/// Whether `start` and `end` bound a range: an `end` of 0 leaves the range
/// open, and any other `end` lies beyond `start`.
pub open spec fn valid_range(start: nat, end: nat) -> bool {
    !(end > 0 && start >= end) && !(start > 0 && start == end)
}

/// The step for a range from `start` to `end`, where the two bound one.
pub open spec fn range_step(start: nat, end: nat) -> Result<StepView, ErrorView> {
    if valid_range(start, end) {
        Ok(StepView::Range(start, end))
    } else {
        Err(ErrorView::Parser(invalid_range_message(start, end)))
    }
}

/// The step that a range between brackets stands for: an optional number,
/// a colon, an optional number, and nothing else.
pub open spec fn range_of(tokens: Seq<TokenView>) -> Result<StepView, ErrorView> {
    let has_start = tokens.len() > 0 && tokens[0] is Number;
    let colon: int = if has_start {
        1
    } else {
        0
    };
    if has_start && number_of(tokens[0]->Number_0) is None {
        Err(ErrorView::Parser(invalid_number_message(tokens[0]->Number_0)))
    } else if !(colon < tokens.len() && tokens[colon] is Colon) {
        if has_start || tokens.len() == 0 {
            Err(ErrorView::Parser(expected_colon_message()))
        } else {
            Err(ErrorView::Parser(expected_colon_or_start_message(tokens[0])))
        }
    } else {
        let start: nat = if has_start {
            number_of(tokens[0]->Number_0)->0 as nat
        } else {
            0
        };
        if colon + 1 >= tokens.len() {
            range_step(start, 0)
        } else {
            match tokens[colon + 1] {
                TokenView::Number(digits) => match number_of(digits) {
                    None => Err(ErrorView::Parser(invalid_number_message(digits))),
                    Some(end) => if colon + 2 < tokens.len() {
                        Err(ErrorView::Parser(after_range_message(tokens[colon + 2])))
                    } else {
                        range_step(start, end as nat)
                    },
                },
                other => Err(ErrorView::Parser(expected_end_message(other))),
            }
        }
    }
}

/// Whether a colon is among `tokens`.
pub open spec fn has_colon(tokens: Seq<TokenView>) -> bool {
    exists|i: int| 0 <= i < tokens.len() && #[trigger] tokens[i] is Colon
}

/// The step that the tokens between a `[` and its `]` stand for.
pub open spec fn bracket_step(tokens: Seq<TokenView>) -> Result<StepView, ErrorView> {
    if tokens.len() == 0 {
        Ok(StepView::Array)
    } else if has_colon(tokens) {
        range_of(tokens)
    } else if tokens.len() == 1 {
        match tokens[0] {
            TokenView::Str(name) => Ok(StepView::Entry(name)),
            TokenView::Number(digits) => match number_of(digits) {
                Some(index) => Ok(StepView::Member(index as nat)),
                None => Err(ErrorView::Parser(invalid_number_message(digits))),
            },
            other => Err(ErrorView::Parser(unexpected_in_bracket_message(other))),
        }
    } else {
        Err(ErrorView::Parser(invalid_bracket_message()))
    }
}

/// The index of the first `]` that the calls of `next` from number `from` on
/// hand out, or the error that comes before it.
pub open spec fn closing(stream: TokenStream, from: int) -> Result<int, ErrorView>
    decreases stream.tokens.len() - from,
{
    match stream.fetch(from) {
        Outcome::Failure(message) => Err(ErrorView::Lexer(message)),
        Outcome::End => Err(ErrorView::Parser(unclosed_bracket_message())),
        Outcome::Token(token) => if token is CloseBracket {
            Ok(from)
        } else {
            closing(stream, from + 1)
        },
    }
}

/// Whether the token after number `k` is a word that a dot takes with it.
pub open spec fn word_follows(stream: TokenStream, k: int) -> bool {
    0 <= k + 1 < stream.tokens.len() && stream.tokens[k + 1] is Word
}

/// What the compilation of a stream makes of it from the call of `next`
/// number `k` on, given the expression built so far.
///
/// `|` opens a group and `,` a set, which also makes the group collect;
/// every other token starts a step, which goes to the end of the last set.
pub open spec fn parse_from(stream: TokenStream, k: int, built: ExpressionView) -> Result<
    ExpressionView,
    ErrorView,
>
    decreases stream.tokens.len() - k,
{
    match stream.fetch(k) {
        Outcome::Failure(message) => Err(ErrorView::Lexer(message)),
        Outcome::End => Ok(built),
        Outcome::Token(token) => match token {
            TokenView::Bar => parse_from(
                stream,
                k + 1,
                built.add_group(GroupView::empty()).add_set(Seq::empty()),
            ),
            TokenView::Comma => parse_from(
                stream,
                k + 1,
                built.change_strategy(DataStrategy::Concat).add_set(Seq::empty()),
            ),
            TokenView::Dot => if word_follows(stream, k) {
                match stream.fetch(k + 1) {
                    Outcome::Failure(message) => Err(ErrorView::Lexer(message)),
                    _ => parse_from(
                        stream,
                        k + 2,
                        built.add_filter(StepView::Entry(stream.tokens[k + 1]->Word_0)),
                    ),
                }
            } else {
                parse_from(stream, k + 1, built.add_filter(StepView::Current))
            },
            TokenView::OpenBracket => match closing(stream, k + 1) {
                Err(error) => Err(error),
                Ok(close) => match bracket_step(stream.tokens.subrange(k + 1, close)) {
                    Err(error) => Err(error),
                    Ok(step) => {
                        proof {
                            lemma_closing_bounds(stream, k + 1);
                        }
                        parse_from(stream, close + 1, built.add_filter(step))
                    },
                },
            },
            TokenView::Word(word) => if word == "keys"@ {
                parse_from(stream, k + 1, built.add_filter(StepView::Keys))
            } else {
                Err(ErrorView::Parser(unknown_keyword_message(word)))
            },
            other => Err(ErrorView::Parser(unexpected_token_message(other))),
        },
    }
}

/// What the compilation of an expression makes of its text.
pub open spec fn compile_spec(source: Seq<char>) -> Result<ExpressionView, ErrorView> {
    parse_from(TokenStream::of(source), 0, ExpressionView::initial())
}

/// The steps that a stream writes from the call of `next` number `k` on, in
/// the order in which it writes them, up to its end or to the first place
/// where it writes none.
pub open spec fn steps_from(stream: TokenStream, k: int) -> Seq<StepView>
    decreases stream.tokens.len() - k,
{
    match stream.fetch(k) {
        Outcome::Token(token) => match token {
            TokenView::Bar => steps_from(stream, k + 1),
            TokenView::Comma => steps_from(stream, k + 1),
            TokenView::Dot => if word_follows(stream, k) {
                if stream.fetch(k + 1) is Failure {
                    Seq::empty()
                } else {
                    seq![StepView::Entry(stream.tokens[k + 1]->Word_0)] + steps_from(stream, k + 2)
                }
            } else {
                seq![StepView::Current] + steps_from(stream, k + 1)
            },
            TokenView::OpenBracket => match closing(stream, k + 1) {
                Err(_) => Seq::empty(),
                Ok(close) => match bracket_step(stream.tokens.subrange(k + 1, close)) {
                    Err(_) => Seq::empty(),
                    Ok(step) => {
                        proof {
                            lemma_closing_bounds(stream, k + 1);
                        }
                        seq![step] + steps_from(stream, close + 1)
                    },
                },
            },
            TokenView::Word(word) => if word == "keys"@ {
                seq![StepView::Keys] + steps_from(stream, k + 1)
            } else {
                Seq::empty()
            },
            _ => Seq::empty(),
        },
        _ => Seq::empty(),
    }
}

/// Whether every `Range` among `steps` has bounds that bound a range.
pub open spec fn ranges_valid(steps: Seq<StepView>) -> bool {
    forall|i: int|
        0 <= i < steps.len() ==> (#[trigger] steps[i] matches StepView::Range(start, end)
            ==> valid_range(start, end))
}

/// A range between brackets becomes a step only where its bounds bound a
/// range: bounds with `end > 0` and `start >= end` are rejected.
pub proof fn lemma_range_validation(tokens: Seq<TokenView>)
    ensures
        bracket_step(tokens) matches Ok(StepView::Range(start, end)) ==> valid_range(start, end),
        range_of(tokens) matches Ok(step) ==> step matches StepView::Range(start, end)
            && valid_range(start, end),
        forall|start: nat, end: nat| !valid_range(start, end) ==> #[trigger] range_step(start, end)
            == Err::<StepView, ErrorView>(ErrorView::Parser(invalid_range_message(start, end))),
{
}

/// A range that is written with both its bounds is rejected where the end
/// is above 0 and the start is not below the end, and where the start is
/// above 0 and equals the end: the brackets stand for no step, and the
/// expression that consists of them does not compile.
pub proof fn lemma_rejects_reversed_range(first: Seq<char>, second: Seq<char>)
    requires
        number_of(first) is Some,
        number_of(second) is Some,
        ({
            let start = number_of(first)->0;
            let end = number_of(second)->0;
            (end > 0 && start >= end) || (start > 0 && start == end)
        }),
    ensures
        bracket_step(seq![TokenView::Number(first), TokenView::Colon, TokenView::Number(second)])
            == Err::<StepView, ErrorView>(
            ErrorView::Parser(
                invalid_range_message(number_of(first)->0 as nat, number_of(second)->0 as nat),
            ),
        ),
        parse_from(
            TokenStream {
                tokens: seq![
                    TokenView::OpenBracket,
                    TokenView::Number(first),
                    TokenView::Colon,
                    TokenView::Number(second),
                    TokenView::CloseBracket,
                ],
                failure: None,
            },
            0,
            ExpressionView::initial(),
        ) is Err,
{
    reveal_with_fuel(closing, 4);
}

/// An expression that compiles holds the steps that its text writes, in the
/// order of the text: the steps of the tree, read group by group and set by
/// set, are the steps built before, followed by those of the stream.
pub proof fn lemma_parse_keeps_order(stream: TokenStream, k: int, built: ExpressionView)
    ensures
        parse_from(stream, k, built) matches Ok(expression) ==> expression.flatten()
            == built.flatten() + steps_from(stream, k),
    decreases stream.tokens.len() - k,
{
    if parse_from(stream, k, built) is Ok && stream.fetch(k) is Token {
        match stream.fetch(k)->Token_0 {
            TokenView::Bar => {
                let next = built.add_group(GroupView::empty()).add_set(Seq::empty());
                lemma_builders_keep_order(built, StepView::Current);
                lemma_builders_keep_order(built.add_group(GroupView::empty()), StepView::Current);
                lemma_parse_keeps_order(stream, k + 1, next);
            },
            TokenView::Comma => {
                let next = built.change_strategy(DataStrategy::Concat).add_set(Seq::empty());
                lemma_builders_keep_order(built, StepView::Current);
                lemma_builders_keep_order(
                    built.change_strategy(DataStrategy::Concat),
                    StepView::Current,
                );
                lemma_parse_keeps_order(stream, k + 1, next);
            },
            TokenView::Dot => {
                if word_follows(stream, k) {
                    let step = StepView::Entry(stream.tokens[k + 1]->Word_0);
                    lemma_builders_keep_order(built, step);
                    lemma_parse_keeps_order(stream, k + 2, built.add_filter(step));
                } else {
                    lemma_builders_keep_order(built, StepView::Current);
                    lemma_parse_keeps_order(stream, k + 1, built.add_filter(StepView::Current));
                }
            },
            TokenView::OpenBracket => {
                let close = closing(stream, k + 1)->Ok_0;
                let step = bracket_step(stream.tokens.subrange(k + 1, close))->Ok_0;
                lemma_closing_bounds(stream, k + 1);
                lemma_builders_keep_order(built, step);
                lemma_parse_keeps_order(stream, close + 1, built.add_filter(step));
            },
            TokenView::Word(_) => {
                lemma_builders_keep_order(built, StepView::Keys);
                lemma_parse_keeps_order(stream, k + 1, built.add_filter(StepView::Keys));
            },
            _ => {},
        }
    }
}

/// Every `Range` that a stream writes where its brackets hold a step has
/// bounds that bound a range.
pub proof fn lemma_steps_have_valid_ranges(stream: TokenStream, k: int)
    ensures
        ranges_valid(steps_from(stream, k)),
    decreases stream.tokens.len() - k,
{
    if stream.fetch(k) is Token {
        match stream.fetch(k)->Token_0 {
            TokenView::Dot => {
                if word_follows(stream, k) {
                    lemma_steps_have_valid_ranges(stream, k + 2);
                } else {
                    lemma_steps_have_valid_ranges(stream, k + 1);
                }
            },
            TokenView::OpenBracket => {
                if closing(stream, k + 1) is Ok {
                    lemma_closing_bounds(stream, k + 1);
                    lemma_steps_have_valid_ranges(stream, closing(stream, k + 1)->Ok_0 + 1);
                }
            },
            TokenView::Bar | TokenView::Comma | TokenView::Word(_) => {
                lemma_steps_have_valid_ranges(stream, k + 1);
            },
            _ => {},
        }
    }
}

/// The steps of a compiled expression are the steps that its text writes,
/// in the order of the text.
pub proof fn lemma_compile_keeps_order(source: Seq<char>)
    ensures
        compile_spec(source) matches Ok(expression) ==> expression.flatten() == steps_from(
            TokenStream::of(source),
            0,
        ),
{
    lemma_builders_keep_order(ExpressionView::initial(), StepView::Current);
    lemma_parse_keeps_order(TokenStream::of(source), 0, ExpressionView::initial());
}

/// No expression compiles to a `Range` whose bounds bound no range: a text
/// that writes `end > 0` with `start >= end` is rejected.
pub proof fn lemma_compile_validates_ranges(source: Seq<char>)
    ensures
        compile_spec(source) matches Ok(expression) ==> ranges_valid(expression.flatten()),
{
    lemma_compile_keeps_order(source);
    lemma_steps_have_valid_ranges(TokenStream::of(source), 0);
}

/// The `]` that closes a bracket lies at or after the place from which it
/// was looked for, and is handed out as a token.
pub proof fn lemma_closing_bounds(stream: TokenStream, from: int)
    ensures
        closing(stream, from) matches Ok(close) ==> from <= close < stream.tokens.len()
            && stream.fetch(close) == Outcome::Token(TokenView::CloseBracket),
    decreases stream.tokens.len() - from,
{
    if stream.fetch(from) is Token && !(stream.fetch(from)->Token_0 is CloseBracket) {
        lemma_closing_bounds(stream, from + 1);
    }
}

/// Call number `j` on a stream without its first `n` tokens is call number
/// `n + j` on the stream.
pub proof fn lemma_fetch_skip(stream: TokenStream, n: int, j: int)
    requires
        0 <= n <= stream.tokens.len(),
        0 <= j,
    ensures
        stream.skip(n).fetch(j) == stream.fetch(n + j),
        n + j <= stream.tokens.len() ==> stream.skip(n).skip(j) == stream.skip(n + j),
{
    if n + j <= stream.tokens.len() {
        assert(stream.skip(n).skip(j).tokens =~= stream.skip(n + j).tokens);
    }
}

/// The `]` of a stream without its first `n` tokens is the `]` of the
/// stream, `n` places earlier.
pub proof fn lemma_closing_skip(stream: TokenStream, n: int, j: int)
    requires
        0 <= n <= stream.tokens.len(),
        0 <= j,
    ensures
        closing(stream.skip(n), j) == (match closing(stream, n + j) {
            Ok(close) => Ok(close - n),
            Err(error) => Err(error),
        }),
    decreases stream.tokens.len() - n - j,
{
    if stream.fetch(n + j) is Token && !(stream.fetch(n + j)->Token_0 is CloseBracket) {
        lemma_closing_skip(stream, n, j + 1);
    }
}

} // verus!
