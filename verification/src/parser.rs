//! The parser: from the tokens of an expression to its filter tree, by
//! recursive descent with one token of lookahead.

use crate::error::{result_is, Error, ErrorView};
use crate::filter::{
    DataStrategy, ExpressionView, FilterExpression, FilterGroup, FilterSet, FilterType, StepView,
};
use crate::grammar::{
    bracket_step, closing, compile_spec, has_colon, lemma_closing_bounds, lemma_closing_skip,
    lemma_fetch_skip, parse_from, range_of, range_step, unclosed_bracket_message, word_follows,
};
use crate::lexer::{
    lemma_next_delivers, lemma_peek_shows_first, Lexer, LexerView, Outcome, Token, TokenStream,
    TokenView,
};
use crate::number::{parse_number, push_decimal};
use vstd::prelude::*;
use vstd::string::*;

verus! {

/// The values of a sequence of tokens.
pub open spec fn token_views(tokens: Seq<Token>) -> Seq<TokenView> {
    tokens.map_values(|token: Token| token@)
}

/// A parser over the text of one expression.
pub struct ExpressionParser {
    lex: Lexer,
    token: Option<Token>,
}

/// The state of an [`ExpressionParser`]: its tokenizer, and the token that
/// it is looking at.
pub struct ParserView {
    pub lexer: LexerView,
    pub token: Option<TokenView>,
}

impl View for ExpressionParser {
    type V = ParserView;

    closed spec fn view(&self) -> ParserView {
        ParserView {
            lexer: self.lex@,
            token: match self.token {
                Some(token) => Some(token@),
                None => None,
            },
        }
    }
}

/// Whether the parser looks at a token and the tokens to come hold a `]`
/// that the tokenizer reaches.
pub open spec fn bracket_closes(parser: ParserView) -> bool {
    parser.token is Some && closing(parser.lexer.stream(), 0) is Ok
}

/// What is left to come behind the `]` that closes the bracket.
pub open spec fn behind_bracket(parser: ParserView) -> TokenStream {
    parser.lexer.stream().skip(closing(parser.lexer.stream(), 0)->Ok_0 + 1)
}

/// A parser error whose message is `prefix` followed by `detail`.
fn parser_error(prefix: &str, detail: &str) -> (error: Error)
    ensures
        error@ == ErrorView::Parser(prefix@ + detail@),
{
    Error::Parser(String::from_str(prefix).concat(detail))
}

/// Whether a colon is among `tokens`.
fn contains_colon(tokens: &Vec<Token>) -> (found: bool)
    ensures
        found == has_colon(token_views(tokens@)),
{
    let mut i: usize = 0;
    while i < tokens.len()
        invariant
            i <= tokens.len(),
            forall|j: int| 0 <= j < i ==> !(#[trigger] token_views(tokens@)[j] is Colon),
        decreases tokens.len() - i,
    {
        if let Token::Colon = &tokens[i] {
            assert(token_views(tokens@)[i as int] is Colon);
            return true;
        }
        i += 1;
    }
    false
}

impl ExpressionParser {
    /// A parser that has read nothing of `source` yet.
    pub fn new(source: &str) -> (parser: ExpressionParser)
        ensures
            parser@ == (ParserView { lexer: LexerView::fresh(source@), token: None }),
    {
        let lex = Lexer::new(source);
        ExpressionParser { lex, token: None }
    }

    /// Compiles what the tokenizer has yet to deliver.
    ///
    /// On success the input has been read to its end.
    pub fn parse(&mut self) -> (result: Result<FilterExpression, Error>)
        ensures
            result_is(
                result,
                parse_from(old(self)@.lexer.stream(), 0, ExpressionView::initial()),
            ),
            final(self)@.lexer.source == old(self)@.lexer.source,
            result is Ok ==> final(self)@.token is None && final(self)@.lexer.stream()
                == (TokenStream { tokens: Seq::empty(), failure: None }),
    {
        let mut filter = FilterExpression::default();
        let ghost stream = self@.lexer.stream();
        let ghost mut k: int = 0;
        proof {
            lemma_next_delivers(self@.lexer);
        }
        self.next()?;
        loop
            invariant
                0 <= k,
                self@.lexer.source == old(self)@.lexer.source,
                stream == old(self)@.lexer.stream(),
                stream.fetch(k) == (match self@.token {
                    Some(token) => Outcome::Token(token),
                    None => Outcome::End,
                }),
                self@.token is Some ==> self@.lexer.primed() && self@.lexer.stream()
                    == stream.skip(k + 1),
                self@.token is None ==> self@.lexer.stream() == (TokenStream {
                    tokens: Seq::empty(),
                    failure: None,
                }),
                parse_from(stream, 0, ExpressionView::initial()) == parse_from(
                    stream,
                    k,
                    filter@,
                ),
            ensures
                self@.token is None,
            decreases stream.tokens.len() - k,
        {
            let token = match &self.token {
                Some(token) => token.clone(),
                None => break ,
            };
            let ghost whole = parse_from(stream, 0, ExpressionView::initial());
            assert(stream.fetch(k) == Outcome::Token(token@));
            assert(0 <= k < stream.tokens.len());
            match token {
                Token::Bar => {
                    filter.add_group(FilterGroup::default());
                    filter.add_set(FilterSet::default());
                    assert(whole == parse_from(stream, k + 1, filter@));
                },
                Token::Comma => {
                    filter.change_strategy(DataStrategy::Concat);
                    filter.add_set(FilterSet::default());
                    assert(whole == parse_from(stream, k + 1, filter@));
                },
                Token::Dot => {
                    proof {
                        lemma_peek_shows_first(self@.lexer);
                    }
                    let ahead = self.lex.peek()?;
                    match ahead {
                        Some(Token::Word(word)) => {
                            assert(word_follows(stream, k));
                            assert(stream.tokens[k + 1] == TokenView::Word(word@));
                            filter.add_filter(FilterType::Entry(word));
                            proof {
                                lemma_next_delivers(self@.lexer);
                                lemma_fetch_skip(stream, k + 1, 0);
                                lemma_fetch_skip(stream, k + 1, 1);
                            }
                            self.lex.next()?;
                            assert(whole == parse_from(stream, k + 2, filter@));
                            proof {
                                k = k + 1;
                            }
                        },
                        _ => {
                            assert(!word_follows(stream, k));
                            filter.add_filter(FilterType::Current);
                            assert(whole == parse_from(stream, k + 1, filter@));
                        },
                    }
                },
                Token::OpenBracket => {
                    proof {
                        lemma_closing_skip(stream, k + 1, 0);
                        lemma_closing_bounds(stream, k + 1);
                        if closing(stream, k + 1) is Ok {
                            let close = closing(stream, k + 1)->Ok_0;
                            assert(stream.skip(k + 1).tokens.subrange(0, close - (k + 1))
                                =~= stream.tokens.subrange(k + 1, close));
                            lemma_fetch_skip(stream, k + 1, close - k);
                        }
                    }
                    let step = self.parse_bracketed_expression()?;
                    filter.add_filter(step);
                    assert(whole == parse_from(
                        stream,
                        closing(stream, k + 1)->Ok_0 + 1,
                        filter@,
                    ));
                    proof {
                        k = closing(stream, k + 1)->Ok_0;
                    }
                },
                Token::Word(word) => {
                    if word == String::from_str("keys") {
                        filter.add_filter(FilterType::Keys);
                        assert(whole == parse_from(stream, k + 1, filter@));
                    } else {
                        return Err(parser_error("unknown keyword: ", word.as_str()));
                    }
                },
                other => {
                    return Err(parser_error("unexpected token: ", other.describe().as_str()));
                },
            }
            proof {
                lemma_next_delivers(self@.lexer);
                lemma_fetch_skip(stream, k + 1, 0);
                lemma_fetch_skip(stream, k + 1, 1);
            }
            self.next()?;
            proof {
                k = k + 1;
            }
        }
        Ok(filter)
    }

    /// Moves on to the next token.
    fn next(&mut self) -> (result: Result<(), Error>)
        ensures
            final(self)@.lexer == old(self)@.lexer.next().1,
            match old(self)@.lexer.next().0 {
                Outcome::Token(token) => result is Ok && final(self)@.token == Some(token),
                Outcome::End => result is Ok && final(self)@.token is None,
                Outcome::Failure(message) => result is Err && result->Err_0@ == ErrorView::Lexer(
                    message,
                ) && final(self)@.token == old(self)@.token,
            },
    {
        self.token = self.lex.next()?;
        Ok(())
    }

    /// The step for a range from `start` to `end`, or the error that tells
    /// why the two bound no range.
    pub fn new_range(start: usize, end: usize) -> (result: Result<FilterType, Error>)
        ensures
            result_is(result, range_step(start as nat, end as nat)),
    {
        if (end > 0 && start >= end) || (start > 0 && start == end) {
            let mut message = String::from_str("invalid range: start (");
            push_decimal(&mut message, start);
            message.append(") has to be less than end (");
            push_decimal(&mut message, end);
            message.append(")");
            Err(Error::Parser(message))
        } else {
            Ok(FilterType::Range(start, end))
        }
    }

    /// Reads the tokens up to the `]` that closes the bracket, and makes a
    /// step of them.
    ///
    /// The parser looks at the `[` when this is called. Where the bracket is
    /// closed, the tokens up to the `]` are taken before anything is made of
    /// them: the parser looks at the `]` afterwards, with nothing behind it
    /// taken, whether they write a step or not.
    fn parse_bracketed_expression(&mut self) -> (result: Result<FilterType, Error>)
        ensures
            result_is(
                result,
                if old(self)@.token is None {
                    Err(ErrorView::Parser(unclosed_bracket_message()))
                } else {
                    match closing(old(self)@.lexer.stream(), 0) {
                        Err(error) => Err(error),
                        Ok(close) => bracket_step(
                            old(self)@.lexer.stream().tokens.subrange(0, close),
                        ),
                    }
                },
            ),
            final(self)@.lexer.source == old(self)@.lexer.source,
            bracket_closes(old(self)@) ==> final(self)@.token == Some(TokenView::CloseBracket),
            bracket_closes(old(self)@) ==> final(self)@.lexer.primed(),
            bracket_closes(old(self)@) ==> final(self)@.lexer.stream() == behind_bracket(old(self)@),
    {
        let ghost stream = self@.lexer.stream();
        let ghost mut j: int = 0;
        let mut token_set: Vec<Token> = Vec::new();
        if self.token.is_none() {
            return Err(Error::Parser(String::from_str("bracketed expression not closed")));
        }
        assert(stream.skip(0).tokens =~= stream.tokens);
        assert(token_views(token_set@) =~= stream.tokens.subrange(0, 0));
        loop
            invariant_except_break
                self@.lexer.stream() == stream.skip(j),
            invariant
                0 <= j <= stream.tokens.len(),
                self@.lexer.source == old(self)@.lexer.source,
                stream == old(self)@.lexer.stream(),
                old(self)@.token is Some,
                closing(stream, 0) == closing(stream, j),
                token_views(token_set@) == stream.tokens.subrange(0, j),
            ensures
                closing(stream, 0) == Ok::<int, ErrorView>(j),
                self@.token == Some(TokenView::CloseBracket),
                self@.lexer.primed(),
                self@.lexer.stream() == stream.skip(j + 1),
            decreases stream.tokens.len() - j,
        {
            proof {
                lemma_next_delivers(self@.lexer);
                lemma_fetch_skip(stream, j, 0);
                lemma_fetch_skip(stream, j, 1);
            }
            self.next()?;
            match &self.token {
                None => {
                    return Err(Error::Parser(String::from_str("bracketed expression not closed")));
                },
                Some(Token::CloseBracket) => {
                    break ;
                },
                Some(token) => {
                    assert(stream.fetch(j) == Outcome::Token(token@));
                    let ghost before = token_views(token_set@);
                    token_set.push(token.clone());
                    proof {
                        assert(token_views(token_set@) =~= before.push(token@));
                        assert(before.push(stream.tokens[j]) =~= stream.tokens.subrange(0, j + 1));
                        j = j + 1;
                    }
                },
            }
        }
        if token_set.len() == 0 {
            Ok(FilterType::Array)
        } else if contains_colon(&token_set) {
            ExpressionParser::parse_range_expression(token_set)
        } else if token_set.len() == 1 {
            assert(token_views(token_set@)[0] == token_set[0]@);
            match &token_set[0] {
                Token::Str(name) => Ok(FilterType::Entry(name.clone())),
                Token::Number(digits) => match parse_number(digits.as_str()) {
                    Some(index) => Ok(FilterType::Member(index)),
                    None => Err(parser_error("invalid number: ", digits.as_str())),
                },
                other => Err(
                    parser_error(
                        "expected number, string or range in bracketed expression, got ",
                        other.describe().as_str(),
                    ),
                ),
            }
        } else {
            Err(Error::Parser(String::from_str("invalid bracket expression")))
        }
    }

    /// The step that a range between brackets stands for: an optional
    /// number, a colon, an optional number, and nothing else.
    pub fn parse_range_expression(token_set: Vec<Token>) -> (result: Result<FilterType, Error>)
        ensures
            result_is(result, range_of(token_views(token_set@))),
    {
        let mut start: usize = 0;
        let mut end: usize = 0;
        let mut pos: usize = 0;
        if token_set.len() > 0 {
            if let Token::Number(digits) = &token_set[0] {
                match parse_number(digits.as_str()) {
                    Some(value) => {
                        start = value;
                        pos = 1;
                    },
                    None => {
                        return Err(parser_error("invalid number: ", digits.as_str()));
                    },
                }
            }
        }
        if pos >= token_set.len() {
            return Err(Error::Parser(String::from_str("invalid range, expected colon separator")));
        }
        match &token_set[pos] {
            Token::Colon => {},
            other => {
                if pos == 0 {
                    return Err(
                        parser_error(
                            "expected colon or start range, got ",
                            other.describe().as_str(),
                        ),
                    );
                }
                return Err(
                    Error::Parser(String::from_str("invalid range, expected colon separator")),
                );
            },
        }
        pos += 1;
        if pos < token_set.len() {
            match &token_set[pos] {
                Token::Number(digits) => match parse_number(digits.as_str()) {
                    Some(value) => {
                        end = value;
                    },
                    None => {
                        return Err(parser_error("invalid number: ", digits.as_str()));
                    },
                },
                other => {
                    return Err(
                        parser_error("expected end range, got ", other.describe().as_str()),
                    );
                },
            }
            if pos + 1 < token_set.len() {
                return Err(
                    parser_error(
                        "invalid range, unexpected ",
                        token_set[pos + 1].describe().as_str(),
                    ),
                );
            }
        }
        ExpressionParser::new_range(start, end)
    }
}

/// Compiles the text of an expression into its filter tree.
pub fn compile(text: &str) -> (result: Result<FilterExpression, Error>)
    ensures
        result_is(result, compile_spec(text@)),
{
    let mut parser = ExpressionParser::new(text);
    parser.parse()
}

} // verus!
