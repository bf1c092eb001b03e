//! The tokenizer: from the characters of an expression to its tokens, one
//! at a time, with one token of lookahead.

use crate::error::Error;
use crate::std_specs::white_space;
use vstd::prelude::*;
use vstd::string::*;

verus! {

/// A lexical token. `Number`, `Word` and `Str` carry their text: the digits,
/// the identifier, and what stands between the quotes.
#[derive(Debug, PartialEq)]
pub enum Token {
    OpenBracket,
    CloseBracket,
    Number(String),
    Word(String),
    Str(String),
    Dot,
    Bar,
    Comma,
    Colon,
}

/// The mathematical value of a [`Token`].
pub enum TokenView {
    OpenBracket,
    CloseBracket,
    Number(Seq<char>),
    Word(Seq<char>),
    Str(Seq<char>),
    Dot,
    Bar,
    Comma,
    Colon,
}

impl View for Token {
    type V = TokenView;

    open spec fn view(&self) -> TokenView {
        match self {
            Token::OpenBracket => TokenView::OpenBracket,
            Token::CloseBracket => TokenView::CloseBracket,
            Token::Number(digits) => TokenView::Number(digits@),
            Token::Word(word) => TokenView::Word(word@),
            Token::Str(text) => TokenView::Str(text@),
            Token::Dot => TokenView::Dot,
            Token::Bar => TokenView::Bar,
            Token::Comma => TokenView::Comma,
            Token::Colon => TokenView::Colon,
        }
    }
}

impl TokenView {
    /// How a message names the token.
    pub open spec fn description(self) -> Seq<char> {
        match self {
            TokenView::OpenBracket => "open bracket"@,
            TokenView::CloseBracket => "close bracket"@,
            TokenView::Number(digits) => "number "@ + digits,
            TokenView::Word(word) => "word "@ + word,
            TokenView::Str(text) => "string "@ + text,
            TokenView::Dot => "dot"@,
            TokenView::Bar => "bar"@,
            TokenView::Comma => "comma"@,
            TokenView::Colon => "colon"@,
        }
    }
}

impl Clone for Token {
    fn clone(&self) -> (copy: Token)
        ensures
            copy@ == self@,
    {
        match self {
            Token::OpenBracket => Token::OpenBracket,
            Token::CloseBracket => Token::CloseBracket,
            Token::Number(digits) => Token::Number(digits.clone()),
            Token::Word(word) => Token::Word(word.clone()),
            Token::Str(text) => Token::Str(text.clone()),
            Token::Dot => Token::Dot,
            Token::Bar => Token::Bar,
            Token::Comma => Token::Comma,
            Token::Colon => Token::Colon,
        }
    }
}

impl Token {
    /// The text by which a message names the token.
    pub fn describe(&self) -> (text: String)
        ensures
            text@ == self@.description(),
    {
        match self {
            Token::OpenBracket => String::from_str("open bracket"),
            Token::CloseBracket => String::from_str("close bracket"),
            Token::Number(digits) => String::from_str("number ").concat(digits.as_str()),
            Token::Word(word) => String::from_str("word ").concat(word.as_str()),
            Token::Str(text) => String::from_str("string ").concat(text.as_str()),
            Token::Dot => String::from_str("dot"),
            Token::Bar => String::from_str("bar"),
            Token::Comma => String::from_str("comma"),
            Token::Colon => String::from_str("colon"),
        }
    }
}

/// A decimal digit.
pub open spec fn is_digit(c: char) -> bool {
    '0' <= c <= '9'
}

/// A letter of the Latin alphabet, or the underscore.
pub open spec fn is_letter(c: char) -> bool {
    'A' <= c <= 'Z' || 'a' <= c <= 'z' || c == '_'
}

/// What an identifier may hold after its first character.
pub open spec fn is_word_char(c: char) -> bool {
    is_digit(c) || is_letter(c)
}

/// What one call of the tokenizer hands out.
pub enum Outcome {
    /// The next token.
    Token(TokenView),
    /// The input is exhausted.
    End,
    /// The input does not continue with a token; the message says why.
    Failure(Seq<char>),
}

/// The result of reading one token: what was found, and the index of the
/// first character that has not been read.
pub struct Scan {
    pub outcome: Outcome,
    pub end: int,
}

/// The index of the first `"` of `s` at or after `from`, or the length of `s`
/// if there is none.
pub open spec fn quote_index(s: Seq<char>, from: int) -> int
    decreases s.len() - from,
{
    if 0 <= from < s.len() && s[from] != '"' {
        quote_index(s, from + 1)
    } else {
        from
    }
}

/// The end of the longest run of digits of `s` that starts at `from`.
pub open spec fn digits_end(s: Seq<char>, from: int) -> int
    decreases s.len() - from,
{
    if 0 <= from < s.len() && is_digit(s[from]) {
        digits_end(s, from + 1)
    } else {
        from
    }
}

/// The end of the longest run of letters, digits and underscores of `s` that
/// starts at `from`.
pub open spec fn word_end(s: Seq<char>, from: int) -> int
    decreases s.len() - from,
{
    if 0 <= from < s.len() && is_word_char(s[from]) {
        word_end(s, from + 1)
    } else {
        from
    }
}

/// The message for a character that starts no token.
pub open spec fn unexpected_char_message(c: char) -> Seq<char> {
    "Unexpected char: "@.push(c)
}

/// The message for a string literal that the input ends in.
pub open spec fn unclosed_quote_message() -> Seq<char> {
    "Expected closing quote"@
}

/// Reads one token of `s` starting at `pos`.
///
/// Punctuation is a token by itself; `"` opens a literal that runs to the
/// next `"`; a digit starts a number, a letter or underscore a word, each as
/// long as it can be. Whitespace before the token is passed over, and any
/// other character is a failure.
pub open spec fn scan(s: Seq<char>, pos: int) -> Scan
    decreases s.len() - pos,
{
    if !(0 <= pos < s.len()) {
        Scan { outcome: Outcome::End, end: pos }
    } else {
        let c = s[pos];
        if c == '.' {
            Scan { outcome: Outcome::Token(TokenView::Dot), end: pos + 1 }
        } else if c == '|' {
            Scan { outcome: Outcome::Token(TokenView::Bar), end: pos + 1 }
        } else if c == ',' {
            Scan { outcome: Outcome::Token(TokenView::Comma), end: pos + 1 }
        } else if c == ':' {
            Scan { outcome: Outcome::Token(TokenView::Colon), end: pos + 1 }
        } else if c == '[' {
            Scan { outcome: Outcome::Token(TokenView::OpenBracket), end: pos + 1 }
        } else if c == ']' {
            Scan { outcome: Outcome::Token(TokenView::CloseBracket), end: pos + 1 }
        } else if c == '"' {
            let close = quote_index(s, pos + 1);
            if close < s.len() {
                Scan {
                    outcome: Outcome::Token(TokenView::Str(s.subrange(pos + 1, close))),
                    end: close + 1,
                }
            } else {
                Scan { outcome: Outcome::Failure(unclosed_quote_message()), end: s.len() as int }
            }
        } else if is_digit(c) {
            let end = digits_end(s, pos + 1);
            Scan { outcome: Outcome::Token(TokenView::Number(s.subrange(pos, end))), end }
        } else if is_letter(c) {
            let end = word_end(s, pos + 1);
            Scan { outcome: Outcome::Token(TokenView::Word(s.subrange(pos, end))), end }
        } else if !white_space(c) {
            Scan { outcome: Outcome::Failure(unexpected_char_message(c)), end: pos + 1 }
        } else {
            scan(s, pos + 1)
        }
    }
}

/// Whether what a call returned is what `outcome` says.
pub open spec fn agrees(result: Result<Option<Token>, Error>, outcome: Outcome) -> bool {
    match outcome {
        Outcome::Token(token) => result matches Ok(Some(t)) && t@ == token,
        Outcome::End => result matches Ok(None),
        Outcome::Failure(message) => result matches Err(Error::Lexer(m)) && m@ == message,
    }
}

/// The characters of `text`, in order.
pub fn chars_of(text: &str) -> (chars: Vec<char>)
    ensures
        chars@ == text@,
{
    let mut chars: Vec<char> = Vec::new();
    for c in it: text.chars()
        invariant
            it.seq() == text@,
            chars@ == text@.take(it.index()),
    {
        chars.push(c);
    }
    chars
}

/// The characters of `source` from `from` up to `to`, as a string.
pub(crate) fn text_between(source: &Vec<char>, from: usize, to: usize) -> (text: String)
    requires
        from <= to <= source.len(),
    ensures
        text@ == source@.subrange(from as int, to as int),
{
    let mut text = String::new();
    let mut i: usize = from;
    while i < to
        invariant
            from <= i <= to <= source.len(),
            text@ == source@.subrange(from as int, i as int),
        decreases to - i,
    {
        text.push(source[i]);
        i += 1;
    }
    text
}

fn char_is_digit(c: char) -> (r: bool)
    ensures
        r == is_digit(c),
{
    '0' <= c && c <= '9'
}

fn char_is_letter(c: char) -> (r: bool)
    ensures
        r == is_letter(c),
{
    ('A' <= c && c <= 'Z') || ('a' <= c && c <= 'z') || c == '_'
}

/// Reads one token of `source` starting at `pos`, and says where it stopped.
fn scan_token(source: &Vec<char>, pos: usize) -> (found: (Result<Option<Token>, Error>, usize))
    requires
        pos <= source.len(),
    ensures
        agrees(found.0, scan(source@, pos as int).outcome),
        found.1 == scan(source@, pos as int).end,
        pos <= found.1 <= source.len(),
{
    let n = source.len();
    let mut i: usize = pos;
    while i < n
        invariant
            pos <= i <= n,
            n == source.len(),
            scan(source@, i as int) == scan(source@, pos as int),
        decreases n - i,
    {
        let c = source[i];
        if c == '.' {
            return (Ok(Some(Token::Dot)), i + 1);
        } else if c == '|' {
            return (Ok(Some(Token::Bar)), i + 1);
        } else if c == ',' {
            return (Ok(Some(Token::Comma)), i + 1);
        } else if c == ':' {
            return (Ok(Some(Token::Colon)), i + 1);
        } else if c == '[' {
            return (Ok(Some(Token::OpenBracket)), i + 1);
        } else if c == ']' {
            return (Ok(Some(Token::CloseBracket)), i + 1);
        } else if c == '"' {
            let mut close: usize = i + 1;
            while close < n && source[close] != '"'
                invariant
                    i < close <= n,
                    n == source.len(),
                    quote_index(source@, close as int) == quote_index(source@, i + 1),
                decreases n - close,
            {
                close += 1;
            }
            if close < n {
                return (Ok(Some(Token::Str(text_between(source, i + 1, close)))), close + 1);
            } else {
                return (Err(Error::Lexer(String::from_str("Expected closing quote"))), n);
            }
        } else if char_is_digit(c) {
            let mut end: usize = i + 1;
            while end < n && char_is_digit(source[end])
                invariant
                    i < end <= n,
                    n == source.len(),
                    digits_end(source@, end as int) == digits_end(source@, i + 1),
                decreases n - end,
            {
                end += 1;
            }
            return (Ok(Some(Token::Number(text_between(source, i, end)))), end);
        } else if char_is_letter(c) {
            let mut end: usize = i + 1;
            while end < n && (char_is_digit(source[end]) || char_is_letter(source[end]))
                invariant
                    i < end <= n,
                    n == source.len(),
                    word_end(source@, end as int) == word_end(source@, i + 1),
                decreases n - end,
            {
                end += 1;
            }
            return (Ok(Some(Token::Word(text_between(source, i, end)))), end);
        } else if !c.is_whitespace() {
            let mut message = String::from_str("Unexpected char: ");
            message.push(c);
            return (Err(Error::Lexer(message)), i + 1);
        }
        i += 1;
    }
    (Ok(None), i)
}

/// The tokenizer: the characters of an expression, how far they have been
/// read, and at most one token that was read ahead.
pub struct Lexer {
    source: Vec<char>,
    pos: usize,
    next_token: Option<Token>,
}

/// The state of a [`Lexer`]: its input, the index of the first character
/// that it has not read, and the token that it holds in reserve.
pub struct LexerView {
    pub source: Seq<char>,
    pub position: int,
    pub lookahead: Option<TokenView>,
}

impl View for Lexer {
    type V = LexerView;

    closed spec fn view(&self) -> LexerView {
        LexerView {
            source: self.source@,
            position: self.pos as int,
            lookahead: match self.next_token {
                Some(token) => Some(token@),
                None => None,
            },
        }
    }
}

impl LexerView {
    /// A tokenizer that has read nothing of `source` yet.
    pub open spec fn fresh(source: Seq<char>) -> LexerView {
        LexerView { source, position: 0, lookahead: None }
    }

    /// What `get_next` hands out, and the state it leaves: the token that
    /// starts at the position, whatever is held in reserve.
    pub open spec fn get_next(self) -> (Outcome, LexerView) {
        let found = scan(self.source, self.position);
        (found.outcome, LexerView { position: found.end, ..self })
    }

    /// What `peek` hands out, and the state it leaves: the token held in
    /// reserve, or else the token read from the input, which is then held
    /// in reserve.
    pub open spec fn peek(self) -> (Outcome, LexerView) {
        match self.lookahead {
            Some(token) => (Outcome::Token(token), self),
            None => {
                let found = scan(self.source, self.position);
                (
                    found.outcome,
                    LexerView {
                        position: found.end,
                        lookahead: match found.outcome {
                            Outcome::Token(token) => Some(token),
                            _ => None,
                        },
                        ..self
                    },
                )
            },
        }
    }

    /// What `next` hands out, and the state it leaves: the token that `peek`
    /// shows is taken, and the one after it is read into the reserve. A
    /// failure to read that one is reported at once, in place of the token.
    pub open spec fn next(self) -> (Outcome, LexerView) {
        let (first, after) = self.peek();
        match first {
            Outcome::Token(token) => {
                let (second, primed) = (LexerView { lookahead: None, ..after }).peek();
                match second {
                    Outcome::Failure(message) => (Outcome::Failure(message), primed),
                    _ => (Outcome::Token(token), primed),
                }
            },
            _ => (first, after),
        }
    }
}

/// The tokens of `s` from `pos` on, up to the end of `s` or to the first
/// place where no token can be read.
pub open spec fn tokens_from(s: Seq<char>, pos: int) -> Seq<TokenView>
    decreases s.len() - pos,
{
    match scan(s, pos).outcome {
        Outcome::Token(token) => {
            proof {
                lemma_scan_bounds(s, pos);
            }
            seq![token] + tokens_from(s, scan(s, pos).end)
        },
        _ => Seq::empty(),
    }
}

/// The message for the first place of `s` from `pos` on where no token can be
/// read, or `None` if `s` consists of tokens to its end.
pub open spec fn failure_from(s: Seq<char>, pos: int) -> Option<Seq<char>>
    decreases s.len() - pos,
{
    match scan(s, pos).outcome {
        Outcome::Token(_) => {
            proof {
                lemma_scan_bounds(s, pos);
            }
            failure_from(s, scan(s, pos).end)
        },
        Outcome::End => None,
        Outcome::Failure(message) => Some(message),
    }
}

/// What a tokenizer has yet to deliver: the tokens that can be read, and the
/// failure that follows them, if one does.
pub struct TokenStream {
    pub tokens: Seq<TokenView>,
    pub failure: Option<Seq<char>>,
}

impl TokenStream {
    /// The stream of a whole expression.
    pub open spec fn of(source: Seq<char>) -> TokenStream {
        TokenStream { tokens: tokens_from(source, 0), failure: failure_from(source, 0) }
    }

    /// What the call of `next` number `k` hands out, counting from 0.
    ///
    /// Because `next` reads one token ahead, the failure that follows the
    /// last token comes in place of that token.
    pub open spec fn fetch(self, k: int) -> Outcome {
        if 0 <= k && (k + 1 < self.tokens.len() || (k < self.tokens.len() && self.failure is None)) {
            Outcome::Token(self.tokens[k])
        } else if self.failure is Some {
            Outcome::Failure(self.failure->0)
        } else {
            Outcome::End
        }
    }

    /// The stream without its first `n` tokens.
    pub open spec fn skip(self, n: int) -> TokenStream {
        TokenStream { tokens: self.tokens.skip(n), ..self }
    }
}

impl LexerView {
    /// What the tokenizer has yet to deliver.
    pub open spec fn stream(self) -> TokenStream {
        let rest = tokens_from(self.source, self.position);
        TokenStream {
            tokens: match self.lookahead {
                Some(token) => seq![token] + rest,
                None => rest,
            },
            failure: failure_from(self.source, self.position),
        }
    }

    /// Whether the tokenizer has read ahead: it holds a token in reserve, or
    /// the input is exhausted.
    pub open spec fn primed(self) -> bool {
        self.lookahead is Some || scan(self.source, self.position).outcome is End
    }
}

proof fn lemma_run_bounds(s: Seq<char>, from: int)
    requires
        0 <= from <= s.len(),
    ensures
        from <= quote_index(s, from) <= s.len(),
        from <= digits_end(s, from) <= s.len(),
        from <= word_end(s, from) <= s.len(),
    decreases s.len() - from,
{
    if from < s.len() {
        lemma_run_bounds(s, from + 1);
    }
}

/// White space before a token is passed over: reading from a white-space
/// character on finds what reading from behind it finds.
pub proof fn lemma_white_space_is_skipped(s: Seq<char>, pos: int)
    requires
        0 <= pos < s.len(),
        white_space(s[pos]),
    ensures
        scan(s, pos) == scan(s, pos + 1),
{
}

/// The blank, the tab, the line feed and the carriage return are white
/// space.
pub proof fn lemma_blanks_are_white_space()
    ensures
        white_space(' '),
        white_space('\t'),
        white_space('\n'),
        white_space('\r'),
{
}

/// Reading a token moves forward and stays within the input; where nothing
/// is left, the position comes to rest.
pub proof fn lemma_scan_bounds(s: Seq<char>, pos: int)
    ensures
        scan(s, pos).outcome is Token ==> 0 <= pos < scan(s, pos).end <= s.len(),
        scan(s, pos).outcome is Failure ==> 0 <= pos < scan(s, pos).end <= s.len(),
        scan(s, pos).outcome is End ==> pos <= scan(s, pos).end && scan(
            s,
            scan(s, pos).end,
        ) == scan(s, pos),
        0 <= pos <= s.len() ==> scan(s, pos).end <= s.len(),
    decreases s.len() - pos,
{
    if 0 <= pos < s.len() {
        lemma_run_bounds(s, pos + 1);
        lemma_scan_bounds(s, pos + 1);
    }
}

/// `peek` shows the first token of the stream. Once the tokenizer has read
/// ahead, `peek` cannot fail and leaves the stream as it is.
pub proof fn lemma_peek_shows_first(lexer: LexerView)
    requires
        lexer.primed(),
    ensures
        lexer.peek().0 == (if lexer.stream().tokens.len() > 0 {
            Outcome::Token(lexer.stream().tokens[0])
        } else {
            Outcome::End
        }),
        lexer.peek().1.primed(),
        lexer.peek().1.stream() == lexer.stream(),
        lexer.peek().1.source == lexer.source,
{
    lemma_scan_bounds(lexer.source, lexer.position);
}

/// Successive calls of `next` hand out the stream: each call gives what
/// `fetch(0)` says and leaves the rest of the stream, read ahead.
pub proof fn lemma_next_delivers(lexer: LexerView)
    ensures
        lexer.next().0 == lexer.stream().fetch(0),
        lexer.next().1.source == lexer.source,
        lexer.next().0 is Token ==> lexer.next().1.primed() && lexer.next().1.stream()
            == lexer.stream().skip(1),
        lexer.next().0 is End ==> lexer.next().1.primed() && lexer.next().1.stream()
            == lexer.stream() && lexer.stream().tokens.len() == 0,
{
    let s = lexer.source;
    lemma_scan_bounds(s, lexer.position);
    let (first, after) = lexer.peek();
    if first is Token {
        lemma_scan_bounds(s, after.position);
        let rest = tokens_from(s, after.position);
        assert((seq![first->Token_0] + rest).skip(1) == rest);
    }
}

/// Looking at the next token changes nothing that a later call can observe:
/// where `peek` shows a token or the end, `next` gives the same with or
/// without the `peek` before it, and a second `peek` shows the same again.
pub proof fn lemma_peek_is_transparent(lexer: LexerView)
    requires
        !(lexer.peek().0 is Failure),
    ensures
        lexer.peek().1.peek() == lexer.peek(),
        lexer.peek().1.next() == lexer.next(),
{
    lemma_scan_bounds(lexer.source, lexer.position);
}

impl Lexer {
    #[verifier::type_invariant]
    spec fn within_source(self) -> bool {
        self.pos <= self.source.len()
    }

    /// A tokenizer over the given characters.
    pub fn create(chars: Vec<char>) -> (lexer: Lexer)
        ensures
            lexer@ == LexerView::fresh(chars@),
    {
        Lexer { source: chars, pos: 0, next_token: None }
    }

    /// A tokenizer over the characters of `expr`.
    pub fn new(expr: &str) -> (lexer: Lexer)
        ensures
            lexer@ == LexerView::fresh(expr@),
    {
        Lexer::create(chars_of(expr))
    }

    /// Whether `c` is a decimal digit.
    pub fn is_num(&self, c: char) -> (r: bool)
        ensures
            r == is_digit(c),
    {
        char_is_digit(c)
    }

    /// Whether `c` may start a word: a letter or the underscore.
    pub fn is_alpha(&self, c: char) -> (r: bool)
        ensures
            r == is_letter(c),
    {
        char_is_letter(c)
    }

    /// Whether `c` may continue a word: a letter, a digit or the underscore.
    pub fn is_alnum(&self, c: char) -> (r: bool)
        ensures
            r == is_word_char(c),
    {
        self.is_num(c) || self.is_alpha(c)
    }

    /// Reads the next token from the input, past the token held in reserve,
    /// which stays as it is.
    pub fn get_next(&mut self) -> (result: Result<Option<Token>, Error>)
        ensures
            agrees(result, old(self)@.get_next().0),
            final(self)@ == old(self)@.get_next().1,
    {
        proof {
            use_type_invariant(&*self);
        }
        let (result, end) = scan_token(&self.source, self.pos);
        self.pos = end;
        result
    }

    /// Shows the next token without taking it.
    pub fn peek(&mut self) -> (result: Result<Option<Token>, Error>)
        ensures
            agrees(result, old(self)@.peek().0),
            final(self)@ == old(self)@.peek().1,
    {
        if let Some(token) = &self.next_token {
            return Ok(Some(token.clone()));
        }
        let result = self.get_next();
        proof {
            use_type_invariant(&*self);
        }
        if let Ok(Some(token)) = &result {
            self.next_token = Some(token.clone());
        }
        result
    }

    /// Takes the next token, and reads the one after it into the reserve.
    pub fn next(&mut self) -> (result: Result<Option<Token>, Error>)
        ensures
            agrees(result, old(self)@.next().0),
            final(self)@ == old(self)@.next().1,
    {
        let first = self.peek()?;
        if first.is_none() {
            return Ok(None);
        }
        proof {
            use_type_invariant(&*self);
        }
        self.next_token = None;
        self.peek()?;
        Ok(first)
    }
}

} // verus!
