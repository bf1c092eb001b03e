use docfilter::lexer::{chars_of, Lexer, Token};
use docfilter::Error;

#[test]
fn recognizes_chars_alpha() {
    let lex = Lexer::new("");
    assert!(lex.is_alpha('t'), "t is alpha");
    assert!(!lex.is_alpha('1'), "1 is not alpha");
    assert!(!lex.is_alpha('#'), "# is not alpha");
}

#[test]
fn recognizes_chars_num() {
    let lex = Lexer::new("");
    assert!(!lex.is_num('t'), "t is not num");
    assert!(lex.is_num('1'), "1 is num");
    assert!(!lex.is_num('#'), "# is not num");
}

#[test]
fn recognizes_chars_alnum() {
    let lex = Lexer::new("");
    assert!(lex.is_alnum('t'), "t is alnum");
    assert!(lex.is_alnum('1'), "1 is alnum");
    assert!(!lex.is_alnum('#'), "# is not alnum");
}

#[test]
fn lexes_words() {
    let mut lex = Lexer::new("two words");
    let r1 = lex.next().unwrap();
    if let Some(Token::Word(w)) = r1 {
        assert_eq!(w, "two");
    } else {
        assert!(false, "expected word token");
    }

    let r2 = lex.next().unwrap();
    if let Some(Token::Word(w)) = r2 {
        assert_eq!(w, "words");
    } else {
        assert!(false, "expected word token");
    }

    let r3 = lex.next().unwrap();
    assert!(r3.is_none(), "expected end of input");
}

#[test]
fn lexes_strings() {
    let mut lex = Lexer::new("\"whatever the hell this is\"");

    let r1 = lex.next().unwrap();
    if let Some(Token::Str(s)) = r1 {
        assert_eq!(s, "whatever the hell this is");
    } else {
        assert!(false, "expected string token");
    }

    let r2 = lex.next().unwrap();
    assert!(r2.is_none(), "expected end of input");
}

#[test]
fn lexes_numbers() {
    let mut lex = Lexer::new("1312 161");
    let r1 = lex.next().unwrap();
    if let Some(Token::Number(w)) = r1 {
        assert_eq!(w, "1312");
    } else {
        assert!(false, "expected number token");
    }

    let r2 = lex.next().unwrap();
    if let Some(Token::Number(w)) = r2 {
        assert_eq!(w, "161");
    } else {
        assert!(false, "expected number token");
    }

    let r3 = lex.next().unwrap();
    assert!(r3.is_none(), "expected end of input");
}

#[test]
fn lexes_ranges() {
    let mut lex = Lexer::new("[161:1312]");

    let r1 = lex.next().unwrap();
    assert_eq!(Some(Token::OpenBracket), r1, "expected open bracket");

    let r2 = lex.next().unwrap();
    if let Some(Token::Number(w)) = r2 {
        assert_eq!(w, "161");
    } else {
        assert!(false, "expected number token");
    }

    let r3 = lex.next().unwrap();
    assert_eq!(Some(Token::Colon), r3, "expected colon");

    let r4 = lex.next().unwrap();
    if let Some(Token::Number(w)) = r4 {
        assert_eq!(w, "1312");
    } else {
        assert!(false, "expected number token");
    }

    let r5 = lex.next().unwrap();
    assert_eq!(Some(Token::CloseBracket), r5, "expected close bracket");

    let r6 = lex.next().unwrap();
    assert!(r6.is_none(), "expected end of input");
}

fn all_tokens(text: &str) -> Vec<Token> {
    let mut lex = Lexer::new(text);
    let mut tokens = Vec::new();
    while let Some(token) = lex.next().unwrap() {
        tokens.push(token);
    }
    tokens
}

#[test]
fn lexes_every_punctuation_mark() {
    assert_eq!(
        all_tokens(".|,:[]"),
        vec![
            Token::Dot,
            Token::Bar,
            Token::Comma,
            Token::Colon,
            Token::OpenBracket,
            Token::CloseBracket,
        ]
    );
}

#[test]
fn keeps_every_token_between_blanks() {
    assert_eq!(
        all_tokens(" a  b\tc\n12 \"x y\" "),
        vec![
            Token::Word("a".to_string()),
            Token::Word("b".to_string()),
            Token::Word("c".to_string()),
            Token::Number("12".to_string()),
            Token::Str("x y".to_string()),
        ]
    );
}

#[test]
fn words_and_numbers_are_as_long_as_they_can_be() {
    assert_eq!(
        all_tokens("_a1b2.007x"),
        vec![
            Token::Word("_a1b2".to_string()),
            Token::Dot,
            Token::Number("007".to_string()),
            Token::Word("x".to_string()),
        ]
    );
}

#[test]
fn empty_input_has_no_token() {
    let mut lex = Lexer::new("");
    assert_eq!(lex.peek().unwrap(), None);
    assert_eq!(lex.next().unwrap(), None);
    let mut blank = Lexer::new("  \t ");
    assert_eq!(blank.next().unwrap(), None);
    assert_eq!(blank.next().unwrap(), None);
}

#[test]
fn empty_string_literal_is_a_token() {
    assert_eq!(all_tokens("\"\""), vec![Token::Str(String::new())]);
}

#[test]
fn peek_does_not_take_the_token() {
    let mut lex = Lexer::new(".name");
    assert_eq!(lex.peek().unwrap(), Some(Token::Dot));
    assert_eq!(lex.peek().unwrap(), Some(Token::Dot));
    assert_eq!(lex.next().unwrap(), Some(Token::Dot));
    assert_eq!(lex.peek().unwrap(), Some(Token::Word("name".to_string())));
    assert_eq!(lex.next().unwrap(), Some(Token::Word("name".to_string())));
    assert_eq!(lex.peek().unwrap(), None);
    assert_eq!(lex.next().unwrap(), None);
}

#[test]
fn get_next_reads_past_the_reserve() {
    let mut lex = Lexer::new("a b c");
    assert_eq!(lex.peek().unwrap(), Some(Token::Word("a".to_string())));
    assert_eq!(lex.get_next().unwrap(), Some(Token::Word("b".to_string())));
    assert_eq!(lex.peek().unwrap(), Some(Token::Word("a".to_string())));
    assert_eq!(lex.get_next().unwrap(), Some(Token::Word("c".to_string())));
    assert_eq!(lex.get_next().unwrap(), None);
}

#[test]
fn unclosed_quote_is_a_lexer_error() {
    let mut lex = Lexer::new("\"never closed");
    match lex.next() {
        Err(Error::Lexer(message)) => assert_eq!(message, "Expected closing quote"),
        other => panic!("expected a lexer error, got {:?}", other),
    }
}

#[test]
fn unexpected_character_is_a_lexer_error() {
    let mut lex = Lexer::new("#");
    match lex.next() {
        Err(Error::Lexer(message)) => assert_eq!(message, "Unexpected char: #"),
        other => panic!("expected a lexer error, got {:?}", other),
    }
    let mut wide = Lexer::new("\u{130}");
    assert!(matches!(wide.next(), Err(Error::Lexer(_))));
    assert!(!wide.is_num('\u{130}'));
    assert!(!wide.is_alpha('\u{141}'));
}

#[test]
fn next_reports_a_failure_behind_the_token_at_once() {
    let mut lex = Lexer::new(". #");
    assert!(matches!(lex.next(), Err(Error::Lexer(_))));
    let mut later = Lexer::new(". . #");
    assert_eq!(later.next().unwrap(), Some(Token::Dot));
    assert!(matches!(later.next(), Err(Error::Lexer(_))));
}

#[test]
fn create_starts_from_the_given_characters() {
    let mut lex = Lexer::create(vec!['[', '7', ']']);
    assert_eq!(lex.next().unwrap(), Some(Token::OpenBracket));
    assert_eq!(lex.next().unwrap(), Some(Token::Number("7".to_string())));
    assert_eq!(lex.next().unwrap(), Some(Token::CloseBracket));
    assert_eq!(lex.next().unwrap(), None);
}

#[test]
fn chars_of_lists_the_characters() {
    assert_eq!(chars_of("a\u{e9}z"), vec!['a', '\u{e9}', 'z']);
    assert_eq!(chars_of(""), Vec::<char>::new());
}

#[test]
fn describe_names_each_token() {
    assert_eq!(Token::OpenBracket.describe(), "open bracket");
    assert_eq!(Token::CloseBracket.describe(), "close bracket");
    assert_eq!(Token::Dot.describe(), "dot");
    assert_eq!(Token::Bar.describe(), "bar");
    assert_eq!(Token::Comma.describe(), "comma");
    assert_eq!(Token::Colon.describe(), "colon");
    assert_eq!(Token::Number("12".to_string()).describe(), "number 12");
    assert_eq!(Token::Word("keys".to_string()).describe(), "word keys");
    assert_eq!(Token::Str("a b".to_string()).describe(), "string a b");
}

#[test]
fn clone_copies_a_token() {
    let token = Token::Word("keys".to_string());
    assert_eq!(token.clone(), token);
    assert_eq!(Token::Colon.clone(), Token::Colon);
}

fn has_white_space_property(c: char) -> bool {
    matches!(
        c,
        '\u{9}'..='\u{D}'
            | ' '
            | '\u{85}'
            | '\u{A0}'
            | '\u{1680}'
            | '\u{2000}'..='\u{200A}'
            | '\u{2028}'
            | '\u{2029}'
            | '\u{202F}'
            | '\u{205F}'
            | '\u{3000}'
    )
}

#[test]
fn skips_exactly_the_white_space_characters() {
    let marks = ['.', '|', ',', ':', '[', ']', '"'];
    for c in '\0'..=char::MAX {
        if marks.contains(&c) || c.is_ascii_alphanumeric() || c == '_' {
            continue;
        }
        let mut lex = Lexer::create(vec![c]);
        match lex.get_next() {
            Ok(None) => assert!(has_white_space_property(c), "skipped {:?}", c),
            Err(Error::Lexer(message)) => {
                assert!(!has_white_space_property(c), "refused {:?}", c);
                assert_eq!(message, format!("Unexpected char: {}", c));
            }
            other => panic!("{:?} gave {:?}", c, other),
        }
    }
}

#[test]
fn blank_tab_and_line_end_part_tokens() {
    assert_eq!(
        all_tokens("a b\tc\nd\r\ne"),
        vec![
            Token::Word("a".to_string()),
            Token::Word("b".to_string()),
            Token::Word("c".to_string()),
            Token::Word("d".to_string()),
            Token::Word("e".to_string()),
        ]
    );
    assert_eq!(
        all_tokens("a\u{A0}1\u{3000}."),
        vec![Token::Word("a".to_string()), Token::Number("1".to_string()), Token::Dot]
    );
}
