use docfilter::filter::{DataStrategy, FilterExpression, FilterType};
use docfilter::lexer::Token;
use docfilter::parser::{compile, ExpressionParser};
use docfilter::Error;

#[test]
fn parses_keys_expr() {
    let mut parser = ExpressionParser::new(".[]keys");
    let result = parser.parse();

    assert!(result.is_ok(), "should be a success");

    let filters = result.unwrap();
    assert_eq!(
        steps(&filters),
        vec![FilterType::Current, FilterType::Array, FilterType::Keys]
    );
}

#[test]
fn parses_generic_object_index() {
    let mut parser = ExpressionParser::new("[\"what\"]");
    let result = parser.parse();

    assert!(result.is_ok(), "should be a success");

    let filters = result.unwrap();
    assert_eq!(steps(&filters), vec![FilterType::Entry("what".to_string())]);
}

#[test]
fn expects_number_for_array_member() {
    let mut parser = ExpressionParser::new("[|]");
    let result = parser.parse();

    assert!(result.is_err(), "should not be a success");
}

#[test]
fn expects_valid_tokens_sequence() {
    let mut parser = ExpressionParser::new("(what the...)");
    let result = parser.parse();

    assert!(result.is_err(), "should not be a success");
}

#[test]
fn parses_full_ranges() {
    let mut parser = ExpressionParser::new("[1:61]");
    let result = parser.parse();

    assert!(result.is_ok(), "should not be an error");

    let filters = result.unwrap();
    assert_eq!(steps(&filters), vec![FilterType::Range(1, 61)]);
}

#[test]
fn parses_no_end_ranges() {
    let mut parser = ExpressionParser::new("[61:]");
    let result = parser.parse();

    assert!(result.is_ok(), "should not be an error");

    let filters = result.unwrap();
    assert_eq!(steps(&filters), vec![FilterType::Range(61, 0)]);
}

#[test]
fn parses_no_start_ranges() {
    let mut parser = ExpressionParser::new("[:61]");
    let result = parser.parse();

    assert!(result.is_ok(), "should not be an error");

    let filters = result.unwrap();
    assert_eq!(steps(&filters), vec![FilterType::Range(0, 61)]);
}

#[test]
fn parses_open_ranges() {
    let mut parser = ExpressionParser::new("[:]");
    let result = parser.parse();

    assert!(result.is_ok(), "should not be an error");

    let filters = result.unwrap();
    assert_eq!(steps(&filters), vec![FilterType::Range(0, 0)]);
}

#[test]
fn bar_adds_sets() {
    let mut parser = ExpressionParser::new("[]|keys");
    let result = parser.parse();
    assert!(result.is_ok(), "should not be an error");

    let filters = result.unwrap();
    assert_eq!(filters.groups.len(), 2, "there should be 2 groups");
    assert_eq!(filters.groups[0].sets[0].types, vec![FilterType::Array]);
    assert_eq!(filters.groups[1].sets[0].types, vec![FilterType::Keys]);
}

fn steps(expression: &FilterExpression) -> Vec<FilterType> {
    let mut all = Vec::new();
    for group in &expression.groups {
        for set in &group.sets {
            for step in &set.types {
                all.push(step.clone());
            }
        }
    }
    all
}

fn shape(expression: &FilterExpression) -> Vec<(bool, Vec<Vec<FilterType>>)> {
    let mut groups = Vec::new();
    for group in &expression.groups {
        let mut sets = Vec::new();
        for set in &group.sets {
            sets.push(set.types.clone());
        }
        groups.push((group.strategy == DataStrategy::Concat, sets));
    }
    groups
}

fn parser_message(text: &str) -> String {
    match compile(text) {
        Err(Error::Parser(message)) => message,
        other => panic!("expected a parser error for {:?}, got {:?}", text, other),
    }
}

fn lexer_message(text: &str) -> String {
    match compile(text) {
        Err(Error::Lexer(message)) => message,
        other => panic!("expected a lexer error for {:?}, got {:?}", text, other),
    }
}

#[test]
fn compiles_identity_sequence_and_keys() {
    let expression = compile(".[]|keys").unwrap();
    assert_eq!(
        steps(&expression),
        vec![FilterType::Current, FilterType::Array, FilterType::Keys]
    );
    assert_eq!(
        shape(&expression),
        vec![
            (false, vec![vec![FilterType::Current, FilterType::Array]]),
            (false, vec![vec![FilterType::Keys]]),
        ]
    );
}

#[test]
fn compiles_quoted_key() {
    let expression = compile("[\"name\"]").unwrap();
    assert_eq!(steps(&expression), vec![FilterType::Entry("name".to_string())]);
}

#[test]
fn compiles_the_empty_text_to_the_initial_expression() {
    let expression = compile("").unwrap();
    assert_eq!(shape(&expression), vec![(false, Vec::<Vec<FilterType>>::new())]);
    let blank = compile("   ").unwrap();
    assert_eq!(steps(&blank), Vec::<FilterType>::new());
}

#[test]
fn dot_takes_the_word_behind_it() {
    assert_eq!(
        steps(&compile(".name").unwrap()),
        vec![FilterType::Entry("name".to_string())]
    );
    assert_eq!(
        steps(&compile(".keys").unwrap()),
        vec![FilterType::Entry("keys".to_string())]
    );
    assert_eq!(
        steps(&compile(". name").unwrap()),
        vec![FilterType::Entry("name".to_string())]
    );
}

#[test]
fn bare_dot_is_identity_also_at_the_end() {
    assert_eq!(steps(&compile(".").unwrap()), vec![FilterType::Current]);
    assert_eq!(
        steps(&compile("[0]|.").unwrap()),
        vec![FilterType::Member(0), FilterType::Current]
    );
    assert_eq!(
        steps(&compile("..").unwrap()),
        vec![FilterType::Current, FilterType::Current]
    );
}

#[test]
fn comma_makes_the_group_collect() {
    let expression = compile(".users[]|.id,.name").unwrap();
    assert_eq!(
        shape(&expression),
        vec![
            (
                false,
                vec![vec![FilterType::Entry("users".to_string()), FilterType::Array]]
            ),
            (
                true,
                vec![
                    vec![FilterType::Entry("id".to_string())],
                    vec![FilterType::Entry("name".to_string())],
                ]
            ),
        ]
    );
    let first = compile(".a,.b|.c").unwrap();
    assert_eq!(
        shape(&first),
        vec![
            (
                true,
                vec![
                    vec![FilterType::Entry("a".to_string())],
                    vec![FilterType::Entry("b".to_string())],
                ]
            ),
            (false, vec![vec![FilterType::Entry("c".to_string())]]),
        ]
    );
}

#[test]
fn steps_keep_the_order_of_the_text() {
    let expression = compile(".a[3]|keys,[:2],.|[\"k\"][]").unwrap();
    assert_eq!(
        steps(&expression),
        vec![
            FilterType::Entry("a".to_string()),
            FilterType::Member(3),
            FilterType::Keys,
            FilterType::Range(0, 2),
            FilterType::Current,
            FilterType::Entry("k".to_string()),
            FilterType::Array,
        ]
    );
}

#[test]
fn compiles_indices() {
    assert_eq!(steps(&compile("[0]").unwrap()), vec![FilterType::Member(0)]);
    assert_eq!(steps(&compile("[007]").unwrap()), vec![FilterType::Member(7)]);
    assert_eq!(steps(&compile("[ 42 ]").unwrap()), vec![FilterType::Member(42)]);
    assert_eq!(steps(&compile("[]").unwrap()), vec![FilterType::Array]);
}

#[test]
fn rejects_ranges_in_the_wrong_order() {
    assert_eq!(
        parser_message("[5:3]"),
        "invalid range: start (5) has to be less than end (3)"
    );
    assert_eq!(
        parser_message("[5:5]"),
        "invalid range: start (5) has to be less than end (5)"
    );
    assert_eq!(
        parser_message(".a|[10:1]"),
        "invalid range: start (10) has to be less than end (1)"
    );
    assert_eq!(steps(&compile("[0:0]").unwrap()), vec![FilterType::Range(0, 0)]);
    assert_eq!(steps(&compile("[0:5]").unwrap()), vec![FilterType::Range(0, 5)]);
    assert_eq!(steps(&compile("[4:5]").unwrap()), vec![FilterType::Range(4, 5)]);
}

#[test]
fn new_range_checks_the_bounds() {
    assert_eq!(ExpressionParser::new_range(0, 0).unwrap(), FilterType::Range(0, 0));
    assert_eq!(ExpressionParser::new_range(3, 0).unwrap(), FilterType::Range(3, 0));
    assert_eq!(ExpressionParser::new_range(0, 3).unwrap(), FilterType::Range(0, 3));
    assert_eq!(ExpressionParser::new_range(2, 3).unwrap(), FilterType::Range(2, 3));
    assert!(matches!(ExpressionParser::new_range(3, 3), Err(Error::Parser(_))));
    assert!(matches!(ExpressionParser::new_range(4, 3), Err(Error::Parser(_))));
    assert!(matches!(ExpressionParser::new_range(1, 1), Err(Error::Parser(_))));
}

#[test]
fn range_expression_reads_its_tokens() {
    let number = |digits: &str| Token::Number(digits.to_string());
    assert_eq!(
        ExpressionParser::parse_range_expression(vec![Token::Colon]).unwrap(),
        FilterType::Range(0, 0)
    );
    assert_eq!(
        ExpressionParser::parse_range_expression(vec![number("2"), Token::Colon, number("9")])
            .unwrap(),
        FilterType::Range(2, 9)
    );
    assert_eq!(
        ExpressionParser::parse_range_expression(vec![number("2"), Token::Colon]).unwrap(),
        FilterType::Range(2, 0)
    );
    assert_eq!(
        ExpressionParser::parse_range_expression(vec![Token::Colon, number("9")]).unwrap(),
        FilterType::Range(0, 9)
    );
    assert!(matches!(
        ExpressionParser::parse_range_expression(vec![number("2")]),
        Err(Error::Parser(_))
    ));
    assert!(matches!(
        ExpressionParser::parse_range_expression(Vec::new()),
        Err(Error::Parser(_))
    ));
}

#[test]
fn malformed_ranges_are_parser_errors() {
    assert_eq!(
        parser_message("[\"a\":1]"),
        "expected colon or start range, got string a"
    );
    assert_eq!(parser_message("[1 2:3]"), "invalid range, expected colon separator");
    assert_eq!(parser_message("[1:a]"), "expected end range, got word a");
    assert_eq!(parser_message("[1:2:3]"), "invalid range, unexpected colon");
    assert_eq!(parser_message("[1:2 3]"), "invalid range, unexpected number 3");
}

#[test]
fn malformed_brackets_are_parser_errors() {
    assert_eq!(
        parser_message("[|]"),
        "expected number, string or range in bracketed expression, got bar"
    );
    assert_eq!(parser_message("[1 2]"), "invalid bracket expression");
    assert_eq!(parser_message("[[0]"), "invalid bracket expression");
    assert_eq!(parser_message("[0"), "bracketed expression not closed");
    assert_eq!(parser_message("["), "bracketed expression not closed");
    assert_eq!(parser_message(".a["), "bracketed expression not closed");
}

#[test]
fn numbers_beyond_the_machine_word_are_parser_errors() {
    assert_eq!(
        parser_message("[340282366920938463463374607431768211456]"),
        "invalid number: 340282366920938463463374607431768211456"
    );
    assert!(matches!(
        compile("[1:340282366920938463463374607431768211456]"),
        Err(Error::Parser(_))
    ));
    assert!(matches!(
        compile("[340282366920938463463374607431768211456:]"),
        Err(Error::Parser(_))
    ));
}

#[test]
fn unknown_words_and_stray_tokens_are_parser_errors() {
    assert_eq!(parser_message("key"), "unknown keyword: key");
    assert_eq!(parser_message(".a b"), "unknown keyword: b");
    assert_eq!(parser_message("]"), "unexpected token: close bracket");
    assert_eq!(parser_message(":"), "unexpected token: colon");
    assert_eq!(parser_message("12"), "unexpected token: number 12");
    assert_eq!(parser_message("\"text\""), "unexpected token: string text");
}

#[test]
fn characters_that_start_no_token_are_lexer_errors() {
    assert_eq!(lexer_message("(bad)"), "Unexpected char: (");
    assert_eq!(lexer_message(".a|#"), "Unexpected char: #");
    assert_eq!(lexer_message("[\"open"), "Expected closing quote");
}

#[test]
fn a_lexer_error_comes_in_place_of_the_token_before_it() {
    assert_eq!(lexer_message("key #"), "Unexpected char: #");
    assert_eq!(parser_message("key . #"), "unknown keyword: key");
}

#[test]
fn parse_reads_the_input_to_its_end() {
    let mut parser = ExpressionParser::new(".a");
    assert!(parser.parse().is_ok());
    let again = parser.parse().unwrap();
    assert_eq!(steps(&again), Vec::<FilterType>::new());
}

#[test]
fn expression_is_written_as_it_was_read() {
    assert_eq!(compile(".[]|keys").unwrap().to_text(), ".[]|keys");
    assert_eq!(compile(" [ 1 : 61 ] ").unwrap().to_text(), "[1:61]");
    assert_eq!(compile(".a,[0]|[\"k\"]").unwrap().to_text(), "[\"a\"],[0]|[\"k\"]");
    assert_eq!(compile("").unwrap().to_text(), "");
}
