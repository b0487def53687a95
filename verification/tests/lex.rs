use promql_parser::parser::lex::{is_alpha, is_alpha_numeric, is_label, lexemes, tokenize, Lexeme};
use promql_parser::parser::token::TokenId;
use promql_parser::parser::token::{
    T_ADD, T_AT, T_ATAN2, T_AVG, T_BOOL, T_BY, T_COLON, T_COMMA, T_COUNT, T_DIV, T_DURATION, T_END, T_EQL, T_EQLC, T_EQL_REGEX, T_GROUP_LEFT, T_GROUP_RIGHT, T_GTE, T_GTR, T_IDENTIFIER, T_IGNORING, T_LAND, T_LEFT_BRACE, T_LEFT_BRACKET, T_LEFT_PAREN, T_LOR, T_LSS, T_LTE, T_LUNLESS, T_MAX, T_METRIC_IDENTIFIER, T_MIN, T_MOD, T_MUL, T_NEQ, T_NEQ_REGEX, T_NUMBER, T_OFFSET, T_ON, T_POW, T_RIGHT_BRACE, T_RIGHT_BRACKET, T_RIGHT_PAREN, T_START, T_STDDEV, T_STDVAR, T_STRING, T_SUB, T_SUM, T_WITHOUT,
};

type LexemeTuple = (TokenId, usize, usize);
/// - MatchTuple.0 is input
/// - MatchTuple.1 is the expected generated Lexemes
/// - MatchTuple.2 is the Err info if the input is invalid PromQL query
type MatchTuple = (&'static str, Vec<LexemeTuple>, Option<&'static str>);

fn assert_matches(v: Vec<MatchTuple>) {
    for (input, lexemes_expected, err) in v {
        let mut expected: Vec<Result<Lexeme, String>> = lexemes_expected
            .into_iter()
            .map(|(token_id, start, len)| Ok(Lexeme::new(token_id, start, len)))
            .collect();
        if let Some(e) = err {
            expected.push(Err(e.to_string()));
        }
        let actual = lexemes(input);
        assert_eq!(expected, actual, "\n<input>: {}", input);
    }
}

#[test]
fn test_common() {
    let cases = vec![
        (",", vec![(T_COMMA, 0, 1)], None),
        (
            "()",
            vec![(T_LEFT_PAREN, 0, 1), (T_RIGHT_PAREN, 1, 1)],
            None,
        ),
        (
            "{}",
            vec![(T_LEFT_BRACE, 0, 1), (T_RIGHT_BRACE, 1, 1)],
            None,
        ),
        (
            "[5m]",
            vec![
                (T_LEFT_BRACKET, 0, 1),
                (T_DURATION, 1, 2),
                (T_RIGHT_BRACKET, 3, 1),
            ],
            None,
        ),
        (
            "[ 5m]",
            vec![
                (T_LEFT_BRACKET, 0, 1),
                (T_DURATION, 2, 2),
                (T_RIGHT_BRACKET, 4, 1),
            ],
            None,
        ),
        (
            "[  5m]",
            vec![
                (T_LEFT_BRACKET, 0, 1),
                (T_DURATION, 3, 2),
                (T_RIGHT_BRACKET, 5, 1),
            ],
            None,
        ),
        (
            "[  5m ]",
            vec![
                (T_LEFT_BRACKET, 0, 1),
                (T_DURATION, 3, 2),
                (T_RIGHT_BRACKET, 6, 1),
            ],
            None,
        ),
        ("\r\n\r", vec![], None),
    ];

    assert_matches(cases);
}

#[test]
fn test_numbers() {
    let cases = vec![
        ("1", vec![(T_NUMBER, 0, 1)], None),
        ("4.23", vec![(T_NUMBER, 0, 4)], None),
        (".3", vec![(T_NUMBER, 0, 2)], None),
        ("5.", vec![(T_NUMBER, 0, 2)], None),
        ("NaN", vec![(T_NUMBER, 0, 3)], None),
        ("nAN", vec![(T_NUMBER, 0, 3)], None),
        ("NaN 123", vec![(T_NUMBER, 0, 3), (T_NUMBER, 4, 3)], None),
        ("NaN123", vec![(T_IDENTIFIER, 0, 6)], None),
        ("iNf", vec![(T_NUMBER, 0, 3)], None),
        ("Inf", vec![(T_NUMBER, 0, 3)], None),
        ("+Inf", vec![(T_ADD, 0, 1), (T_NUMBER, 1, 3)], None),
        (
            "+Inf 123",
            vec![(T_ADD, 0, 1), (T_NUMBER, 1, 3), (T_NUMBER, 5, 3)],
            None,
        ),
        (
            "-Inf 123",
            vec![(T_SUB, 0, 1), (T_NUMBER, 1, 3), (T_NUMBER, 5, 3)],
            None,
        ),
        ("Infoo", vec![(T_IDENTIFIER, 0, 5)], None),
        ("-Inf123", vec![(T_SUB, 0, 1), (T_IDENTIFIER, 1, 6)], None),
        (
            "-Inf 123",
            vec![(T_SUB, 0, 1), (T_NUMBER, 1, 3), (T_NUMBER, 5, 3)],
            None,
        ),
        ("0x123", vec![(T_NUMBER, 0, 5)], None),
    ];
    assert_matches(cases);
}

#[test]
fn test_strings() {
    let cases = vec![
        ("\"test\\tsequence\"", vec![(T_STRING, 1, 14)], None),
        ("\"test\\\\.expression\"", vec![(T_STRING, 1, 17)], None),
        (
            "\"test\\.expression\"",
            vec![],
            Some("unknown escape sequence '.'"),
        ),
        (
            "`test\\.expression`",
            vec![],
            Some("unknown escape sequence '.'"),
        ),
        (".٩", vec![], Some("unexpected character after '.': '٩'")),
    ];
    assert_matches(cases);
}

#[test]
fn test_durations() {
    let cases = vec![
        ("5s", vec![(T_DURATION, 0, 2)], None),
        ("123m", vec![(T_DURATION, 0, 4)], None),
        ("1h", vec![(T_DURATION, 0, 2)], None),
        ("3w", vec![(T_DURATION, 0, 2)], None),
        ("1y", vec![(T_DURATION, 0, 2)], None),
    ];
    assert_matches(cases);
}

#[test]
fn test_identifiers() {
    let cases = vec![
        ("abc", vec![(T_IDENTIFIER, 0, 3)], None),
        ("a:bc", vec![(T_METRIC_IDENTIFIER, 0, 4)], None),
        (
            "abc d",
            vec![(T_IDENTIFIER, 0, 3), (T_IDENTIFIER, 4, 1)],
            None,
        ),
        (":bc", vec![(T_METRIC_IDENTIFIER, 0, 3)], None),
        ("0a:bc", vec![], Some("bad number or duration syntax: 0a")),
    ];
    assert_matches(cases);
}

#[test]
fn test_comments() {
    let cases = vec![
        ("# some comment", vec![], None),
        ("5 # 1+1\n5", vec![(T_NUMBER, 0, 1), (T_NUMBER, 8, 1)], None),
    ];
    assert_matches(cases);
}

#[test]
fn test_operators() {
    let cases = vec![
        ("=", vec![(T_EQL, 0, 1)], None),
        (
            "{=}",
            vec![(T_LEFT_BRACE, 0, 1), (T_EQL, 1, 1), (T_RIGHT_BRACE, 2, 1)],
            None,
        ),
        ("==", vec![(T_EQLC, 0, 2)], None),
        ("!=", vec![(T_NEQ, 0, 2)], None),
        ("<", vec![(T_LSS, 0, 1)], None),
        (">", vec![(T_GTR, 0, 1)], None),
        (">=", vec![(T_GTE, 0, 2)], None),
        ("<=", vec![(T_LTE, 0, 2)], None),
        ("+", vec![(T_ADD, 0, 1)], None),
        ("-", vec![(T_SUB, 0, 1)], None),
        ("*", vec![(T_MUL, 0, 1)], None),
        ("/", vec![(T_DIV, 0, 1)], None),
        ("^", vec![(T_POW, 0, 1)], None),
        ("%", vec![(T_MOD, 0, 1)], None),
        ("AND", vec![(T_LAND, 0, 3)], None),
        ("or", vec![(T_LOR, 0, 2)], None),
        ("unless", vec![(T_LUNLESS, 0, 6)], None),
        ("@", vec![(T_AT, 0, 1)], None),
    ];
    assert_matches(cases);
}

#[test]
fn test_aggregators() {
    let cases = vec![
        ("sum", vec![(T_SUM, 0, 3)], None),
        ("AVG", vec![(T_AVG, 0, 3)], None),
        ("Max", vec![(T_MAX, 0, 3)], None),
        ("min", vec![(T_MIN, 0, 3)], None),
        ("count", vec![(T_COUNT, 0, 5)], None),
        ("stdvar", vec![(T_STDVAR, 0, 6)], None),
        ("stddev", vec![(T_STDDEV, 0, 6)], None),
    ];
    assert_matches(cases);
}

#[test]
fn test_keywords() {
    let cases = vec![
        ("offset", vec![(T_OFFSET, 0, 6)], None),
        ("by", vec![(T_BY, 0, 2)], None),
        ("without", vec![(T_WITHOUT, 0, 7)], None),
        ("on", vec![(T_ON, 0, 2)], None),
        ("ignoring", vec![(T_IGNORING, 0, 8)], None),
        ("group_left", vec![(T_GROUP_LEFT, 0, 10)], None),
        ("group_right", vec![(T_GROUP_RIGHT, 0, 11)], None),
        ("bool", vec![(T_BOOL, 0, 4)], None),
        ("atan2", vec![(T_ATAN2, 0, 5)], None),
    ];
    assert_matches(cases);
}

#[test]
fn lex_test_preprocessors() {
    let cases = vec![
        ("start", vec![(T_START, 0, 5)], None),
        ("end", vec![(T_END, 0, 3)], None),
    ];
    assert_matches(cases);
}

#[test]
fn test_selectors() {
    let cases = vec![
        ("北京", vec![], Some("unexpected character: '北'")),
        ("北京='a'", vec![], Some("unexpected character: '北'")),
        ("0a='a'", vec![], Some("bad number or duration syntax: 0a")),
        (
            "{foo='bar'}",
            vec![
                (T_LEFT_BRACE, 0, 1),
                (T_IDENTIFIER, 1, 3),
                (T_EQL, 4, 1),
                (T_STRING, 6, 3),
                (T_RIGHT_BRACE, 10, 1),
            ],
            None,
        ),
        (
            r#"{foo="bar"}"#,
            vec![
                (T_LEFT_BRACE, 0, 1),
                (T_IDENTIFIER, 1, 3),
                (T_EQL, 4, 1),
                (T_STRING, 6, 3),
                (T_RIGHT_BRACE, 10, 1),
            ],
            None,
        ),
        (
            r#"{foo="bar\"bar"}"#,
            vec![
                (T_LEFT_BRACE, 0, 1),
                (T_IDENTIFIER, 1, 3),
                (T_EQL, 4, 1),
                (T_STRING, 6, 8),
                (T_RIGHT_BRACE, 15, 1),
            ],
            None,
        ),
        (
            r#"{NaN	!= "bar" }"#,
            vec![
                (T_LEFT_BRACE, 0, 1),
                (T_IDENTIFIER, 1, 3),
                (T_NEQ, 5, 2),
                (T_STRING, 9, 3),
                (T_RIGHT_BRACE, 14, 1),
            ],
            None,
        ),
        (
            r#"{alert=~"bar" }"#,
            vec![
                (T_LEFT_BRACE, 0, 1),
                (T_IDENTIFIER, 1, 5),
                (T_EQL_REGEX, 6, 2),
                (T_STRING, 9, 3),
                (T_RIGHT_BRACE, 14, 1),
            ],
            None,
        ),
        (
            r#"{on!~"bar"}"#,
            vec![
                (T_LEFT_BRACE, 0, 1),
                (T_IDENTIFIER, 1, 2),
                (T_NEQ_REGEX, 3, 2),
                (T_STRING, 6, 3),
                (T_RIGHT_BRACE, 10, 1),
            ],
            None,
        ),
        (
            r#"{alert!#"bar"}"#,
            vec![(T_LEFT_BRACE, 0, 1), (T_IDENTIFIER, 1, 5)],
            Some("unexpected character after '!' inside braces: '#'"),
        ),
        (
            r#"{foo:a="bar"}"#,
            vec![(T_LEFT_BRACE, 0, 1), (T_IDENTIFIER, 1, 3)],
            Some("unexpected character inside braces: ':'"),
        ),
    ];
    assert_matches(cases);
}

#[test]
fn test_common_errors() {
    let cases = vec![
        ("=~", vec![], Some("unexpected character after '=': '~'")),
        ("!~", vec![], Some("unexpected character after '!': '~'")),
        ("!(", vec![], Some("unexpected character after '!': '('")),
        ("1a", vec![], Some("bad number or duration syntax: 1a")),
    ];
    assert_matches(cases);
}

#[test]
fn test_mismatched_parentheses() {
    let cases = vec![
        (
            "(",
            vec![(T_LEFT_PAREN, 0, 1)],
            Some("unclosed left parenthesis"),
        ),
        (")", vec![], Some("unexpected right parenthesis ')'")),
        (
            "())",
            vec![(T_LEFT_PAREN, 0, 1), (T_RIGHT_PAREN, 1, 1)],
            Some("unexpected right parenthesis ')'"),
        ),
        (
            "(()",
            vec![
                (T_LEFT_PAREN, 0, 1),
                (T_LEFT_PAREN, 1, 1),
                (T_RIGHT_PAREN, 2, 1),
            ],
            Some("unclosed left parenthesis"),
        ),
        (
            "{",
            vec![(T_LEFT_BRACE, 0, 1)],
            Some("unexpected end of input inside braces"),
        ),
        ("}", vec![], Some("unexpected right brace '}'")),
        (
            "{{",
            vec![(T_LEFT_BRACE, 0, 1)],
            Some("unexpected left brace '{' inside braces"),
        ),
        (
            "{{}}",
            vec![(T_LEFT_BRACE, 0, 1)],
            Some("unexpected left brace '{' inside braces"),
        ),
        (
            "[",
            vec![(T_LEFT_BRACKET, 0, 1)],
            Some("unexpected end of input inside brackets"),
        ),
        (
            "[[",
            vec![(T_LEFT_BRACKET, 0, 1)],
            Some("unexpected left brace '[' inside brackets"),
        ),
        (
            "[]]",
            vec![(T_LEFT_BRACKET, 0, 1), (T_RIGHT_BRACKET, 1, 1)],
            Some("unexpected right bracket ']'"),
        ),
        (
            "[[]]",
            vec![(T_LEFT_BRACKET, 0, 1)],
            Some("unexpected left brace '[' inside brackets"),
        ),
        ("]", vec![], Some("unexpected right bracket ']'")),
    ];
    assert_matches(cases);
}

#[test]
fn test_subqueries() {
    let cases = vec![
        (
            r#"test_name{on!~"bar"}[4m:4s]"#,
            vec![
                (T_IDENTIFIER, 0, 9),
                (T_LEFT_BRACE, 9, 1),
                (T_IDENTIFIER, 10, 2),
                (T_NEQ_REGEX, 12, 2),
                (T_STRING, 15, 3),
                (T_RIGHT_BRACE, 19, 1),
                (T_LEFT_BRACKET, 20, 1),
                (T_DURATION, 21, 2),
                (T_COLON, 23, 1),
                (T_DURATION, 24, 2),
                (T_RIGHT_BRACKET, 26, 1),
            ],
            None,
        ),
        (
            r#"test:name{on!~"bar"}[4m:4s]"#,
            vec![
                (T_METRIC_IDENTIFIER, 0, 9),
                (T_LEFT_BRACE, 9, 1),
                (T_IDENTIFIER, 10, 2),
                (T_NEQ_REGEX, 12, 2),
                (T_STRING, 15, 3),
                (T_RIGHT_BRACE, 19, 1),
                (T_LEFT_BRACKET, 20, 1),
                (T_DURATION, 21, 2),
                (T_COLON, 23, 1),
                (T_DURATION, 24, 2),
                (T_RIGHT_BRACKET, 26, 1),
            ],
            None,
        ),
        (
            r#"test:name{on!~"b:ar"}[4m:4s]"#,
            vec![
                (T_METRIC_IDENTIFIER, 0, 9),
                (T_LEFT_BRACE, 9, 1),
                (T_IDENTIFIER, 10, 2),
                (T_NEQ_REGEX, 12, 2),
                (T_STRING, 15, 4),
                (T_RIGHT_BRACE, 20, 1),
                (T_LEFT_BRACKET, 21, 1),
                (T_DURATION, 22, 2),
                (T_COLON, 24, 1),
                (T_DURATION, 25, 2),
                (T_RIGHT_BRACKET, 27, 1),
            ],
            None,
        ),
        (
            r#"test:name{on!~"b:ar"}[4m:]"#,
            vec![
                (T_METRIC_IDENTIFIER, 0, 9),
                (T_LEFT_BRACE, 9, 1),
                (T_IDENTIFIER, 10, 2),
                (T_NEQ_REGEX, 12, 2),
                (T_STRING, 15, 4),
                (T_RIGHT_BRACE, 20, 1),
                (T_LEFT_BRACKET, 21, 1),
                (T_DURATION, 22, 2),
                (T_COLON, 24, 1),
                (T_RIGHT_BRACKET, 25, 1),
            ],
            None,
        ),
        (
            r#"min_over_time(rate(foo{bar="baz"}[2s])[5m:])[4m:3s]"#,
            vec![
                (T_IDENTIFIER, 0, 13),
                (T_LEFT_PAREN, 13, 1),
                (T_IDENTIFIER, 14, 4),
                (T_LEFT_PAREN, 18, 1),
                (T_IDENTIFIER, 19, 3),
                (T_LEFT_BRACE, 22, 1),
                (T_IDENTIFIER, 23, 3),
                (T_EQL, 26, 1),
                (T_STRING, 28, 3),
                (T_RIGHT_BRACE, 32, 1),
                (T_LEFT_BRACKET, 33, 1),
                (T_DURATION, 34, 2),
                (T_RIGHT_BRACKET, 36, 1),
                (T_RIGHT_PAREN, 37, 1),
                (T_LEFT_BRACKET, 38, 1),
                (T_DURATION, 39, 2),
                (T_COLON, 41, 1),
                (T_RIGHT_BRACKET, 42, 1),
                (T_RIGHT_PAREN, 43, 1),
                (T_LEFT_BRACKET, 44, 1),
                (T_DURATION, 45, 2),
                (T_COLON, 47, 1),
                (T_DURATION, 48, 2),
                (T_RIGHT_BRACKET, 50, 1),
            ],
            None,
        ),
        (
            r#"test:name{on!~"b:ar"}[4m:4s] offset 10m"#,
            vec![
                (T_METRIC_IDENTIFIER, 0, 9),
                (T_LEFT_BRACE, 9, 1),
                (T_IDENTIFIER, 10, 2),
                (T_NEQ_REGEX, 12, 2),
                (T_STRING, 15, 4),
                (T_RIGHT_BRACE, 20, 1),
                (T_LEFT_BRACKET, 21, 1),
                (T_DURATION, 22, 2),
                (T_COLON, 24, 1),
                (T_DURATION, 25, 2),
                (T_RIGHT_BRACKET, 27, 1),
                (T_OFFSET, 29, 6),
                (T_DURATION, 36, 3),
            ],
            None,
        ),
        (
            r#"min_over_time(rate(foo{bar="baz"}[2s])[5m:] offset 6m)[4m:3s]"#,
            vec![
                (T_IDENTIFIER, 0, 13),
                (T_LEFT_PAREN, 13, 1),
                (T_IDENTIFIER, 14, 4),
                (T_LEFT_PAREN, 18, 1),
                (T_IDENTIFIER, 19, 3),
                (T_LEFT_BRACE, 22, 1),
                (T_IDENTIFIER, 23, 3),
                (T_EQL, 26, 1),
                (T_STRING, 28, 3),
                (T_RIGHT_BRACE, 32, 1),
                (T_LEFT_BRACKET, 33, 1),
                (T_DURATION, 34, 2),
                (T_RIGHT_BRACKET, 36, 1),
                (T_RIGHT_PAREN, 37, 1),
                (T_LEFT_BRACKET, 38, 1),
                (T_DURATION, 39, 2),
                (T_COLON, 41, 1),
                (T_RIGHT_BRACKET, 42, 1),
                (T_OFFSET, 44, 6),
                (T_DURATION, 51, 2),
                (T_RIGHT_PAREN, 53, 1),
                (T_LEFT_BRACKET, 54, 1),
                (T_DURATION, 55, 2),
                (T_COLON, 57, 1),
                (T_DURATION, 58, 2),
                (T_RIGHT_BRACKET, 60, 1),
            ],
            None,
        ),
        (
            r#"test:name[ 5m]"#,
            vec![
                (T_METRIC_IDENTIFIER, 0, 9),
                (T_LEFT_BRACKET, 9, 1),
                (T_DURATION, 11, 2),
                (T_RIGHT_BRACKET, 13, 1),
            ],
            None,
        ),
        (
            r#"test:name{o:n!~"bar"}[4m:4s]"#,
            vec![
                (T_METRIC_IDENTIFIER, 0, 9),
                (T_LEFT_BRACE, 9, 1),
                (T_IDENTIFIER, 10, 1),
            ],
            Some("unexpected character inside braces: ':'"),
        ),
        (
            r#"test:name{on!~"bar"}[4m:4s:4h]"#,
            vec![
                (T_METRIC_IDENTIFIER, 0, 9),
                (T_LEFT_BRACE, 9, 1),
                (T_IDENTIFIER, 10, 2),
                (T_NEQ_REGEX, 12, 2),
                (T_STRING, 15, 3),
                (T_RIGHT_BRACE, 19, 1),
                (T_LEFT_BRACKET, 20, 1),
                (T_DURATION, 21, 2),
                (T_COLON, 23, 1),
                (T_DURATION, 24, 2),
            ],
            Some("unexpected second colon(:) in brackets"),
        ),
        (
            r#"test:name{on!~"bar"}[4m:4s:]"#,
            vec![
                (T_METRIC_IDENTIFIER, 0, 9),
                (T_LEFT_BRACE, 9, 1),
                (T_IDENTIFIER, 10, 2),
                (T_NEQ_REGEX, 12, 2),
                (T_STRING, 15, 3),
                (T_RIGHT_BRACE, 19, 1),
                (T_LEFT_BRACKET, 20, 1),
                (T_DURATION, 21, 2),
                (T_COLON, 23, 1),
                (T_DURATION, 24, 2),
            ],
            Some("unexpected second colon(:) in brackets"),
        ),
        (
            r#"test:name{on!~"bar"}[4m::]"#,
            vec![
                (T_METRIC_IDENTIFIER, 0, 9),
                (T_LEFT_BRACE, 9, 1),
                (T_IDENTIFIER, 10, 2),
                (T_NEQ_REGEX, 12, 2),
                (T_STRING, 15, 3),
                (T_RIGHT_BRACE, 19, 1),
                (T_LEFT_BRACKET, 20, 1),
                (T_DURATION, 21, 2),
                (T_COLON, 23, 1),
            ],
            Some("unexpected second colon(:) in brackets"),
        ),
        (
            r#"test:name{on!~"bar"}[:4s]"#,
            vec![
                (T_METRIC_IDENTIFIER, 0, 9),
                (T_LEFT_BRACE, 9, 1),
                (T_IDENTIFIER, 10, 2),
                (T_NEQ_REGEX, 12, 2),
                (T_STRING, 15, 3),
                (T_RIGHT_BRACE, 19, 1),
                (T_LEFT_BRACKET, 20, 1),
            ],
            Some("expect duration before first colon(:) in brackets"),
        ),
    ];
    assert_matches(cases);
}

#[test]
fn test_is_alpha() {
    assert!(is_alpha('_'));
    assert!(is_alpha('a'));
    assert!(is_alpha('z'));
    assert!(is_alpha('A'));
    assert!(is_alpha('Z'));
    assert!(!is_alpha('-'));
    assert!(!is_alpha('@'));
    assert!(!is_alpha('0'));
    assert!(!is_alpha('9'));
}

#[test]
fn test_is_alpha_numeric() {
    assert!(is_alpha_numeric('_'));
    assert!(is_alpha_numeric('a'));
    assert!(is_alpha_numeric('z'));
    assert!(is_alpha_numeric('A'));
    assert!(is_alpha_numeric('Z'));
    assert!(is_alpha_numeric('0'));
    assert!(is_alpha_numeric('9'));
    assert!(!is_alpha_numeric('-'));
    assert!(!is_alpha_numeric('@'));
}

#[test]
fn test_is_label() {
    assert!(is_label("_"));
    assert!(is_label("_up"));
    assert!(is_label("up"));
    assert!(is_label("up_"));
    assert!(is_label("up_system_1"));

    assert!(!is_label(""));
    assert!(!is_label("0"));
    assert!(!is_label("0up"));
    assert!(!is_label("0_up"));
}

#[test]
fn test_tokenize_outcomes() {
    assert_eq!(
        tokenize("   "),
        Err("no expression found in input".to_string())
    );
    assert_eq!(tokenize(""), Err("no expression found in input".to_string()));
    assert_eq!(
        tokenize("# just a comment\n\n"),
        Err("no expression found in input".to_string())
    );
    assert_eq!(
        tokenize("a +"),
        Ok(vec![Lexeme::new(T_IDENTIFIER, 0, 1), Lexeme::new(T_ADD, 2, 1)])
    );
    assert_eq!(tokenize("(a"), Err("unclosed left parenthesis".to_string()));
}

#[test]
fn test_unexpected_character_debug_text() {
    assert_eq!(lexemes("~"), vec![Err("unexpected character: '~'".to_string())]);
    assert_eq!(lexemes("$"), vec![Err("unexpected character: '$'".to_string())]);
}

#[test]
fn test_string_lexeme_span_in_bytes() {
    // 'é' takes two bytes: the span of the string leaves out the quotes
    assert_eq!(lexemes("\"é\""), vec![Ok(Lexeme::new(T_STRING, 1, 2))]);
}

#[test]
fn test_lexemes_cover_all_but_blanks() {
    // only white space and comments lie between the lexemes, and each name, number and
    // duration is taken as long as it goes
    assert_eq!(
        tokenize(" \tfoo # x\n<= 12m # end"),
        Ok(vec![
            Lexeme::new(T_IDENTIFIER, 2, 3),
            Lexeme::new(T_LTE, 10, 2),
            Lexeme::new(T_DURATION, 13, 3),
        ])
    );
    assert_eq!(
        tokenize("x>=1.5e3"),
        Ok(vec![
            Lexeme::new(T_IDENTIFIER, 0, 1),
            Lexeme::new(T_GTE, 1, 2),
            Lexeme::new(T_NUMBER, 3, 5),
        ])
    );
}
