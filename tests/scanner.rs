use jlox::scanner::{scan, Cause, Scanner, ScannerError};
use jlox::token::{Token, TokenWrapper};
use jlox::utils::{join_vec_debug, s};

struct ScanTokensTestCase {
    input: &'static str,
    expected: Vec<Token>,
}

struct ScannerErrorTestCase {
    input: &'static str,
    expected: Vec<ScannerError>,
}

fn tokens_of(input: &str) -> Vec<Token> {
    let mut scanner = Scanner::new(input.to_string());
    let output = scanner.scan_tokens().expect("");
    output.iter().map(|tw| tw.token.clone()).collect()
}

fn errors_of(input: &str) -> Vec<ScannerError> {
    scan(input.to_string()).expect_err("expected a lexical error")
}

#[test]
fn test_scan_tokens() {
    let test_table: Vec<ScanTokensTestCase> = vec![
        ScanTokensTestCase {
            input: "hello;",
            expected: vec![Token::Identifier("hello".to_owned()), Token::Semicolon, Token::Eof],
        },
        ScanTokensTestCase {
            input: "var k = 10;",
            expected: vec![
                Token::Var,
                Token::Identifier(s("k")),
                Token::Equal,
                Token::Number(s("10")),
                Token::Semicolon,
                Token::Eof,
            ],
        },
        ScanTokensTestCase {
            input: "fun hello(){

                };",
            expected: vec![
                Token::Fun,
                Token::Identifier(s("hello")),
                Token::LeftParen,
                Token::RightParen,
                Token::LeftBrace,
                Token::RightBrace,
                Token::Semicolon,
                Token::Eof,
            ],
        },
        ScanTokensTestCase { input: "// fun comment = hello", expected: vec![Token::Eof] },
        ScanTokensTestCase { input: "/* block comment */", expected: vec![Token::Eof] },
        ScanTokensTestCase {
            input: "/* /* nested */ block comment */",
            expected: vec![Token::Eof],
        },
    ];
    for tc in test_table {
        let mut scanner = Scanner::new(tc.input.to_string());
        let output = &scanner.scan_tokens().expect("");
        let actual =
            join_vec_debug(&output.iter().map(|tw| tw.token.clone()).collect::<Vec<Token>>());
        let expected = join_vec_debug(&tc.expected);
        assert_eq!(actual, expected);
    }
}

#[test]
fn test_scanner_errors() {
    let test_table: Vec<ScannerErrorTestCase> = vec![ScannerErrorTestCase {
        input: "/* afdsafdf ",
        expected: vec![ScannerError::UnclosedBlockComment(Default::default())],
    }];
    for tc in test_table {
        let mut scanner = Scanner::new(tc.input.to_owned());
        let errors = scanner
            .scan_tokens()
            .expect_err(&format!("Expected error in test case: {}", tc.input));
        assert_eq!(errors.len(), tc.expected.len(), "Number of errors do not match");
        for (i, error) in errors.iter().enumerate() {
            assert_eq!(error.discriminant(), tc.expected.get(i).unwrap().discriminant());
        }
    }
}

#[test]
fn number_literal_is_read_as_a_float() {
    let tokens = tokens_of("10 3.25");
    let values: Vec<f64> = tokens
        .iter()
        .filter_map(|t| match t {
            Token::Number(n) => Some(n.parse::<f64>().unwrap()),
            _ => None,
        })
        .collect();
    assert_eq!(values, vec![10.0, 3.25]);
}

#[test]
fn empty_input_gives_only_eof() {
    assert_eq!(tokens_of(""), vec![Token::Eof]);
}

#[test]
fn successful_scans_end_with_exactly_one_eof() {
    for input in ["", "1 + 2", "var x = \"s\";", "// note", "a\nb\n", "/* c */ x"] {
        let tokens = tokens_of(input);
        assert_eq!(tokens.last(), Some(&Token::Eof));
        assert_eq!(tokens.iter().filter(|t| **t == Token::Eof).count(), 1);
    }
}

#[test]
fn nested_block_comment_yields_only_eof() {
    assert_eq!(tokens_of("/* /* nested */ still inside */"), vec![Token::Eof]);
}

#[test]
fn unterminated_block_comment_is_one_error() {
    let mut scanner = Scanner::new("/* unterminated".to_string());
    let errors = scanner.scan_tokens().expect_err("comment is not closed");
    assert_eq!(errors.len(), 1);
    assert!(matches!(errors[0], ScannerError::UnclosedBlockComment(_)));
    let tokens: Vec<Token> = scanner.scanned_tokens().iter().map(|w| w.token.clone()).collect();
    assert_eq!(tokens, vec![Token::Eof]);
}

#[test]
fn nested_unterminated_block_comment_is_one_error() {
    let errors = errors_of("/* outer /* inner */ still open\n");
    assert_eq!(errors.len(), 1);
    assert_eq!(errors[0].discriminant(), 0);
    assert_eq!(errors[0].to_string(), "Block comment not closed\nLine: 2\t/* outer /* inner */ still open\n");
}

#[test]
fn multi_line_string_advances_the_line() {
    let mut scanner = Scanner::new("\"a\nb\" next".to_string());
    let wrappers: Vec<TokenWrapper> = scanner.scan_tokens().unwrap();
    assert_eq!(wrappers[0].token, Token::String(s("a\nb")));
    assert_eq!(wrappers[0].location_info.line, 1);
    assert_eq!(wrappers[1].token, Token::Identifier(s("next")));
    assert_eq!(wrappers[1].location_info.line, 2);
    assert_eq!(wrappers[2].token, Token::Eof);
    assert_eq!(wrappers[2].location_info.line, 2);
}

#[test]
fn keyword_prefix_stays_an_identifier() {
    assert_eq!(tokens_of("forest"), vec![Token::Identifier(s("forest")), Token::Eof]);
    assert_eq!(tokens_of("for"), vec![Token::For, Token::Eof]);
}

#[test]
fn all_keywords_are_recognized() {
    let tokens = tokens_of(
        "and class else false for fun if nil or print return super this true var while",
    );
    assert_eq!(
        tokens,
        vec![
            Token::And,
            Token::Class,
            Token::Else,
            Token::False,
            Token::For,
            Token::Fun,
            Token::If,
            Token::Nil,
            Token::Or,
            Token::Print,
            Token::Return,
            Token::Super,
            Token::This,
            Token::True,
            Token::Var,
            Token::While,
            Token::Eof,
        ]
    );
}

#[test]
fn unicode_letters_form_identifiers() {
    assert_eq!(tokens_of("café x²"), vec![
        Token::Identifier(s("café")),
        Token::Identifier(s("x²")),
        Token::Eof,
    ]);
}

#[test]
fn scanning_continues_after_unexpected_character() {
    let mut scanner = Scanner::new("1 @ 2".to_string());
    let errors = scanner.scan_tokens().expect_err("'@' is not a token");
    assert_eq!(errors.len(), 1);
    match &errors[0] {
        ScannerError::UnexpectedCharacter(cause) => {
            assert_eq!(cause.get_source(), "@");
            assert_eq!(cause.get_line(), 1);
        }
        other => panic!("unexpected error {:?}", other),
    }
    let tokens: Vec<Token> = scanner.scanned_tokens().iter().map(|w| w.token.clone()).collect();
    assert_eq!(tokens, vec![Token::Number(s("1")), Token::Number(s("2")), Token::Eof]);
}

#[test]
fn unterminated_string_is_reported() {
    let errors = errors_of("x = \"abc\ndef");
    assert_eq!(errors.len(), 1);
    assert_eq!(errors[0].discriminant(), 2);
    assert_eq!(errors[0].to_string(), "String not terminated\nLine: 2\t\"abc\ndef");
}

#[test]
fn unexpected_character_message() {
    let errors = errors_of("\n\n\n\n\n\n\n\n\n\n\n#");
    assert_eq!(errors[0].to_string(), "Unexpected character\nLine: 12\t#");
}

#[test]
fn every_error_is_collected() {
    let errors = errors_of("@ # \"open");
    let kinds: Vec<usize> = errors.iter().map(|e| e.discriminant()).collect();
    assert_eq!(kinds, vec![1, 1, 2]);
}

#[test]
fn operators_take_the_longest_match() {
    assert_eq!(
        tokens_of("! != = == < <= > >= / * - + . , ;"),
        vec![
            Token::Bang,
            Token::BangEqual,
            Token::Equal,
            Token::EqualEqual,
            Token::Less,
            Token::LessEqual,
            Token::Greater,
            Token::GreaterEqual,
            Token::Slash,
            Token::Star,
            Token::Minus,
            Token::Plus,
            Token::Dot,
            Token::Comma,
            Token::Semicolon,
            Token::Eof,
        ]
    );
}

#[test]
fn trailing_dot_is_not_part_of_a_number() {
    assert_eq!(tokens_of("12.x 1.5"), vec![
        Token::Number(s("12")),
        Token::Dot,
        Token::Identifier(s("x")),
        Token::Number(s("1.5")),
        Token::Eof,
    ]);
}

#[test]
fn string_payload_excludes_quotes() {
    assert_eq!(tokens_of("\"hi there\""), vec![Token::String(s("hi there")), Token::Eof]);
}

#[test]
fn default_cause_is_empty() {
    let cause = Cause::default();
    assert_eq!(cause.get_line(), 0);
    assert_eq!(cause.get_source(), "");
}

#[test]
fn tokens_record_their_lines() {
    let wrappers = scan("a\n\nb // c\n/* \n */ d".to_string()).unwrap();
    let lines: Vec<usize> = wrappers.iter().map(|w| w.location_info.line).collect();
    assert_eq!(lines, vec![1, 3, 5, 5]);
}

#[test]
fn rescanning_lexemes_gives_the_same_tokens() {
    let source = "var total = (1.50 + count) * 2 >= 7;\n// done\nprint \"two\nlines\" != nil;";
    let first = tokens_of(source);
    let mut text = String::new();
    for (i, token) in first[..first.len() - 1].iter().enumerate() {
        if i > 0 {
            text.push(' ');
        }
        text.push_str(&token.lexeme());
    }
    assert!(!text.ends_with(' '));
    assert_eq!(tokens_of(&text), first);
}

#[test]
fn token_lexemes() {
    assert_eq!(Token::LessEqual.lexeme(), "<=");
    assert_eq!(Token::While.lexeme(), "while");
    assert_eq!(Token::String(s("a b")).lexeme(), "\"a b\"");
    assert_eq!(Token::Number(s("2.50")).lexeme(), "2.50");
    assert_eq!(Token::Eof.lexeme(), "");
}

#[test]
fn failed_scan_stays_failed() {
    let mut scanner = Scanner::new("1 @".to_string());
    let first = scanner.scan_tokens().expect_err("'@' is not a token");
    let second = scanner.scan_tokens().expect_err("the scan stays failed");
    assert_eq!(first.len(), 1);
    assert_eq!(second.len(), 1);
    assert_eq!(second[0].to_string(), first[0].to_string());
    let tokens: Vec<Token> = scanner.scanned_tokens().iter().map(|w| w.token.clone()).collect();
    assert_eq!(tokens, vec![Token::Number(s("1")), Token::Eof]);
}

#[test]
fn second_scan_repeats_the_tokens() {
    let mut scanner = Scanner::new("a + 1".to_string());
    let first = scanner.scan_tokens().unwrap();
    let second = scanner.scan_tokens().unwrap();
    assert_eq!(first, second);
    assert_eq!(second.iter().filter(|w| w.token == Token::Eof).count(), 1);
}

#[test]
fn empty_source_gives_eof_on_line_one() {
    let wrappers = Scanner::new(String::new()).scan_tokens().unwrap();
    assert_eq!(wrappers.len(), 1);
    assert_eq!(wrappers[0].token, Token::Eof);
    assert_eq!(wrappers[0].location_info.line, 1);
}
