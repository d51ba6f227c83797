use jlox::parser::{Expected, Parser};
use jlox::rpn::rpn;
use jlox::run;
use jlox::scanner::scan;
use jlox::token::Token;

fn parse_text(source: &str) -> String {
    let tokens = scan(source.to_string()).expect("no lexical error");
    let mut parser = Parser::new(tokens);
    parser.expression().expect("an expression").to_string()
}

#[test]
fn subtraction_is_left_associative() {
    assert_eq!(parse_text("1 - 2 - 3"), "(- (- 1 2) 3)");
}

#[test]
fn multiplication_binds_tighter() {
    assert_eq!(parse_text("1 + 2 * 3"), "(+ 1 (* 2 3))");
    assert_eq!(parse_text("1 * 2 + 3"), "(+ (* 1 2) 3)");
}

#[test]
fn precedence_levels_in_order() {
    assert_eq!(parse_text("1 == 2 < 3 + 4 / 5"), "(== 1 (< 2 (+ 3 (/ 4 5))))");
    assert_eq!(parse_text("1 != 2 == 3"), "(== (!= 1 2) 3)");
    assert_eq!(parse_text("1 >= 2 > 3 <= 4"), "(<= (> (>= 1 2) 3) 4)");
}

#[test]
fn unary_operators_nest() {
    assert_eq!(parse_text("!!true"), "(! (! true))");
    assert_eq!(parse_text("-1 * -2"), "(* (- 1) (- 2))");
}

#[test]
fn literals_parse() {
    assert_eq!(parse_text("nil"), "null");
    assert_eq!(parse_text("\"text\""), "text");
    assert_eq!(parse_text("false"), "false");
}

#[test]
fn groupings_parse_and_render_in_postfix() {
    let tokens = scan("(1 + 2) * (4 - 3)".to_string()).unwrap();
    let mut parser = Parser::new(tokens);
    let expr = parser.expression().unwrap();
    assert_eq!(expr.to_string(), "(* (group (+ 1 2)) (group (- 4 3)))");
    assert_eq!(rpn(&expr), "1 2 + 4 3 - *");
}

#[test]
fn missing_operand_is_a_parse_error() {
    let tokens = scan("1 +".to_string()).unwrap();
    let mut parser = Parser::new(tokens);
    let err = parser.expression().unwrap_err();
    assert_eq!(err.expected, Expected::Expression);
    assert_eq!(err.found, Token::Eof);
    assert_eq!(err.line, 1);
}

#[test]
fn unclosed_group_is_a_parse_error() {
    let tokens = scan("(1\n;".to_string()).unwrap();
    let mut parser = Parser::new(tokens);
    let err = parser.expression().unwrap_err();
    assert_eq!(err.expected, Expected::RightParen);
    assert_eq!(err.found, Token::Semicolon);
    assert_eq!(err.line, 2);
}

#[test]
fn non_literal_primary_is_a_parse_error() {
    let tokens = scan("var".to_string()).unwrap();
    let err = Parser::new(tokens).expression().unwrap_err();
    assert_eq!(err.expected, Expected::Expression);
    assert_eq!(err.found, Token::Var);
}

#[test]
fn empty_token_sequence_is_a_parse_error() {
    let err = Parser::new(Vec::new()).expression().unwrap_err();
    assert_eq!(err.found, Token::Eof);
}

#[test]
fn parser_reads_expressions_one_after_another() {
    let tokens = scan("1 + 2 3".to_string()).unwrap();
    let mut parser = Parser::new(tokens);
    assert_eq!(parser.expression().unwrap().to_string(), "(+ 1 2)");
    assert_eq!(parser.expression().unwrap().to_string(), "3");
    assert!(parser.expression().is_err());
}

#[test]
fn run_lists_tokens_or_first_error() {
    let out = run("1;".to_string()).unwrap();
    assert_eq!(out.lines().count(), 3);
    assert!(out.ends_with('\n'));
    let err = run("@ #".to_string()).unwrap_err();
    assert_eq!(err.to_string(), "Unexpected character\nLine: 1\t@");
}
