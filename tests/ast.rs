use jlox::ast::{number_to_string, Expr, Operator, Primitive};
use jlox::token::Token;
use jlox::utils::{char_range_to_string, decimal, join_vec_debug, s};

#[test]
fn test_ast_print() {
    let pp = Expr::Binary(
        Operator::Star,
        Box::new(Expr::Unary(
            Operator::Minus,
            Box::new(Expr::Literal(Primitive::Number(s("123.0")))),
        )),
        Box::new(Expr::Grouping(Box::new(Expr::Literal(Primitive::Number(s("45.67")))))),
    )
    .to_string();
    assert_eq!(pp, "(* (- 123) (group 45.67))")
}

#[test]
fn literals_print_naturally() {
    assert_eq!(Primitive::Nil.to_string(), "null");
    assert_eq!(Primitive::Boolean(true).to_string(), "true");
    assert_eq!(Primitive::Boolean(false).to_string(), "false");
    assert_eq!(Primitive::String(s("raw text")).to_string(), "raw text");
}

#[test]
fn numbers_print_in_shortest_form() {
    assert_eq!(number_to_string(&s("007.500")), "7.5");
    assert_eq!(number_to_string(&s("0.0")), "0");
    assert_eq!(number_to_string(&s("10")), "10");
    assert_eq!(number_to_string(&s("0.25")), "0.25");
    assert_eq!(number_to_string(&s("100.001")), "100.001");
}

#[test]
fn operator_conversion() {
    assert_eq!(Operator::try_from(&Token::Slash).unwrap(), Operator::Divide);
    assert_eq!(Operator::try_from(&Token::LessEqual).unwrap(), Operator::LessEqual);
    let err = Operator::try_from(&Token::Comma).unwrap_err();
    assert_eq!(err.token, Token::Comma);
}

#[test]
fn operator_symbols() {
    assert_eq!(Operator::BangEqual.to_string(), "!=");
    assert_eq!(Operator::Divide.to_string(), "/");
    assert_eq!(Operator::GreaterEqual.to_string(), ">=");
}

#[test]
fn primitive_conversion() {
    assert!(matches!(Primitive::try_from(&Token::True), Ok(Primitive::Boolean(true))));
    assert!(matches!(Primitive::try_from(&Token::Nil), Ok(Primitive::Nil)));
    match Primitive::try_from(&Token::String(s("x"))) {
        Ok(Primitive::String(v)) => assert_eq!(v, "x"),
        other => panic!("unexpected {:?}", other),
    }
    let err = Primitive::try_from(&Token::Identifier(s("y"))).unwrap_err();
    assert_eq!(err.token, Token::Identifier(s("y")));
}

#[test]
fn char_ranges_become_strings() {
    let chars: Vec<char> = "héllo".chars().collect();
    assert_eq!(char_range_to_string(&chars, 1, 4), "éll");
    assert_eq!(char_range_to_string(&chars, 2, 2), "");
}

#[test]
fn decimal_text_of_numbers() {
    assert_eq!(decimal(0), "0");
    assert_eq!(decimal(907), "907");
}

#[test]
fn debug_lines_are_joined() {
    assert_eq!(join_vec_debug(&vec![1, 2]), "1\n2\n");
    assert_eq!(join_vec_debug(&Vec::<u8>::new()), "");
    assert_eq!(s("abc"), "abc");
}
