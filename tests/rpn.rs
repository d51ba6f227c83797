use jlox::ast::{Expr, Operator, Primitive};
use jlox::rpn::rpn;
use jlox::utils::s;

fn num(text: &str) -> Box<Expr> {
    Box::new(Expr::Literal(Primitive::Number(s(text))))
}

#[test]
fn test_rpn() {
    let expr = Expr::Binary(
        Operator::Star,
        Box::new(Expr::Grouping(Box::new(Expr::Binary(Operator::Plus, num("1.0"), num("2.0"))))),
        Box::new(Expr::Grouping(Box::new(Expr::Binary(Operator::Minus, num("4.0"), num("3.0"))))),
    );
    assert_eq!(rpn(&expr), "1 2 + 4 3 - *")
}

#[test]
fn unary_operators_in_postfix() {
    let expr = Expr::Binary(
        Operator::Minus,
        Box::new(Expr::Unary(Operator::Minus, num("5"))),
        Box::new(Expr::Unary(Operator::Bang, Box::new(Expr::Literal(Primitive::Boolean(true))))),
    );
    assert_eq!(rpn(&expr), "5 neg true ! -");
}
