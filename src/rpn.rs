use vstd::prelude::*;

use crate::ast::{operator_text, primitive_text, push_string, Expr, ExprView, Operator};
use crate::utils::push_char;

verus! {

/// How an operator applied to one operand is written in postfix form:
/// negation as `neg`, so that it cannot be read as subtraction; any other
/// operator by its symbol.
pub open spec fn unary_text(op: Operator) -> Seq<char> {
    if op == Operator::Minus {
        "neg"@
    } else {
        operator_text(op)
    }
}

/// The postfix (reverse Polish) text of a tree: operands before their
/// operator, separated by single spaces; groupings leave no trace.
pub open spec fn rpn_text(e: ExprView) -> Seq<char>
    decreases e,
{
    match e {
        ExprView::Binary(op, l, r) => rpn_text(*l) + seq![' '] + rpn_text(*r) + seq![' ']
            + operator_text(op),
        ExprView::Grouping(x) => rpn_text(*x),
        ExprView::Literal(p) => primitive_text(p),
        ExprView::Unary(op, x) => rpn_text(*x) + seq![' '] + unary_text(op),
    }
}

/// Renders a tree in postfix (reverse Polish) notation.
pub fn rpn(expr: &Expr) -> (r: String)
    ensures
        r@ == rpn_text(expr@),
    decreases expr,
{
    match expr {
        Expr::Binary(op, l, r) => {
            let mut out = rpn(l);
            push_char(&mut out, ' ');
            push_string(&mut out, &rpn(r));
            push_char(&mut out, ' ');
            push_string(&mut out, &op.to_string());
            proof {
                assert(out@ =~= rpn_text(expr@));
            }
            out
        },
        Expr::Grouping(x) => rpn(x),
        Expr::Literal(p) => p.to_string(),
        Expr::Unary(op, x) => {
            let mut out = rpn(x);
            push_char(&mut out, ' ');
            match op {
                Operator::Minus => push_string(&mut out, &String::from_str("neg")),
                _ => push_string(&mut out, &op.to_string()),
            }
            proof {
                assert(out@ =~= rpn_text(expr@));
            }
            out
        },
    }
}

} // verus!
