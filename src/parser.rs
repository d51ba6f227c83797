use vstd::prelude::*;

use crate::ast::{operator_of, primitive_of, Expr, ExprView, Operator, Primitive, PrimitiveView};
use crate::lexeme::kinds;
use crate::scanner::tokens_view;
use crate::token::{copy_token, LocatedToken, Token, TokenView, TokenWrapper};

verus! {

/// What the parser required where it stopped.
#[derive(Debug, Clone, Copy, PartialEq, Eq, Structural)]
pub enum Expected {
    /// The start of an expression: a literal, a prefix operator or `(`.
    Expression,
    /// The `)` that closes a grouping.
    RightParen,
}

/// A syntax error: what was required, the token found instead and its line.
#[derive(Debug, Clone)]
pub struct ParseError {
    pub expected: Expected,
    pub found: Token,
    pub line: usize,
}

pub struct ParseErrorView {
    pub expected: Expected,
    pub found: TokenView,
    pub line: int,
}

impl View for ParseError {
    type V = ParseErrorView;

    open spec fn view(&self) -> ParseErrorView {
        ParseErrorView { expected: self.expected, found: self.found@, line: self.line as int }
    }
}

/// The token at `i`; past the end of the sequence, the end-of-input token.
pub open spec fn token_at(t: Seq<LocatedToken>, i: int) -> TokenView {
    if 0 <= i < t.len() {
        t[i].0
    } else {
        TokenView::Plain(Token::Eof)
    }
}

/// The line of the token at `i`; past the end, the line of the last token.
pub open spec fn line_at(t: Seq<LocatedToken>, i: int) -> int {
    if 0 <= i < t.len() {
        t[i].1
    } else if t.len() > 0 {
        t.last().1
    } else {
        1
    }
}

pub open spec fn error_view(t: Seq<LocatedToken>, i: int, expected: Expected) -> ParseErrorView {
    ParseErrorView { expected, found: token_at(t, i), line: line_at(t, i) }
}

/// The binary precedence of an operator, from equality (0) up to
/// multiplication (3); -1 for one that no binary level takes.
pub open spec fn precedence(op: Operator) -> int {
    match op {
        Operator::BangEqual | Operator::EqualEqual => 0,
        Operator::Greater | Operator::GreaterEqual | Operator::Less | Operator::LessEqual => 1,
        Operator::Minus | Operator::Plus => 2,
        Operator::Star | Operator::Divide => 3,
        _ => -1,
    }
}

pub const TOP_LEVEL: usize = 3;

/// The operator that a token gives at a binary precedence level.
pub open spec fn level_operator(level: int, t: TokenView) -> Option<Operator> {
    match operator_of(t) {
        Some(op) => if precedence(op) == level {
            Some(op)
        } else {
            None
        },
        None => None,
    }
}

/// The prefix operator that a token gives.
pub open spec fn unary_operator(t: TokenView) -> Option<Operator> {
    match operator_of(t) {
        Some(op) => if op == Operator::Bang || op == Operator::Minus {
            Some(op)
        } else {
            None
        },
        None => None,
    }
}

/// A tree and the position just past the tokens it was read from, or an error.
pub type Parsed = Result<(ExprView, int), ParseErrorView>;

/// Reads an expression at binary precedence `level` from position `pos`:
/// an operand of the next level, then as long as an operator of this level
/// follows, that operator and one more operand, folded to the left.
pub open spec fn parse_binary(t: Seq<LocatedToken>, pos: int, level: int) -> Parsed
    decreases t.len() - pos, 5 - level,
{
    if pos < 0 || pos > t.len() || level < 0 || level > TOP_LEVEL {
        Err(error_view(t, pos, Expected::Expression))
    } else {
        let first = if level < TOP_LEVEL {
            parse_binary(t, pos, level + 1)
        } else {
            parse_unary(t, pos)
        };
        match first {
            Err(e) => Err(e),
            Ok((e, p)) => if pos < p <= t.len() {
                fold_binary(t, p, level, e)
            } else {
                Err(error_view(t, pos, Expected::Expression))
            },
        }
    }
}

/// Continues a binary level at `pos` with `acc` read so far.
pub open spec fn fold_binary(t: Seq<LocatedToken>, pos: int, level: int, acc: ExprView) -> Parsed
    decreases t.len() - pos, 0int,
{
    if pos < 0 || pos > t.len() || level < 0 || level > TOP_LEVEL {
        Err(error_view(t, pos, Expected::Expression))
    } else {
        match level_operator(level, token_at(t, pos)) {
            None => Ok((acc, pos)),
            Some(op) => if pos < t.len() {
                let right = if level < TOP_LEVEL {
                    parse_binary(t, pos + 1, level + 1)
                } else {
                    parse_unary(t, pos + 1)
                };
                match right {
                    Err(e) => Err(e),
                    Ok((r, p)) => if pos + 1 < p <= t.len() {
                        fold_binary(t, p, level, ExprView::Binary(op, Box::new(acc), Box::new(r)))
                    } else {
                        Err(error_view(t, pos, Expected::Expression))
                    },
                }
            } else {
                Err(error_view(t, pos, Expected::Expression))
            },
        }
    }
}

/// Reads a prefix operator applied to a unary expression, or a primary one.
pub open spec fn parse_unary(t: Seq<LocatedToken>, pos: int) -> Parsed
    decreases t.len() - pos, 1int,
{
    if pos < 0 || pos > t.len() {
        Err(error_view(t, pos, Expected::Expression))
    } else {
        match unary_operator(token_at(t, pos)) {
            Some(op) => if pos < t.len() {
                match parse_unary(t, pos + 1) {
                    Ok((x, p)) => Ok((ExprView::Unary(op, Box::new(x)), p)),
                    Err(e) => Err(e),
                }
            } else {
                Err(error_view(t, pos, Expected::Expression))
            },
            None => parse_primary(t, pos),
        }
    }
}

/// Reads a literal, or an expression between parentheses.
pub open spec fn parse_primary(t: Seq<LocatedToken>, pos: int) -> Parsed
    decreases t.len() - pos, 0int,
{
    if pos < 0 || pos > t.len() {
        Err(error_view(t, pos, Expected::Expression))
    } else if pos < t.len() && token_at(t, pos) == TokenView::Plain(Token::LeftParen) {
        match parse_binary(t, pos + 1, 0) {
            Err(e) => Err(e),
            Ok((e, p)) => if token_at(t, p) == TokenView::Plain(Token::RightParen) {
                Ok((ExprView::Grouping(Box::new(e)), p + 1))
            } else {
                Err(error_view(t, p, Expected::RightParen))
            },
        }
    } else {
        match primitive_of(token_at(t, pos)) {
            Some(v) => Ok((ExprView::Literal(v), pos + 1)),
            None => Err(error_view(t, pos, Expected::Expression)),
        }
    }
}

/// Reads one expression from position `pos`.
pub open spec fn parse_expression(t: Seq<LocatedToken>, pos: int) -> Parsed {
    parse_binary(t, pos, 0)
}

/// The token that an operator is written with.
pub open spec fn operator_token(op: Operator) -> Token {
    match op {
        Operator::Plus => Token::Plus,
        Operator::Minus => Token::Minus,
        Operator::Star => Token::Star,
        Operator::Divide => Token::Slash,
        Operator::Bang => Token::Bang,
        Operator::BangEqual => Token::BangEqual,
        Operator::Equal => Token::Equal,
        Operator::EqualEqual => Token::EqualEqual,
        Operator::Greater => Token::Greater,
        Operator::GreaterEqual => Token::GreaterEqual,
        Operator::Less => Token::Less,
        Operator::LessEqual => Token::LessEqual,
    }
}

/// The token that a literal value is written with.
pub open spec fn literal_token(v: PrimitiveView) -> TokenView {
    match v {
        PrimitiveView::Str(s) => TokenView::Str(s),
        PrimitiveView::Number(n) => TokenView::Number(n),
        PrimitiveView::Boolean(b) => if b {
            TokenView::Plain(Token::True)
        } else {
            TokenView::Plain(Token::False)
        },
        PrimitiveView::Nil => TokenView::Plain(Token::Nil),
    }
}

/// The tokens of a tree, read in source order.
pub open spec fn expr_tokens(e: ExprView) -> Seq<TokenView>
    decreases e,
{
    match e {
        ExprView::Binary(op, l, r) => expr_tokens(*l) + seq![TokenView::Plain(operator_token(op))]
            + expr_tokens(*r),
        ExprView::Grouping(x) => seq![TokenView::Plain(Token::LeftParen)] + expr_tokens(*x) + seq![
            TokenView::Plain(Token::RightParen),
        ],
        ExprView::Literal(v) => seq![literal_token(v)],
        ExprView::Unary(op, x) => seq![TokenView::Plain(operator_token(op))] + expr_tokens(*x),
    }
}

/// Whether a tree has the shape that the grammar gives at `level`: binary
/// levels 0 to 3 hold a node of their own operators, with the left operand at
/// the same level and the right one above it, or an expression of the next
/// level; level 4 holds `!` or `-` applied to a level-4 expression, or a
/// primary one; level 5 a literal or a grouping of a level-0 expression.
pub open spec fn shaped(e: ExprView, level: int) -> bool
    decreases e, 6 - level,
{
    if level < 0 || level > 5 {
        false
    } else if level <= TOP_LEVEL {
        ||| (e matches ExprView::Binary(op, l, r) && precedence(op) == level && shaped(*l, level)
            && shaped(*r, level + 1))
        ||| shaped(e, level + 1)
    } else if level == 4 {
        ||| (e matches ExprView::Unary(op, x) && (op == Operator::Bang || op == Operator::Minus)
            && shaped(*x, 4))
        ||| shaped(e, 5)
    } else {
        ||| e is Literal
        ||| (e matches ExprView::Grouping(x) && shaped(*x, 0))
    }
}

proof fn lemma_operator_token(t: TokenView)
    ensures
        operator_of(t) matches Some(op) ==> t == TokenView::Plain(operator_token(op)),
{
}

proof fn lemma_literal_token(t: TokenView)
    ensures
        primitive_of(t) matches Some(v) ==> t == literal_token(v),
{
}

proof fn lemma_binary_sound(t: Seq<LocatedToken>, pos: int, level: int)
    ensures
        parse_binary(t, pos, level) matches Ok((e, p)) ==> {
            &&& pos < p <= t.len()
            &&& shaped(e, level)
            &&& expr_tokens(e) == kinds(t).subrange(pos, p)
        },
    decreases t.len() - pos, 5 - level, 1int,
{
    if 0 <= pos <= t.len() && 0 <= level <= TOP_LEVEL {
        if level < TOP_LEVEL {
            lemma_binary_sound(t, pos, level + 1);
        } else {
            lemma_unary_sound(t, pos);
        }
        let first = if level < TOP_LEVEL {
            parse_binary(t, pos, level + 1)
        } else {
            parse_unary(t, pos)
        };
        if let Ok((e, p)) = first {
            if pos < p <= t.len() {
                assert(shaped(e, level));
                lemma_fold_sound(t, p, level, e, pos);
            }
        }
    }
}

proof fn lemma_fold_sound(t: Seq<LocatedToken>, pos: int, level: int, acc: ExprView, start: int)
    requires
        0 <= start < pos <= t.len(),
        0 <= level <= TOP_LEVEL,
        shaped(acc, level),
        expr_tokens(acc) == kinds(t).subrange(start, pos),
    ensures
        fold_binary(t, pos, level, acc) matches Ok((e, p)) ==> {
            &&& pos <= p <= t.len()
            &&& shaped(e, level)
            &&& expr_tokens(e) == kinds(t).subrange(start, p)
        },
    decreases t.len() - pos, 0int, 0int,
{
    if let Some(op) = level_operator(level, token_at(t, pos)) {
        if pos < t.len() {
            if level < TOP_LEVEL {
                lemma_binary_sound(t, pos + 1, level + 1);
            } else {
                lemma_unary_sound(t, pos + 1);
            }
            let right = if level < TOP_LEVEL {
                parse_binary(t, pos + 1, level + 1)
            } else {
                parse_unary(t, pos + 1)
            };
            if let Ok((r, p)) = right {
                if pos + 1 < p <= t.len() {
                    let node = ExprView::Binary(op, Box::new(acc), Box::new(r));
                    lemma_operator_token(token_at(t, pos));
                    if level < TOP_LEVEL {
                        assert(shaped(r, level + 1));
                    } else {
                        assert(shaped(r, 4));
                    }
                    assert(shaped(node, level));
                    assert(expr_tokens(node) =~= kinds(t).subrange(start, p));
                    lemma_fold_sound(t, p, level, node, start);
                }
            }
        }
    }
}

proof fn lemma_unary_sound(t: Seq<LocatedToken>, pos: int)
    ensures
        parse_unary(t, pos) matches Ok((e, p)) ==> {
            &&& pos < p <= t.len()
            &&& shaped(e, 4)
            &&& expr_tokens(e) == kinds(t).subrange(pos, p)
        },
    decreases t.len() - pos, 1int, 0int,
{
    if 0 <= pos <= t.len() {
        match unary_operator(token_at(t, pos)) {
            Some(op) => {
                if pos < t.len() {
                    lemma_unary_sound(t, pos + 1);
                    lemma_operator_token(token_at(t, pos));
                    if let Ok((x, p)) = parse_unary(t, pos + 1) {
                        let node = ExprView::Unary(op, Box::new(x));
                        assert(expr_tokens(node) =~= kinds(t).subrange(pos, p));
                    }
                }
            },
            None => {
                lemma_primary_sound(t, pos);
            },
        }
    }
}

proof fn lemma_primary_sound(t: Seq<LocatedToken>, pos: int)
    ensures
        parse_primary(t, pos) matches Ok((e, p)) ==> {
            &&& pos < p <= t.len()
            &&& shaped(e, 5)
            &&& expr_tokens(e) == kinds(t).subrange(pos, p)
        },
    decreases t.len() - pos, 0int, 0int,
{
    if 0 <= pos <= t.len() {
        if pos < t.len() && token_at(t, pos) == TokenView::Plain(Token::LeftParen) {
            lemma_binary_sound(t, pos + 1, 0);
            if let Ok((e, p)) = parse_binary(t, pos + 1, 0) {
                if token_at(t, p) == TokenView::Plain(Token::RightParen) {
                    let node = ExprView::Grouping(Box::new(e));
                    assert(expr_tokens(node) =~= kinds(t).subrange(pos, p + 1));
                }
            }
        } else {
            lemma_literal_token(token_at(t, pos));
            if let Some(v) = primitive_of(token_at(t, pos)) {
                assert(expr_tokens(ExprView::Literal(v)) =~= kinds(t).subrange(pos, pos + 1));
            }
        }
    }
}

proof fn lemma_expr_tokens_no_eof(e: ExprView)
    ensures
        forall|k: int|
            0 <= k < expr_tokens(e).len() ==> #[trigger] expr_tokens(e)[k] != TokenView::Plain(
                Token::Eof,
            ),
    decreases e,
{
    match e {
        ExprView::Binary(_, l, r) => {
            lemma_expr_tokens_no_eof(*l);
            lemma_expr_tokens_no_eof(*r);
        },
        ExprView::Grouping(x) => {
            lemma_expr_tokens_no_eof(*x);
        },
        ExprView::Literal(_) => {},
        ExprView::Unary(_, x) => {
            lemma_expr_tokens_no_eof(*x);
        },
    }
}

/// A parsed expression has the shape the precedence grammar gives (so every
/// operator node holds an operator its level may produce), its tokens, read
/// in order, are exactly the tokens the parser consumed, and none of those is
/// the end-of-input token.
pub proof fn lemma_parse_sound(t: Seq<LocatedToken>, pos: int)
    ensures
        parse_expression(t, pos) matches Ok((e, p)) ==> {
            &&& pos < p <= t.len()
            &&& shaped(e, 0)
            &&& expr_tokens(e) == kinds(t).subrange(pos, p)
            &&& forall|k: int| pos <= k < p ==> #[trigger] t[k].0 != TokenView::Plain(Token::Eof)
        },
{
    lemma_binary_sound(t, pos, 0);
    if let Ok((e, p)) = parse_expression(t, pos) {
        lemma_expr_tokens_no_eof(e);
        assert forall|k: int| pos <= k < p implies #[trigger] t[k].0 != TokenView::Plain(Token::Eof) by {
            assert(expr_tokens(e)[k - pos] == kinds(t)[k]);
        }
    }
}

pub open spec fn parsed_view(r: Result<(Expr, usize), ParseError>) -> Parsed {
    match r {
        Ok((e, p)) => Ok((e@, p as int)),
        Err(e) => Err(e@),
    }
}

/// The binary precedence of an operator, as `precedence` gives it.
fn precedence_of(op: Operator) -> (r: i8)
    ensures
        r == precedence(op),
{
    match op {
        Operator::BangEqual | Operator::EqualEqual => 0,
        Operator::Greater | Operator::GreaterEqual | Operator::Less | Operator::LessEqual => 1,
        Operator::Minus | Operator::Plus => 2,
        Operator::Star | Operator::Divide => 3,
        _ => -1,
    }
}

/// The error for the token at `i`.
fn error_at(tokens: &Vec<TokenWrapper>, i: usize, expected: Expected) -> (r: ParseError)
    ensures
        r@ == error_view(tokens_view(tokens@), i as int, expected),
{
    let n = tokens.len();
    if i < n {
        ParseError {
            expected,
            found: copy_token(&tokens[i].token),
            line: tokens[i].location_info.line,
        }
    } else if n > 0 {
        ParseError { expected, found: Token::Eof, line: tokens[n - 1].location_info.line }
    } else {
        ParseError { expected, found: Token::Eof, line: 1 }
    }
}

/// The operator of binary precedence `level` at position `i`, if any.
fn level_operator_at(tokens: &Vec<TokenWrapper>, i: usize, level: usize) -> (r: Option<Operator>)
    requires
        level <= TOP_LEVEL,
    ensures
        r == level_operator(level as int, token_at(tokens_view(tokens@), i as int)),
        r is Some ==> i < tokens@.len() <= usize::MAX,
{
    if i >= tokens.len() {
        return None;
    }
    match Operator::try_from(&tokens[i].token) {
        Ok(op) => if precedence_of(op) == level as i8 {
            Some(op)
        } else {
            None
        },
        Err(_) => None,
    }
}

/// The prefix operator at position `i`, if any.
fn unary_operator_at(tokens: &Vec<TokenWrapper>, i: usize) -> (r: Option<Operator>)
    ensures
        r == unary_operator(token_at(tokens_view(tokens@), i as int)),
        r is Some ==> i < tokens@.len() <= usize::MAX,
{
    if i >= tokens.len() {
        return None;
    }
    match Operator::try_from(&tokens[i].token) {
        Ok(op) => if op == Operator::Bang || op == Operator::Minus {
            Some(op)
        } else {
            None
        },
        Err(_) => None,
    }
}

/// Reads an expression at binary precedence `level`, folding operators of
/// that level to the left.
fn binary(tokens: &Vec<TokenWrapper>, pos: usize, level: usize) -> (r: Result<(Expr, usize), ParseError>)
    requires
        pos <= tokens@.len(),
        level <= TOP_LEVEL,
    ensures
        parsed_view(r) == parse_binary(tokens_view(tokens@), pos as int, level as int),
        r matches Ok((_, p)) ==> pos < p <= tokens@.len(),
    decreases tokens@.len() - pos, 5 - level,
{
    let ghost t = tokens_view(tokens@);
    let first = if level < TOP_LEVEL {
        binary(tokens, pos, level + 1)
    } else {
        unary(tokens, pos)
    };
    let (mut expr, mut cur) = match first {
        Ok(x) => x,
        Err(e) => {
            return Err(e);
        },
    };
    loop
        invariant
            pos < cur <= tokens@.len(),
            level <= TOP_LEVEL,
            t == tokens_view(tokens@),
            parse_binary(t, pos as int, level as int) == fold_binary(t, cur as int, level as int, expr@),
        decreases tokens@.len() - cur,
    {
        match level_operator_at(tokens, cur, level) {
            None => {
                return Ok((expr, cur));
            },
            Some(op) => {
                let right = if level < TOP_LEVEL {
                    binary(tokens, cur + 1, level + 1)
                } else {
                    unary(tokens, cur + 1)
                };
                match right {
                    Err(e) => {
                        return Err(e);
                    },
                    Ok((r, p)) => {
                        expr = Expr::Binary(op, Box::new(expr), Box::new(r));
                        cur = p;
                    },
                }
            },
        }
    }
}

/// Reads a chain of prefix operators and the primary expression they apply to.
fn unary(tokens: &Vec<TokenWrapper>, pos: usize) -> (r: Result<(Expr, usize), ParseError>)
    requires
        pos <= tokens@.len(),
    ensures
        parsed_view(r) == parse_unary(tokens_view(tokens@), pos as int),
        r matches Ok((_, p)) ==> pos < p <= tokens@.len(),
    decreases tokens@.len() - pos, 1int,
{
    match unary_operator_at(tokens, pos) {
        Some(op) => match unary(tokens, pos + 1) {
            Ok((x, p)) => Ok((Expr::Unary(op, Box::new(x)), p)),
            Err(e) => Err(e),
        },
        None => primary(tokens, pos),
    }
}

/// Reads a literal or a parenthesized expression.
fn primary(tokens: &Vec<TokenWrapper>, pos: usize) -> (r: Result<(Expr, usize), ParseError>)
    requires
        pos <= tokens@.len(),
    ensures
        parsed_view(r) == parse_primary(tokens_view(tokens@), pos as int),
        r matches Ok((_, p)) ==> pos < p <= tokens@.len(),
    decreases tokens@.len() - pos, 0int,
{
    let open = pos < tokens.len() && match &tokens[pos].token {
        Token::LeftParen => true,
        _ => false,
    };
    if open {
        match binary(tokens, pos + 1, 0) {
            Err(e) => Err(e),
            Ok((e, p)) => {
                let close = p < tokens.len() && match &tokens[p].token {
                    Token::RightParen => true,
                    _ => false,
                };
                if close {
                    Ok((Expr::Grouping(Box::new(e)), p + 1))
                } else {
                    Err(error_at(tokens, p, Expected::RightParen))
                }
            },
        }
    } else {
        if pos < tokens.len() {
            if let Ok(v) = Primitive::try_from(&tokens[pos].token) {
                return Ok((Expr::Literal(v), pos + 1));
            }
        }
        Err(error_at(tokens, pos, Expected::Expression))
    }
}

/// Reads expressions from a token sequence, one at a time.
pub struct Parser {
    tokens: Vec<TokenWrapper>,
    current: usize,
}

impl Parser {
    /// The tokens being read.
    pub closed spec fn tokens(&self) -> Seq<LocatedToken> {
        tokens_view(self.tokens@)
    }

    /// The position of the next token to read.
    pub closed spec fn position(&self) -> int {
        self.current as int
    }

    pub closed spec fn wf(&self) -> bool {
        self.current <= self.tokens@.len()
    }

    pub fn new(tokens: Vec<TokenWrapper>) -> (r: Parser)
        ensures
            r.wf(),
            r.tokens() == tokens_view(tokens@),
            r.position() == 0,
    {
        Parser { tokens, current: 0 }
    }

    /// Reads the next expression. On success the position moves past it;
    /// on a syntax error it stays where it was.
    pub fn expression(&mut self) -> (r: Result<Expr, ParseError>)
        requires
            old(self).wf(),
        ensures
            final(self).wf(),
            final(self).tokens() == old(self).tokens(),
            match parse_expression(old(self).tokens(), old(self).position()) {
                Ok((e, p)) => r matches Ok(x) && x@ == e && final(self).position() == p,
                Err(err) => r matches Err(x) && x@ == err && final(self).position() == old(
                    self,
                ).position(),
            },
    {
        match binary(&self.tokens, self.current, 0) {
            Ok((e, p)) => {
                self.current = p;
                Ok(e)
            },
            Err(err) => Err(err),
        }
    }
}

} // verus!
