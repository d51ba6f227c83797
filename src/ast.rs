use vstd::prelude::*;

use crate::token::{copy_token, Token, TokenView};
use crate::utils::push_char;

verus! {

/// The operators of the expression language.
#[derive(Debug, Clone, Copy, PartialEq, Eq, Structural)]
pub enum Operator {
    Plus,
    Minus,
    Star,
    Divide,
    Bang,
    BangEqual,
    Equal,
    EqualEqual,
    Greater,
    GreaterEqual,
    Less,
    LessEqual,
}

/// A token where an operator or a literal value was required.
#[derive(Debug, Clone)]
pub struct ConversionError {
    pub token: Token,
}

/// The operator that a token stands for, if it stands for one.
pub open spec fn operator_of(t: TokenView) -> Option<Operator> {
    match t {
        TokenView::Plain(Token::Minus) => Some(Operator::Minus),
        TokenView::Plain(Token::Plus) => Some(Operator::Plus),
        TokenView::Plain(Token::Slash) => Some(Operator::Divide),
        TokenView::Plain(Token::Star) => Some(Operator::Star),
        TokenView::Plain(Token::Bang) => Some(Operator::Bang),
        TokenView::Plain(Token::BangEqual) => Some(Operator::BangEqual),
        TokenView::Plain(Token::Equal) => Some(Operator::Equal),
        TokenView::Plain(Token::EqualEqual) => Some(Operator::EqualEqual),
        TokenView::Plain(Token::Greater) => Some(Operator::Greater),
        TokenView::Plain(Token::GreaterEqual) => Some(Operator::GreaterEqual),
        TokenView::Plain(Token::Less) => Some(Operator::Less),
        TokenView::Plain(Token::LessEqual) => Some(Operator::LessEqual),
        _ => None,
    }
}

/// The text of an operator.
pub open spec fn operator_text(op: Operator) -> Seq<char> {
    match op {
        Operator::Plus => "+"@,
        Operator::Minus => "-"@,
        Operator::Star => "*"@,
        Operator::Divide => "/"@,
        Operator::Bang => "!"@,
        Operator::BangEqual => "!="@,
        Operator::Equal => "="@,
        Operator::EqualEqual => "=="@,
        Operator::Greater => ">"@,
        Operator::GreaterEqual => ">="@,
        Operator::Less => "<"@,
        Operator::LessEqual => "<="@,
    }
}

impl Operator {
    /// The operator a token stands for; any other token is refused.
    pub fn try_from(token: &Token) -> (r: Result<Operator, ConversionError>)
        ensures
            match operator_of(token@) {
                Some(op) => r == Ok::<Operator, ConversionError>(op),
                None => r matches Err(e) && e.token@ == token@,
            },
    {
        match token {
            Token::Minus => Ok(Operator::Minus),
            Token::Plus => Ok(Operator::Plus),
            Token::Slash => Ok(Operator::Divide),
            Token::Star => Ok(Operator::Star),
            Token::Bang => Ok(Operator::Bang),
            Token::BangEqual => Ok(Operator::BangEqual),
            Token::Equal => Ok(Operator::Equal),
            Token::EqualEqual => Ok(Operator::EqualEqual),
            Token::Greater => Ok(Operator::Greater),
            Token::GreaterEqual => Ok(Operator::GreaterEqual),
            Token::Less => Ok(Operator::Less),
            Token::LessEqual => Ok(Operator::LessEqual),
            _ => Err(ConversionError { token: copy_token(token) }),
        }
    }

    /// The operator's symbol.
    pub fn to_string(&self) -> (r: String)
        ensures
            r@ == operator_text(*self),
    {
        let text = match self {
            Operator::Plus => "+",
            Operator::Minus => "-",
            Operator::Star => "*",
            Operator::Divide => "/",
            Operator::Bang => "!",
            Operator::BangEqual => "!=",
            Operator::Equal => "=",
            Operator::EqualEqual => "==",
            Operator::Greater => ">",
            Operator::GreaterEqual => ">=",
            Operator::Less => "<",
            Operator::LessEqual => "<=",
        };
        String::from_str(text)
    }
}

/// A literal value. A number keeps the decimal text it was written with, so
/// two numbers of equal value written differently (`1` and `1.0`) are not
/// equal as values of this type.
#[derive(Debug, Clone)]
pub enum Primitive {
    String(String),
    Number(String),
    Boolean(bool),
    Nil,
}

/// The mathematical value of a literal.
pub enum PrimitiveView {
    Str(Seq<char>),
    Number(Seq<char>),
    Boolean(bool),
    Nil,
}

impl View for Primitive {
    type V = PrimitiveView;

    open spec fn view(&self) -> PrimitiveView {
        match self {
            Primitive::String(s) => PrimitiveView::Str(s@),
            Primitive::Number(n) => PrimitiveView::Number(n@),
            Primitive::Boolean(b) => PrimitiveView::Boolean(*b),
            Primitive::Nil => PrimitiveView::Nil,
        }
    }
}

/// The literal value a token stands for, if it stands for one.
pub open spec fn primitive_of(t: TokenView) -> Option<PrimitiveView> {
    match t {
        TokenView::Number(n) => Some(PrimitiveView::Number(n)),
        TokenView::Str(s) => Some(PrimitiveView::Str(s)),
        TokenView::Plain(Token::Nil) => Some(PrimitiveView::Nil),
        TokenView::Plain(Token::False) => Some(PrimitiveView::Boolean(false)),
        TokenView::Plain(Token::True) => Some(PrimitiveView::Boolean(true)),
        _ => None,
    }
}

/// The position of the first `.` at or after `i`, or the length of `s`.
pub open spec fn dot_from(s: Seq<char>, i: int) -> int
    decreases s.len() - i,
{
    if i < 0 || i >= s.len() {
        s.len() as int
    } else if s[i] == '.' {
        i
    } else {
        dot_from(s, i + 1)
    }
}

/// Past the zeros that lead `s[i..end]`, keeping its last character.
pub open spec fn skip_zeros(s: Seq<char>, i: int, end: int) -> int
    decreases end - i,
{
    if 0 <= i && i + 1 < end && s[i] == '0' {
        skip_zeros(s, i + 1, end)
    } else {
        i
    }
}

/// Before the zeros that end `s[start..j]`.
pub open spec fn trim_zeros_back(s: Seq<char>, start: int, j: int) -> int
    decreases j - start,
{
    if start < j && s[j - 1] == '0' {
        trim_zeros_back(s, start, j - 1)
    } else {
        j
    }
}

/// The shortest decimal form of a number literal: no zeros ahead of the
/// whole part, none at the end of the fraction, and no `.` when no
/// fraction is left. The literal's value is kept exactly, so this text can
/// differ from that of the nearest 64-bit float for a literal with more
/// digits than such a float holds (`0.12345678901234567890`).
pub open spec fn number_text(s: Seq<char>) -> Seq<char> {
    let d = dot_from(s, 0);
    let whole = s.subrange(skip_zeros(s, 0, d), d);
    if d < s.len() && trim_zeros_back(s, d + 1, s.len() as int) > d + 1 {
        whole + seq!['.'] + s.subrange(d + 1, trim_zeros_back(s, d + 1, s.len() as int))
    } else {
        whole
    }
}

/// The natural text of a literal value.
pub open spec fn primitive_text(p: PrimitiveView) -> Seq<char> {
    match p {
        PrimitiveView::Str(s) => s,
        PrimitiveView::Number(n) => number_text(n),
        PrimitiveView::Boolean(b) => if b {
            "true"@
        } else {
            "false"@
        },
        PrimitiveView::Nil => "null"@,
    }
}

pub proof fn lemma_dot_from_bounds(s: Seq<char>, i: int)
    requires
        0 <= i <= s.len(),
    ensures
        i <= dot_from(s, i) <= s.len(),
    decreases s.len() - i,
{
    if i < s.len() && s[i] != '.' {
        lemma_dot_from_bounds(s, i + 1);
    }
}

pub proof fn lemma_skip_zeros_bounds(s: Seq<char>, i: int, end: int)
    requires
        0 <= i <= end,
    ensures
        i <= skip_zeros(s, i, end) <= end,
    decreases end - i,
{
    if i + 1 < end && s[i] == '0' {
        lemma_skip_zeros_bounds(s, i + 1, end);
    }
}

pub proof fn lemma_trim_zeros_back_bounds(s: Seq<char>, start: int, j: int)
    requires
        start <= j,
    ensures
        start <= trim_zeros_back(s, start, j) <= j,
    decreases j - start,
{
    if start < j && s[j - 1] == '0' {
        lemma_trim_zeros_back_bounds(s, start, j - 1);
    }
}

/// Appends `chars[start..end]` to `out`.
fn push_range(out: &mut String, chars: &Vec<char>, start: usize, end: usize)
    requires
        start <= end <= chars@.len(),
    ensures
        final(out)@ == old(out)@ + chars@.subrange(start as int, end as int),
{
    let mut i = start;
    while i < end
        invariant
            start <= i <= end <= chars@.len(),
            out@ == old(out)@ + chars@.subrange(start as int, i as int),
        decreases end - i,
    {
        push_char(out, chars[i]);
        i = i + 1;
        assert(out@ =~= old(out)@ + chars@.subrange(start as int, i as int));
    }
}

/// The shortest decimal form of a number literal.
pub fn number_to_string(n: &String) -> (r: String)
    ensures
        r@ == number_text(n@),
{
    let chars = crate::utils::chars_of(n.as_str());
    let ghost s = n@;
    let len = chars.len();
    let mut d: usize = 0;
    while d < len && chars[d] != '.'
        invariant
            chars@ == s,
            len == s.len(),
            d <= len,
            dot_from(s, d as int) == dot_from(s, 0),
        decreases len - d,
    {
        d = d + 1;
    }
    let mut a: usize = 0;
    while a < d && d - a > 1 && chars[a] == '0'
        invariant
            chars@ == s,
            len == s.len(),
            d <= len,
            a <= d,
            skip_zeros(s, a as int, d as int) == skip_zeros(s, 0, d as int),
        decreases d - a,
    {
        a = a + 1;
    }
    let mut out = String::new();
    push_range(&mut out, &chars, a, d);
    if d < len {
        let mut b: usize = len;
        while d + 1 < b && chars[b - 1] == '0'
            invariant
                chars@ == s,
                len == s.len(),
                d < len,
                d + 1 <= b <= len,
                trim_zeros_back(s, d + 1, b as int) == trim_zeros_back(s, d + 1, len as int),
            decreases b,
        {
            b = b - 1;
        }
        if b > d + 1 {
            push_char(&mut out, '.');
            push_range(&mut out, &chars, d + 1, b);
        }
    }
    out
}

impl Primitive {
    /// The literal value a token stands for; any other token is refused.
    pub fn try_from(token: &Token) -> (r: Result<Primitive, ConversionError>)
        ensures
            match primitive_of(token@) {
                Some(p) => r matches Ok(q) && q@ == p,
                None => r matches Err(e) && e.token@ == token@,
            },
    {
        match token {
            Token::Number(n) => Ok(Primitive::Number(n.clone())),
            Token::Nil => Ok(Primitive::Nil),
            Token::String(s) => Ok(Primitive::String(s.clone())),
            Token::False => Ok(Primitive::Boolean(false)),
            Token::True => Ok(Primitive::Boolean(true)),
            _ => Err(ConversionError { token: copy_token(token) }),
        }
    }

    /// The natural text of the value: strings unquoted, numbers in their
    /// shortest decimal form, `nil` as `null`.
    pub fn to_string(&self) -> (r: String)
        ensures
            r@ == primitive_text(self@),
    {
        match self {
            Primitive::String(s) => s.clone(),
            Primitive::Number(n) => number_to_string(n),
            Primitive::Boolean(b) => if *b {
                String::from_str("true")
            } else {
                String::from_str("false")
            },
            Primitive::Nil => String::from_str("null"),
        }
    }
}

/// An expression tree. Each node owns its children.
#[derive(Debug)]
pub enum Expr {
    Binary(Operator, Box<Expr>, Box<Expr>),
    Grouping(Box<Expr>),
    Literal(Primitive),
    Unary(Operator, Box<Expr>),
}

/// The mathematical value of an expression tree.
pub enum ExprView {
    Binary(Operator, Box<ExprView>, Box<ExprView>),
    Grouping(Box<ExprView>),
    Literal(PrimitiveView),
    Unary(Operator, Box<ExprView>),
}

pub open spec fn expr_view(e: Expr) -> ExprView
    decreases e,
{
    match e {
        Expr::Binary(op, l, r) => ExprView::Binary(
            op,
            Box::new(expr_view(*l)),
            Box::new(expr_view(*r)),
        ),
        Expr::Grouping(x) => ExprView::Grouping(Box::new(expr_view(*x))),
        Expr::Literal(p) => ExprView::Literal(p@),
        Expr::Unary(op, x) => ExprView::Unary(op, Box::new(expr_view(*x))),
    }
}

impl View for Expr {
    type V = ExprView;

    open spec fn view(&self) -> ExprView {
        expr_view(*self)
    }
}

/// The S-expression text of a tree: `(op left right)`, `(group inner)`,
/// `(op operand)`, and a literal's natural text.
pub open spec fn sexpr(e: ExprView) -> Seq<char>
    decreases e,
{
    match e {
        ExprView::Binary(op, l, r) => seq!['('] + operator_text(op) + seq![' '] + sexpr(*l) + seq![
            ' ',
        ] + sexpr(*r) + seq![')'],
        ExprView::Grouping(x) => "(group "@ + sexpr(*x) + seq![')'],
        ExprView::Literal(p) => primitive_text(p),
        ExprView::Unary(op, x) => seq!['('] + operator_text(op) + seq![' '] + sexpr(*x) + seq![')'],
    }
}

/// Appends `more` to `out`.
pub(crate) fn push_string(out: &mut String, more: &String)
    ensures
        final(out)@ == old(out)@ + more@,
{
    out.append(more.as_str());
}

impl Expr {
    /// The S-expression text of the tree.
    pub fn to_string(&self) -> (r: String)
        ensures
            r@ == sexpr(self@),
        decreases self,
    {
        match self {
            Expr::Binary(op, l, r) => {
                let mut out = String::new();
                push_char(&mut out, '(');
                push_string(&mut out, &op.to_string());
                push_char(&mut out, ' ');
                push_string(&mut out, &l.to_string());
                push_char(&mut out, ' ');
                push_string(&mut out, &r.to_string());
                push_char(&mut out, ')');
                proof {
                    assert(out@ =~= sexpr(self@));
                }
                out
            },
            Expr::Grouping(x) => {
                let mut out = String::from_str("(group ");
                push_string(&mut out, &x.to_string());
                push_char(&mut out, ')');
                out
            },
            Expr::Literal(p) => p.to_string(),
            Expr::Unary(op, x) => {
                let mut out = String::new();
                push_char(&mut out, '(');
                push_string(&mut out, &op.to_string());
                push_char(&mut out, ' ');
                push_string(&mut out, &x.to_string());
                push_char(&mut out, ')');
                proof {
                    assert(out@ =~= sexpr(self@));
                }
                out
            },
        }
    }
}

} // verus!
