use vstd::prelude::*;

use crate::lexical::{
    alnum_end, alphabetic, alphanumeric, digits_end, is_digit, lemma_alnum_end_bounds,
    lemma_digits_end_bounds, lemma_quote_end_bounds, lemma_step_progress, quote_end, scan_from,
    scanned, step,
};
use crate::scanner::ErrorView;
use crate::utils::push_char;
use crate::token::{
    keyword_of, keyword_spelling, keyword_token, LocatedToken, Token, TokenView, KEYWORD_COUNT,
};

verus! {

/// The text of a token without payload: its symbol or its reserved word.
pub open spec fn plain_text(t: Token) -> Seq<char> {
    match t {
        Token::LeftParen => seq!['('],
        Token::RightParen => seq![')'],
        Token::LeftBrace => seq!['{'],
        Token::RightBrace => seq!['}'],
        Token::Comma => seq![','],
        Token::Dot => seq!['.'],
        Token::Minus => seq!['-'],
        Token::Plus => seq!['+'],
        Token::Semicolon => seq![';'],
        Token::Slash => seq!['/'],
        Token::Star => seq!['*'],
        Token::Bang => seq!['!'],
        Token::BangEqual => seq!['!', '='],
        Token::Equal => seq!['='],
        Token::EqualEqual => seq!['=', '='],
        Token::Greater => seq!['>'],
        Token::GreaterEqual => seq!['>', '='],
        Token::Less => seq!['<'],
        Token::LessEqual => seq!['<', '='],
        Token::And => "and"@,
        Token::Class => "class"@,
        Token::Else => "else"@,
        Token::False => "false"@,
        Token::For => "for"@,
        Token::Fun => "fun"@,
        Token::If => "if"@,
        Token::Nil => "nil"@,
        Token::Or => "or"@,
        Token::Print => "print"@,
        Token::Return => "return"@,
        Token::Super => "super"@,
        Token::This => "this"@,
        Token::True => "true"@,
        Token::Var => "var"@,
        Token::While => "while"@,
        _ => Seq::empty(),
    }
}

/// The source text that a token is read from.
pub open spec fn lexeme(t: TokenView) -> Seq<char> {
    match t {
        TokenView::Plain(tok) => plain_text(tok),
        TokenView::Identifier(name) => name,
        TokenView::Str(contents) => seq!['"'] + contents + seq!['"'],
        TokenView::Number(digits) => digits,
    }
}

fn one_char(c: char) -> (r: String)
    ensures
        r@ == seq![c],
{
    let mut out = String::new();
    push_char(&mut out, c);
    assert(out@ =~= seq![c]);
    out
}

fn two_chars(c: char, d: char) -> (r: String)
    ensures
        r@ == seq![c, d],
{
    let mut out = one_char(c);
    push_char(&mut out, d);
    assert(out@ =~= seq![c, d]);
    out
}

impl Token {
    /// The source text the token is read from; empty for the end of input.
    pub fn lexeme(&self) -> (r: String)
        ensures
            r@ == lexeme(self@),
    {
        match self {
            Token::LeftParen => one_char('('),
            Token::RightParen => one_char(')'),
            Token::LeftBrace => one_char('{'),
            Token::RightBrace => one_char('}'),
            Token::Comma => one_char(','),
            Token::Dot => one_char('.'),
            Token::Minus => one_char('-'),
            Token::Plus => one_char('+'),
            Token::Semicolon => one_char(';'),
            Token::Slash => one_char('/'),
            Token::Star => one_char('*'),
            Token::Bang => one_char('!'),
            Token::BangEqual => two_chars('!', '='),
            Token::Equal => one_char('='),
            Token::EqualEqual => two_chars('=', '='),
            Token::Greater => one_char('>'),
            Token::GreaterEqual => two_chars('>', '='),
            Token::Less => one_char('<'),
            Token::LessEqual => two_chars('<', '='),
            Token::Identifier(name) => name.clone(),
            Token::String(contents) => {
                let mut out = one_char('"');
                out.append(contents.as_str());
                push_char(&mut out, '"');
                out
            },
            Token::Number(digits) => digits.clone(),
            Token::And => String::from_str("and"),
            Token::Class => String::from_str("class"),
            Token::Else => String::from_str("else"),
            Token::False => String::from_str("false"),
            Token::Fun => String::from_str("fun"),
            Token::For => String::from_str("for"),
            Token::If => String::from_str("if"),
            Token::Nil => String::from_str("nil"),
            Token::Or => String::from_str("or"),
            Token::Print => String::from_str("print"),
            Token::Return => String::from_str("return"),
            Token::Super => String::from_str("super"),
            Token::This => String::from_str("this"),
            Token::True => String::from_str("true"),
            Token::Var => String::from_str("var"),
            Token::While => String::from_str("while"),
            Token::Eof => String::new(),
        }
    }
}

/// The lexemes of a token sequence, joined by single spaces.
pub open spec fn joined(ts: Seq<TokenView>) -> Seq<char>
    decreases ts.len(),
{
    if ts.len() == 0 {
        Seq::empty()
    } else if ts.len() == 1 {
        lexeme(ts[0])
    } else {
        lexeme(ts[0]) + seq![' '] + joined(ts.drop_first())
    }
}

/// The tokens of a sequence, without their lines.
pub open spec fn kinds(ts: Seq<LocatedToken>) -> Seq<TokenView> {
    ts.map_values(|x: LocatedToken| x.0)
}

/// `r[p..p + n]` holds the same characters as `s[i..i + n]`.
pub open spec fn same_window(s: Seq<char>, i: int, r: Seq<char>, p: int, n: int) -> bool {
    forall|k: int| 0 <= k < n ==> #[trigger] r[p + k] == s[i + k]
}

proof fn lemma_window_shift(s: Seq<char>, i: int, r: Seq<char>, p: int, n: int, d: int)
    requires
        same_window(s, i, r, p, n),
        0 <= d <= n,
    ensures
        same_window(s, i + d, r, p + d, n - d),
{
    assert forall|k: int| 0 <= k < n - d implies #[trigger] r[p + d + k] == s[i + d + k] by {
        assert(r[p + (d + k)] == s[i + (d + k)]);
    }
}

proof fn lemma_window_subrange(s: Seq<char>, i: int, r: Seq<char>, p: int, n: int)
    requires
        same_window(s, i, r, p, n),
        0 <= i,
        i + n <= s.len(),
        0 <= p,
        p + n <= r.len(),
        0 <= n,
    ensures
        r.subrange(p, p + n) == s.subrange(i, i + n),
{
    assert forall|k: int| 0 <= k < n implies #[trigger] r.subrange(p, p + n)[k] == s.subrange(i, i + n)[k] by {
        assert(r[p + k] == s[i + k]);
    }
    assert(r.subrange(p, p + n) =~= s.subrange(i, i + n));
}

proof fn lemma_digits_window(s: Seq<char>, i: int, r: Seq<char>, p: int, m: int)
    requires
        0 <= i,
        0 <= p,
        0 <= m,
        digits_end(s, i) == i + m,
        p + m <= r.len(),
        same_window(s, i, r, p, m),
        p + m < r.len() ==> !is_digit(r[p + m]),
    ensures
        digits_end(r, p) == p + m,
    decreases m,
{
    if m > 0 {
        assert(r[p + 0] == s[i + 0]);
        lemma_window_shift(s, i, r, p, m, 1);
        lemma_digits_window(s, i + 1, r, p + 1, m - 1);
    }
}

proof fn lemma_alnum_window(s: Seq<char>, i: int, r: Seq<char>, p: int, m: int)
    requires
        0 <= i,
        0 <= p,
        0 <= m,
        alnum_end(s, i) == i + m,
        p + m <= r.len(),
        same_window(s, i, r, p, m),
        p + m < r.len() ==> !alphanumeric(r[p + m]),
    ensures
        alnum_end(r, p) == p + m,
    decreases m,
{
    if m > 0 {
        assert(r[p + 0] == s[i + 0]);
        lemma_window_shift(s, i, r, p, m, 1);
        lemma_alnum_window(s, i + 1, r, p + 1, m - 1);
    }
}

proof fn lemma_quote_window(s: Seq<char>, i: int, r: Seq<char>, p: int, m: int)
    requires
        0 <= i,
        0 <= p,
        0 <= m,
        quote_end(s, i) == i + m,
        i + m < s.len(),
        p + m < r.len(),
        same_window(s, i, r, p, m + 1),
    ensures
        quote_end(r, p) == p + m,
    decreases m,
{
    assert(r[p + 0] == s[i + 0]);
    assert(r[p] == s[i]);
    if m > 0 {
        assert(s[i] != '"');
        assert(quote_end(s, i + 1) == i + m);
        lemma_window_shift(s, i, r, p, m + 1, 1);
        lemma_quote_window(s, i + 1, r, p + 1, m - 1);
        assert(quote_end(r, p) == quote_end(r, p + 1));
    } else {
        if i + 1 <= s.len() {
            lemma_quote_end_bounds(s, i + 1);
        }
    }
}

proof fn lemma_keyword_text(k: int)
    requires
        0 <= k < KEYWORD_COUNT,
    ensures
        plain_text(keyword_token(k)) == keyword_spelling(k),
{
}

/// A token that a step reads is spelled by the characters it consumed.
proof fn lemma_step_lexeme(s: Seq<char>, i: int, line: int)
    requires
        0 <= i < s.len(),
        step(s, i, line).token is Some,
    ensures
        lexeme((step(s, i, line).token->0).0) == s.subrange(i, step(s, i, line).next),
{
    lemma_step_progress(s, i, line);
    let st = step(s, i, line);
    let c = s[i];
    if st.next == i + 1 {
        assert(s.subrange(i, i + 1) =~= seq![c]);
    }
    if st.next == i + 2 && i + 1 < s.len() {
        assert(s.subrange(i, i + 2) =~= seq![c, s[i + 1]]);
    }
    if c == '"' {
        let q = quote_end(s, i + 1);
        assert(s.subrange(i, q + 1) =~= seq!['"'] + s.subrange(i + 1, q) + seq!['"']) by {
            lemma_quote_end_bounds(s, i + 1);
        }
    }
    let e = alnum_end(s, i + 1);
    if keyword_of(s.subrange(i, e)) is Some {
        let name = s.subrange(i, e);
        let k = choose|k: int| 0 <= k < KEYWORD_COUNT && keyword_spelling(k) == name;
        lemma_keyword_text(k);
    }
}

/// A step reads the same token from any text that repeats the characters it
/// consumed and follows them with a space or ends there.
proof fn lemma_step_window(s: Seq<char>, i: int, line: int, r: Seq<char>, p: int, line2: int)
    requires
        0 <= i < s.len(),
        0 <= p,
        step(s, i, line).token is Some,
        p + (step(s, i, line).next - i) <= r.len(),
        same_window(s, i, r, p, step(s, i, line).next - i),
        p + (step(s, i, line).next - i) < r.len() ==> r[p + (step(s, i, line).next - i)] == ' ',
    ensures
        step(r, p, line2).next == p + (step(s, i, line).next - i),
        step(r, p, line2).error is None,
        step(r, p, line2).token matches Some(x) && x.0 == (step(s, i, line).token->0).0,
{
    lemma_step_progress(s, i, line);
    let st = step(s, i, line);
    let n = st.next - i;
    let c = s[i];
    assert(r[p + 0] == s[i + 0]);
    if n >= 2 {
        assert(r[p + 1] == s[i + 1]);
    }
    if c == '"' {
        let q = quote_end(s, i + 1);
        lemma_quote_end_bounds(s, i + 1);
        lemma_window_shift(s, i, r, p, n, 1);
        lemma_quote_window(s, i + 1, r, p + 1, q - (i + 1));
        lemma_window_subrange(s, i + 1, r, p + 1, q - (i + 1));
    } else if is_digit(c) {
        let d = digits_end(s, i);
        lemma_digits_end_bounds(s, i);
        lemma_digits_end_bounds(s, i + 1);
        if d + 1 < s.len() && s[d] == '.' && is_digit(s[d + 1]) {
            let e = digits_end(s, d + 1);
            lemma_digits_end_bounds(s, d + 2);
            assert(r[p + (d - i)] == s[i + (d - i)]);
            assert(r[p + (d - i + 1)] == s[i + (d - i + 1)]);
            lemma_digits_window(s, i, r, p, d - i);
            lemma_window_shift(s, i, r, p, n, d + 1 - i);
            lemma_digits_window(s, d + 1, r, p + (d + 1 - i), e - (d + 1));
        } else {
            lemma_digits_window(s, i, r, p, d - i);
        }
        lemma_window_subrange(s, i, r, p, n);
    } else if alphabetic(c) {
        let e = alnum_end(s, i + 1);
        lemma_alnum_end_bounds(s, i + 1);
        lemma_window_shift(s, i, r, p, n, 1);
        lemma_alnum_window(s, i + 1, r, p + 1, e - (i + 1));
        lemma_window_subrange(s, i, r, p, n);
    }
}

proof fn lemma_rescan_from(s: Seq<char>, i: int, line: int, r: Seq<char>, p: int, line2: int)
    requires
        0 <= i <= s.len(),
        0 <= p <= r.len(),
        scan_from(s, i, line).errors.len() == 0,
        r.subrange(p, r.len() as int) == joined(kinds(scan_from(s, i, line).tokens)),
    ensures
        scan_from(r, p, line2).errors.len() == 0,
        kinds(scan_from(r, p, line2).tokens) == kinds(scan_from(s, i, line).tokens),
    decreases s.len() - i,
{
    if i == s.len() {
        assert(kinds(scan_from(s, i, line).tokens) =~= Seq::<TokenView>::empty());
        assert(r.subrange(p, r.len() as int).len() == 0);
        assert(kinds(scan_from(r, p, line2).tokens) =~= Seq::<TokenView>::empty());
    } else {
        lemma_step_progress(s, i, line);
        let st = step(s, i, line);
        let rest = scan_from(s, st.next, st.line);
        assert(st.error is None);
        match st.token {
            None => {
                assert(scan_from(s, i, line).tokens =~= rest.tokens);
                assert(scan_from(s, i, line).errors =~= rest.errors);
                lemma_rescan_from(s, st.next, st.line, r, p, line2);
            },
            Some(t) => {
                let n = st.next - i;
                let ks = kinds(scan_from(s, i, line).tokens);
                let kr = kinds(rest.tokens);
                assert(scan_from(s, i, line).tokens == seq![t] + rest.tokens);
                assert(rest.errors =~= scan_from(s, i, line).errors);
                assert(ks =~= seq![t.0] + kr);
                assert(ks.drop_first() =~= kr);
                lemma_step_lexeme(s, i, line);
                let tail = r.subrange(p, r.len() as int);
                if kr.len() == 0 {
                    assert(tail == lexeme(t.0));
                } else {
                    assert(tail == lexeme(t.0) + seq![' '] + joined(kr));
                }
                assert(tail.len() >= n);
                assert(same_window(s, i, r, p, n)) by {
                    assert forall|k: int| 0 <= k < n implies #[trigger] r[p + k] == s[i + k] by {
                        assert(tail[k] == lexeme(t.0)[k]);
                        assert(s.subrange(i, st.next)[k] == s[i + k]);
                    }
                }
                if kr.len() > 0 {
                    assert(tail[n] == ' ');
                    assert(r[p + n] == ' ');
                }
                lemma_step_window(s, i, line, r, p, line2);
                let str = step(r, p, line2);
                let x = str.token->0;
                if kr.len() == 0 {
                    assert(p + n == r.len());
                    let end = scan_from(r, p + n, str.line);
                    assert(end.tokens.len() == 0 && end.errors.len() == 0);
                    assert(scan_from(r, p, line2).tokens == seq![x] + end.tokens);
                    assert(scan_from(r, p, line2).errors == Seq::<ErrorView>::empty() + end.errors);
                    assert(scan_from(r, p, line2).tokens =~= seq![x]);
                    assert(scan_from(r, p, line2).errors =~= Seq::<ErrorView>::empty());
                    assert(kinds(scan_from(r, p, line2).tokens) =~= seq![x.0]);
                } else {
                    let blank = step(r, p + n, str.line);
                    assert(blank.next == p + n + 1 && blank.token is None && blank.error is None);
                    let after = scan_from(r, p + n + 1, str.line);
                    assert(scan_from(r, p + n, str.line).tokens =~= after.tokens);
                    assert(scan_from(r, p + n, str.line).errors =~= after.errors);
                    assert(r.subrange(p + n + 1, r.len() as int) =~= joined(kr)) by {
                        assert(r.subrange(p + n + 1, r.len() as int) =~= tail.subrange(
                            n + 1,
                            tail.len() as int,
                        ));
                    }
                    lemma_rescan_from(s, st.next, st.line, r, p + n + 1, str.line);
                    assert(scan_from(r, p, line2).tokens == seq![x] + after.tokens);
                    assert(scan_from(r, p, line2).errors =~= after.errors);
                    assert(kinds(scan_from(r, p, line2).tokens) =~= seq![x.0] + kinds(after.tokens));
                }
            },
        }
    }
}

/// Writing out the lexemes of a successful scan joined by single spaces, and
/// scanning that text, gives the same tokens again, lines aside.
pub proof fn lemma_rescan_lexemes(s: Seq<char>)
    requires
        scanned(s) is Ok,
    ensures
        scanned(joined(kinds(scanned(s)->Ok_0.drop_last()))) is Ok,
        kinds(scanned(joined(kinds(scanned(s)->Ok_0.drop_last())))->Ok_0) == kinds(
            scanned(s)->Ok_0,
        ),
{
    let out = scan_from(s, 0, 1);
    let ts = scanned(s)->Ok_0;
    assert(ts.drop_last() =~= out.tokens);
    let r = joined(kinds(out.tokens));
    assert(r.subrange(0, r.len() as int) =~= r);
    lemma_rescan_from(s, 0, 1, r, 0, 1);
    let out2 = scan_from(r, 0, 1);
    let eof = TokenView::Plain(Token::Eof);
    assert(kinds(out2.tokens.push((eof, out2.line))) =~= kinds(out2.tokens).push(eof));
    assert(kinds(out.tokens.push((eof, out.line))) =~= kinds(out.tokens).push(eof));
}

} // verus!
