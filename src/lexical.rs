use vstd::prelude::*;

use crate::scanner::{ErrorView, UNCLOSED_BLOCK_COMMENT, UNEXPECTED_CHARACTER, UNTERMINATED_STRING};
use crate::token::{keyword_of, LocatedToken, Token, TokenView};

verus! {

// ---------------------------------------------------------------------------
// Character classes
// ---------------------------------------------------------------------------

/// Whether a character beyond ASCII has the Unicode `Alphabetic` property.
pub uninterp spec fn unicode_alphabetic(c: char) -> bool;

/// Whether a character beyond ASCII is Unicode alphabetic or numeric.
pub uninterp spec fn unicode_alphanumeric(c: char) -> bool;

pub open spec fn is_ascii(c: char) -> bool {
    (c as u32) < 128
}

pub open spec fn is_ascii_letter(c: char) -> bool {
    ('a' <= c <= 'z') || ('A' <= c <= 'Z')
}

pub open spec fn is_digit(c: char) -> bool {
    '0' <= c <= '9'
}

/// Alphabetic characters: on ASCII exactly the letters.
pub open spec fn alphabetic(c: char) -> bool {
    if is_ascii(c) {
        is_ascii_letter(c)
    } else {
        unicode_alphabetic(c)
    }
}

/// Alphanumeric characters: on ASCII exactly the letters and the digits.
pub open spec fn alphanumeric(c: char) -> bool {
    if is_ascii(c) {
        is_ascii_letter(c) || is_digit(c)
    } else {
        unicode_alphanumeric(c)
    }
}

/// Whitespace that separates tokens without starting a new line.
pub open spec fn is_blank(c: char) -> bool {
    c == ' ' || c == '\r' || c == '\t'
}

/// Relies on `char::is_alphabetic`, which on ASCII holds exactly of the letters.
#[verifier::external_body]
pub(crate) fn is_alphabetic(c: char) -> (r: bool)
    ensures
        r == alphabetic(c),
        !is_ascii(c) ==> r == unicode_alphabetic(c),
{
    c.is_alphabetic()
}

/// Relies on `char::is_alphanumeric`, which on ASCII holds exactly of the
/// letters and the digits.
#[verifier::external_body]
pub(crate) fn is_alphanumeric(c: char) -> (r: bool)
    ensures
        r == alphanumeric(c),
        !is_ascii(c) ==> r == unicode_alphanumeric(c),
{
    c.is_alphanumeric()
}

// ---------------------------------------------------------------------------
// The lexical grammar
// ---------------------------------------------------------------------------

/// The end of the run of ASCII digits that starts at `i`.
pub open spec fn digits_end(s: Seq<char>, i: int) -> int
    decreases s.len() - i,
{
    if 0 <= i < s.len() && is_digit(s[i]) {
        digits_end(s, i + 1)
    } else {
        i
    }
}

/// The end of the run of alphanumeric characters that starts at `i`.
pub open spec fn alnum_end(s: Seq<char>, i: int) -> int
    decreases s.len() - i,
{
    if 0 <= i < s.len() && alphanumeric(s[i]) {
        alnum_end(s, i + 1)
    } else {
        i
    }
}

/// The first newline at or after `i`, or the end of the input.
pub open spec fn line_end(s: Seq<char>, i: int) -> int
    decreases s.len() - i,
{
    if 0 <= i < s.len() && s[i] != '\n' {
        line_end(s, i + 1)
    } else {
        i
    }
}

/// The first double quote at or after `i`, or the end of the input.
pub open spec fn quote_end(s: Seq<char>, i: int) -> int
    decreases s.len() - i,
{
    if 0 <= i < s.len() && s[i] != '"' {
        quote_end(s, i + 1)
    } else {
        i
    }
}

/// The end of the number literal that starts at `i`: digits, then a `.` and
/// more digits only when a digit follows the `.`.
pub open spec fn number_end(s: Seq<char>, i: int) -> int {
    let e = digits_end(s, i);
    if e + 1 < s.len() && s[e] == '.' && is_digit(s[e + 1]) {
        digits_end(s, e + 1)
    } else {
        e
    }
}

/// The number of newlines among `s[a..b]`.
pub open spec fn newlines(s: Seq<char>, a: int, b: int) -> int
    decreases b - a,
{
    if b <= a {
        0
    } else {
        newlines(s, a, b - 1) + if s[b - 1] == '\n' {
            1int
        } else {
            0int
        }
    }
}

/// True when `s[i]` and `s[i + 1]` are `a` and `b`.
pub open spec fn pair_at(s: Seq<char>, i: int, a: char, b: char) -> bool {
    0 <= i && i + 1 < s.len() && s[i] == a && s[i + 1] == b
}

/// Where a block comment ends when scanning resumes at `i` with `depth`
/// comments open: just past the `*/` that closes the outermost one, or
/// `None` when the input ends first.
pub open spec fn comment_end(s: Seq<char>, i: int, depth: int) -> Option<int>
    decreases s.len() - i,
{
    if i < 0 || i >= s.len() {
        None
    } else if pair_at(s, i, '*', '/') {
        if depth <= 1 {
            Some(i + 2)
        } else {
            comment_end(s, i + 2, depth - 1)
        }
    } else if pair_at(s, i, '/', '*') {
        comment_end(s, i + 2, depth + 1)
    } else {
        comment_end(s, i + 1, depth)
    }
}

/// The outcome of recognizing one lexeme: where scanning resumes, the line
/// there, and the token or the error it gave, if any.
pub struct Step {
    pub next: int,
    pub line: int,
    pub token: Option<LocatedToken>,
    pub error: Option<ErrorView>,
}

pub open spec fn emit(next: int, line: int, t: Token) -> Step {
    Step { next, line, token: Some((TokenView::Plain(t), line)), error: None }
}

pub open spec fn skip(next: int, line: int) -> Step {
    Step { next, line, token: None, error: None }
}

/// A one-character operator, or the two-character one when `=` follows.
pub open spec fn with_equal(s: Seq<char>, i: int, line: int, one: Token, two: Token) -> Step {
    if i + 1 < s.len() && s[i + 1] == '=' {
        emit(i + 2, line, two)
    } else {
        emit(i + 1, line, one)
    }
}

/// The token view of an identifier-shaped lexeme.
pub open spec fn word_token(name: Seq<char>) -> TokenView {
    match keyword_of(name) {
        Some(t) => TokenView::Plain(t),
        None => TokenView::Identifier(name),
    }
}

/// Recognizes the lexeme that starts at `i` (with `0 <= i < s.len()`) on
/// line `line`.
pub open spec fn step(s: Seq<char>, i: int, line: int) -> Step {
    let c = s[i];
    if c == '(' {
        emit(i + 1, line, Token::LeftParen)
    } else if c == ')' {
        emit(i + 1, line, Token::RightParen)
    } else if c == '{' {
        emit(i + 1, line, Token::LeftBrace)
    } else if c == '}' {
        emit(i + 1, line, Token::RightBrace)
    } else if c == ',' {
        emit(i + 1, line, Token::Comma)
    } else if c == '.' {
        emit(i + 1, line, Token::Dot)
    } else if c == '-' {
        emit(i + 1, line, Token::Minus)
    } else if c == '+' {
        emit(i + 1, line, Token::Plus)
    } else if c == ';' {
        emit(i + 1, line, Token::Semicolon)
    } else if c == '*' {
        emit(i + 1, line, Token::Star)
    } else if c == '!' {
        with_equal(s, i, line, Token::Bang, Token::BangEqual)
    } else if c == '=' {
        with_equal(s, i, line, Token::Equal, Token::EqualEqual)
    } else if c == '<' {
        with_equal(s, i, line, Token::Less, Token::LessEqual)
    } else if c == '>' {
        with_equal(s, i, line, Token::Greater, Token::GreaterEqual)
    } else if c == '/' {
        if pair_at(s, i, '/', '/') {
            skip(line_end(s, i + 2), line)
        } else if pair_at(s, i, '/', '*') {
            match comment_end(s, i + 2, 1) {
                Some(j) => skip(j, line + newlines(s, i, j)),
                None => {
                    let l = line + newlines(s, i, s.len() as int);
                    Step {
                        next: s.len() as int,
                        line: l,
                        token: None,
                        error: Some(
                            ErrorView {
                                kind: UNCLOSED_BLOCK_COMMENT as int,
                                line: l,
                                source: s.subrange(i, s.len() as int),
                            },
                        ),
                    }
                },
            }
        } else {
            emit(i + 1, line, Token::Slash)
        }
    } else if c == '\n' {
        skip(i + 1, line + 1)
    } else if is_blank(c) {
        skip(i + 1, line)
    } else if c == '"' {
        let q = quote_end(s, i + 1);
        if q < s.len() {
            Step {
                next: q + 1,
                line: line + newlines(s, i + 1, q),
                token: Some((TokenView::Str(s.subrange(i + 1, q)), line)),
                error: None,
            }
        } else {
            let l = line + newlines(s, i + 1, s.len() as int);
            Step {
                next: s.len() as int,
                line: l,
                token: None,
                error: Some(
                    ErrorView {
                        kind: UNTERMINATED_STRING as int,
                        line: l,
                        source: s.subrange(i, s.len() as int),
                    },
                ),
            }
        }
    } else if is_digit(c) {
        let e = number_end(s, i);
        Step {
            next: e,
            line,
            token: Some((TokenView::Number(s.subrange(i, e)), line)),
            error: None,
        }
    } else if alphabetic(c) {
        let e = alnum_end(s, i + 1);
        Step { next: e, line, token: Some((word_token(s.subrange(i, e)), line)), error: None }
    } else {
        Step {
            next: i + 1,
            line,
            token: None,
            error: Some(ErrorView { kind: UNEXPECTED_CHARACTER as int, line, source: seq![c] }),
        }
    }
}

pub open spec fn append_opt<A>(s: Seq<A>, o: Option<A>) -> Seq<A> {
    match o {
        Some(a) => s.push(a),
        None => s,
    }
}

pub open spec fn opt_seq<A>(o: Option<A>) -> Seq<A> {
    match o {
        Some(a) => seq![a],
        None => Seq::empty(),
    }
}

/// What scanning from position `i` on line `line` to the end of the input
/// produces, before the end-of-input token.
pub struct ScanOut {
    pub tokens: Seq<LocatedToken>,
    pub errors: Seq<ErrorView>,
    pub line: int,
}

pub open spec fn scan_from(s: Seq<char>, i: int, line: int) -> ScanOut
    decreases s.len() - i,
{
    if i < 0 || i >= s.len() {
        ScanOut { tokens: Seq::empty(), errors: Seq::empty(), line }
    } else {
        let st = step(s, i, line);
        if st.next <= i || st.next > s.len() {
            ScanOut { tokens: Seq::empty(), errors: Seq::empty(), line }
        } else {
            let rest = scan_from(s, st.next, st.line);
            ScanOut {
                tokens: opt_seq(st.token) + rest.tokens,
                errors: opt_seq(st.error) + rest.errors,
                line: rest.line,
            }
        }
    }
}

/// The result of scanning a whole source text: every error found, if there
/// is any; otherwise every token, followed by the end-of-input token on the
/// last line.
pub open spec fn scanned(s: Seq<char>) -> Result<Seq<LocatedToken>, Seq<ErrorView>> {
    let out = scan_from(s, 0, 1);
    if out.errors.len() > 0 {
        Err(out.errors)
    } else {
        Ok(out.tokens.push((TokenView::Plain(Token::Eof), out.line)))
    }
}

pub proof fn lemma_digits_end_bounds(s: Seq<char>, i: int)
    requires
        0 <= i <= s.len(),
    ensures
        i <= digits_end(s, i) <= s.len(),
    decreases s.len() - i,
{
    if i < s.len() && is_digit(s[i]) {
        lemma_digits_end_bounds(s, i + 1);
    }
}

pub proof fn lemma_alnum_end_bounds(s: Seq<char>, i: int)
    requires
        0 <= i <= s.len(),
    ensures
        i <= alnum_end(s, i) <= s.len(),
    decreases s.len() - i,
{
    if i < s.len() && alphanumeric(s[i]) {
        lemma_alnum_end_bounds(s, i + 1);
    }
}

pub proof fn lemma_line_end_bounds(s: Seq<char>, i: int)
    requires
        0 <= i <= s.len(),
    ensures
        i <= line_end(s, i) <= s.len(),
    decreases s.len() - i,
{
    if i < s.len() && s[i] != '\n' {
        lemma_line_end_bounds(s, i + 1);
    }
}

pub proof fn lemma_quote_end_bounds(s: Seq<char>, i: int)
    requires
        0 <= i <= s.len(),
    ensures
        i <= quote_end(s, i) <= s.len(),
        quote_end(s, i) < s.len() ==> s[quote_end(s, i)] == '"',
    decreases s.len() - i,
{
    if i < s.len() && s[i] != '"' {
        lemma_quote_end_bounds(s, i + 1);
    }
}

pub proof fn lemma_comment_end_bounds(s: Seq<char>, i: int, depth: int)
    requires
        0 <= i,
    ensures
        comment_end(s, i, depth) matches Some(j) ==> i < j <= s.len(),
    decreases s.len() - i,
{
    if i < s.len() {
        if pair_at(s, i, '*', '/') {
            if depth > 1 {
                lemma_comment_end_bounds(s, i + 2, depth - 1);
            }
        } else if pair_at(s, i, '/', '*') {
            lemma_comment_end_bounds(s, i + 2, depth + 1);
        } else {
            lemma_comment_end_bounds(s, i + 1, depth);
        }
    }
}

/// Each lexeme consumes at least one character and stays within the input.
pub proof fn lemma_step_progress(s: Seq<char>, i: int, line: int)
    requires
        0 <= i < s.len(),
    ensures
        i < step(s, i, line).next <= s.len(),
{
    lemma_digits_end_bounds(s, i);
    lemma_digits_end_bounds(s, i + 1);
    let e = digits_end(s, i);
    if e + 1 < s.len() {
        lemma_digits_end_bounds(s, e + 1);
    }
    lemma_alnum_end_bounds(s, i + 1);
    if i + 2 <= s.len() {
        lemma_line_end_bounds(s, i + 2);
    }
    lemma_quote_end_bounds(s, i + 1);
    lemma_comment_end_bounds(s, i + 2, 1);
}

pub proof fn lemma_append_opt<A>(s: Seq<A>, o: Option<A>, rest: Seq<A>)
    ensures
        append_opt(s, o) + rest == s + (opt_seq(o) + rest),
{
    assert(append_opt(s, o) + rest =~= s + (opt_seq(o) + rest));
}

/// Every error when there is any; otherwise the tokens.
pub open spec fn outcome(tokens: Seq<LocatedToken>, errors: Seq<ErrorView>) -> Result<
    Seq<LocatedToken>,
    Seq<ErrorView>,
> {
    if errors.len() > 0 {
        Err(errors)
    } else {
        Ok(tokens)
    }
}

/// A keyword found in the table carries no payload and is not the
/// end-of-input token.
pub proof fn lemma_keyword_plain(name: Seq<char>)
    requires
        keyword_of(name) is Some,
    ensures
        !keyword_of(name)->0.has_payload(),
        keyword_of(name)->0 != Token::Eof,
        word_token(name) == TokenView::Plain(keyword_of(name)->0),
{
}

/// The character at `i`, or `'\0'` outside the input.
pub open spec fn char_at(s: Seq<char>, i: int) -> char {
    if 0 <= i < s.len() {
        s[i]
    } else {
        '\0'
    }
}

/// Whether a character is an ASCII digit.
pub(crate) fn is_ascii_digit(c: char) -> (r: bool)
    ensures
        r == is_digit(c),
{
    '0' <= c && c <= '9'
}

/// No lexeme is read as the end-of-input token.
pub proof fn lemma_step_not_eof(s: Seq<char>, i: int, line: int)
    requires
        0 <= i < s.len(),
    ensures
        step(s, i, line).token matches Some(t) ==> t.0 != TokenView::Plain(Token::Eof),
{
    let e = alnum_end(s, i + 1);
    if keyword_of(s.subrange(i, e)) is Some {
        lemma_keyword_plain(s.subrange(i, e));
    }
}

pub proof fn lemma_scan_from_no_eof(s: Seq<char>, i: int, line: int)
    ensures
        forall|k: int|
            0 <= k < scan_from(s, i, line).tokens.len() ==> #[trigger] scan_from(
                s,
                i,
                line,
            ).tokens[k].0 != TokenView::Plain(Token::Eof),
    decreases s.len() - i,
{
    if 0 <= i < s.len() {
        let st = step(s, i, line);
        if i < st.next <= s.len() {
            lemma_step_not_eof(s, i, line);
            lemma_scan_from_no_eof(s, st.next, st.line);
            let rest = scan_from(s, st.next, st.line);
            assert forall|k: int| 0 <= k < scan_from(s, i, line).tokens.len() implies #[trigger] scan_from(
                s,
                i,
                line,
            ).tokens[k].0 != TokenView::Plain(Token::Eof) by {
                if st.token is Some && k > 0 {
                    assert(scan_from(s, i, line).tokens[k] == rest.tokens[k - 1]);
                } else if st.token is None {
                    assert(scan_from(s, i, line).tokens[k] == rest.tokens[k]);
                }
            }
        }
    }
}

/// Every successful scan ends with the end-of-input token, and with no other
/// end-of-input token before it.
pub proof fn lemma_scan_ends_with_one_eof(s: Seq<char>)
    ensures
        scanned(s) matches Ok(tokens) ==> {
            &&& tokens.len() >= 1
            &&& tokens.last().0 == TokenView::Plain(Token::Eof)
            &&& forall|k: int|
                0 <= k < tokens.len() - 1 ==> #[trigger] tokens[k].0 != TokenView::Plain(Token::Eof)
        },
{
    lemma_scan_from_no_eof(s, 0, 1);
    let out = scan_from(s, 0, 1);
    if out.errors.len() == 0 {
        let tokens = out.tokens.push((TokenView::Plain(Token::Eof), out.line));
        assert forall|k: int| 0 <= k < tokens.len() - 1 implies #[trigger] tokens[k].0
            != TokenView::Plain(Token::Eof) by {
            assert(tokens[k] == out.tokens[k]);
        }
    }
}

} // verus!
