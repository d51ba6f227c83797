use vstd::prelude::*;

use crate::lexical::{
    alnum_end, alphabetic, append_opt, char_at, comment_end, digits_end, is_alphabetic,
    is_alphanumeric, is_ascii_digit, is_digit, lemma_append_opt, lemma_keyword_plain,
    lemma_step_progress, line_end, newlines, outcome, pair_at, quote_end, scan_from, scanned, step,
    word_token,
};
use crate::token::{copy_token, keyword, LocatedToken, LocationInfo, Token, TokenView, TokenWrapper};
use crate::utils::{char_range_to_string, chars_of, decimal, decimal_text, push_char};

verus! {

// ---------------------------------------------------------------------------
// Errors
// ---------------------------------------------------------------------------

/// Where a lexical error was found and the source text it concerns.
#[derive(Debug, Clone)]
pub struct Cause {
    line: usize,
    source: String,
}

impl Cause {
    pub fn new(line: usize, source: String) -> (r: Cause)
        ensures
            r.line() == line,
            r.source() == source@,
    {
        Cause { line, source }
    }

    pub closed spec fn line(&self) -> usize {
        self.line
    }

    pub closed spec fn source(&self) -> Seq<char> {
        self.source@
    }
}

impl Default for Cause {
    fn default() -> (r: Cause)
        ensures
            r.line() == 0,
            r.source() == Seq::<char>::empty(),
    {
        Cause { line: 0, source: String::new() }
    }
}

/// A lexical error.
#[derive(Debug, Clone)]
pub enum ScannerError {
    UnclosedBlockComment(Cause),
    UnexpectedCharacter(Cause),
    UnterminatedString(Cause),
}

pub const UNCLOSED_BLOCK_COMMENT: usize = 0;
pub const UNEXPECTED_CHARACTER: usize = 1;
pub const UNTERMINATED_STRING: usize = 2;

/// The mathematical value of a lexical error: its kind (one of the three
/// constants above), its line and its source text.
pub struct ErrorView {
    pub kind: int,
    pub line: int,
    pub source: Seq<char>,
}

impl View for ScannerError {
    type V = ErrorView;

    open spec fn view(&self) -> ErrorView {
        match self {
            ScannerError::UnclosedBlockComment(c) => ErrorView {
                kind: UNCLOSED_BLOCK_COMMENT as int,
                line: c.line() as int,
                source: c.source(),
            },
            ScannerError::UnexpectedCharacter(c) => ErrorView {
                kind: UNEXPECTED_CHARACTER as int,
                line: c.line() as int,
                source: c.source(),
            },
            ScannerError::UnterminatedString(c) => ErrorView {
                kind: UNTERMINATED_STRING as int,
                line: c.line() as int,
                source: c.source(),
            },
        }
    }
}

/// The heading of an error message, by kind.
pub open spec fn error_heading(kind: int) -> Seq<char> {
    if kind == UNCLOSED_BLOCK_COMMENT {
        "Block comment not closed"@
    } else if kind == UNEXPECTED_CHARACTER {
        "Unexpected character"@
    } else {
        "String not terminated"@
    }
}

/// The message for an error: its heading, then its line and source text.
pub open spec fn error_text(e: ErrorView) -> Seq<char> {
    error_heading(e.kind) + "\nLine: "@ + decimal_text(e.line as nat) + seq!['\t'] + e.source
}

impl Cause {
    /// The line on which the error was found.
    pub fn get_line(&self) -> (r: usize)
        ensures
            r == self.line(),
    {
        self.line
    }

    /// The source text the error concerns.
    pub fn get_source(&self) -> (r: &String)
        ensures
            r@ == self.source(),
    {
        &self.source
    }
}

impl ScannerError {
    fn cause(&self) -> (r: &Cause)
        ensures
            r.line() == self@.line,
            r.source() == self@.source,
    {
        match self {
            ScannerError::UnclosedBlockComment(c) => c,
            ScannerError::UnexpectedCharacter(c) => c,
            ScannerError::UnterminatedString(c) => c,
        }
    }

    /// The message for the error: what went wrong, the line and the source
    /// text concerned.
    pub fn to_string(&self) -> (r: String)
        ensures
            r@ == error_text(self@),
    {
        let mut out = match self {
            ScannerError::UnclosedBlockComment(_) => String::from_str("Block comment not closed"),
            ScannerError::UnexpectedCharacter(_) => String::from_str("Unexpected character"),
            ScannerError::UnterminatedString(_) => String::from_str("String not terminated"),
        };
        let cause = self.cause();
        out.append("\nLine: ");
        out.append(decimal(cause.line).as_str());
        push_char(&mut out, '\t');
        out.append(cause.source.as_str());
        out
    }

    /// A number that tells the three kinds of error apart.
    pub fn discriminant(&self) -> (r: usize)
        ensures
            r == self@.kind,
    {
        match self {
            ScannerError::UnclosedBlockComment(_) => UNCLOSED_BLOCK_COMMENT,
            ScannerError::UnexpectedCharacter(_) => UNEXPECTED_CHARACTER,
            ScannerError::UnterminatedString(_) => UNTERMINATED_STRING,
        }
    }
}

pub open spec fn tokens_view(v: Seq<TokenWrapper>) -> Seq<LocatedToken> {
    v.map_values(|w: TokenWrapper| w@)
}

pub open spec fn errors_view(v: Seq<ScannerError>) -> Seq<ErrorView> {
    v.map_values(|e: ScannerError| e@)
}

pub open spec fn scan_result_view(r: Result<Vec<TokenWrapper>, Vec<ScannerError>>) -> Result<
    Seq<LocatedToken>,
    Seq<ErrorView>,
> {
    match r {
        Ok(v) => Ok(tokens_view(v@)),
        Err(e) => Err(errors_view(e@)),
    }
}


pub proof fn lemma_tokens_view_push(v: Seq<TokenWrapper>, w: TokenWrapper)
    ensures
        tokens_view(v.push(w)) == tokens_view(v).push(w@),
{
    assert(tokens_view(v.push(w)) =~= tokens_view(v).push(w@));
}

pub proof fn lemma_errors_view_push(v: Seq<ScannerError>, e: ScannerError)
    ensures
        errors_view(v.push(e)) == errors_view(v).push(e@),
{
    assert(errors_view(v.push(e)) =~= errors_view(v).push(e@));
}

/// Turns source text into tokens, one lexeme at a time.
pub struct Scanner {
    characters: Vec<char>,
    /// Where the lexeme being recognized begins, and on which line.
    start: usize,
    start_line: usize,
    current: usize,
    current_line: usize,
    tokens_wrappers: Vec<TokenWrapper>,
    errors: Vec<ScannerError>,
    /// Whether the whole text has been scanned and closed by the
    /// end-of-input token.
    finished: bool,
}

impl Scanner {
    /// The source text.
    pub closed spec fn chars(&self) -> Seq<char> {
        self.characters@
    }

    /// How much of the source text has been scanned.
    pub closed spec fn position(&self) -> int {
        self.current as int
    }

    /// The line at the scan position.
    pub closed spec fn line(&self) -> int {
        self.current_line as int
    }

    /// The tokens recognized so far.
    pub closed spec fn tokens(&self) -> Seq<LocatedToken> {
        tokens_view(self.tokens_wrappers@)
    }

    /// Whether the whole text has been scanned.
    pub closed spec fn finished(&self) -> bool {
        self.finished
    }

    /// Every token of the text: those recognized so far, and, unless the
    /// scan is finished, those of the rest of the text and the end-of-input
    /// token on the last line.
    pub open spec fn all_tokens(&self) -> Seq<LocatedToken> {
        if self.finished() {
            self.tokens()
        } else {
            let out = scan_from(self.chars(), self.position(), self.line());
            (self.tokens() + out.tokens).push((TokenView::Plain(Token::Eof), out.line))
        }
    }

    /// Every error of the text: those found so far, and, unless the scan is
    /// finished, those of the rest of the text.
    pub open spec fn all_errors(&self) -> Seq<ErrorView> {
        if self.finished() {
            self.errors()
        } else {
            self.errors() + scan_from(self.chars(), self.position(), self.line()).errors
        }
    }

    /// The errors found so far.
    pub closed spec fn errors(&self) -> Seq<ErrorView> {
        errors_view(self.errors@)
    }

    /// The scan position stays within the source text, and the line count
    /// within what the scanned characters allow.
    pub closed spec fn wf(&self) -> bool {
        &&& self.current <= self.characters@.len() < usize::MAX
        &&& 1 <= self.current_line <= self.current + 1
    }

    /// Only the scan position has moved.
    spec fn same_but_cursor(&self, other: &Scanner) -> bool {
        &&& self.characters@ == other.characters@
        &&& self.start == other.start
        &&& self.start_line == other.start_line
        &&& self.current_line == other.current_line
        &&& self.tokens_wrappers@ == other.tokens_wrappers@
        &&& self.errors@ == other.errors@
    }

    /// `new` has recognized the lexeme that `old` began at its `start`.
    spec fn did_step(old: &Scanner, new: &Scanner) -> bool {
        let st = step(old.characters@, old.start as int, old.start_line as int);
        &&& new.characters@ == old.characters@
        &&& new.current == st.next
        &&& new.current_line == st.line
        &&& new.tokens() == append_opt(old.tokens(), st.token)
        &&& new.errors() == append_opt(old.errors(), st.error)
        &&& new.wf()
    }

    /// A scanner at the beginning of `source`.
    pub fn new(source: String) -> (r: Scanner)
        requires
            source@.len() < usize::MAX,
        ensures
            r.wf(),
            r.chars() == source@,
            r.position() == 0,
            r.line() == 1,
            r.tokens() == Seq::<LocatedToken>::empty(),
            r.errors() == Seq::<ErrorView>::empty(),
            !r.finished(),
    {
        let r = Scanner {
            characters: chars_of(source.as_str()),
            start: 0,
            start_line: 1,
            current: 0,
            current_line: 1,
            tokens_wrappers: Vec::new(),
            errors: Vec::new(),
            finished: false,
        };
        assert(r.tokens() =~= Seq::<LocatedToken>::empty());
        assert(r.errors() =~= Seq::<ErrorView>::empty());
        r
    }

    /// Whether the whole source text has been scanned.
    fn is_empty(&self) -> (r: bool)
        ensures
            r == (self.current >= self.characters@.len()),
    {
        self.current >= self.characters.len()
    }

    /// Records a token that began on the line where the current lexeme began.
    fn add_token(&mut self, token: Token)
        ensures
            final(self).tokens() == old(self).tokens().push((token@, old(self).start_line as int)),
            final(self).tokens_wrappers@.len() == old(self).tokens_wrappers@.len() + 1,
            final(self).characters@ == old(self).characters@,
            final(self).start == old(self).start,
            final(self).start_line == old(self).start_line,
            final(self).current == old(self).current,
            final(self).current_line == old(self).current_line,
            final(self).errors@ == old(self).errors@,
    {
        let w = TokenWrapper { token, location_info: LocationInfo { line: self.start_line } };
        proof {
            lemma_tokens_view_push(self.tokens_wrappers@, w);
        }
        self.tokens_wrappers.push(w);
    }

    /// Records a lexical error.
    fn add_error(&mut self, error: ScannerError)
        ensures
            final(self).errors() == old(self).errors().push(error@),
            final(self).characters@ == old(self).characters@,
            final(self).start == old(self).start,
            final(self).start_line == old(self).start_line,
            final(self).current == old(self).current,
            final(self).current_line == old(self).current_line,
            final(self).tokens_wrappers@ == old(self).tokens_wrappers@,
    {
        proof {
            lemma_errors_view_push(self.errors@, error);
        }
        self.errors.push(error);
    }

    /// Consumes one character, or returns `'\0'` at the end of the input.
    fn advance(&mut self) -> (c: char)
        ensures
            final(self).same_but_cursor(old(self)),
            c == char_at(old(self).characters@, old(self).current as int),
            final(self).current == if old(self).current < old(self).characters@.len() {
                old(self).current + 1
            } else {
                old(self).current as int
            },
    {
        if self.current >= self.characters.len() {
            return '\0';
        }
        self.current = self.current + 1;
        self.characters[self.current - 1]
    }

    /// Consumes the next character only when it is `expected`.
    fn next(&mut self, expected: char) -> (r: bool)
        ensures
            final(self).same_but_cursor(old(self)),
            r == (old(self).current < old(self).characters@.len()
                && old(self).characters@[old(self).current as int] == expected),
            final(self).current == old(self).current + if r {
                1int
            } else {
                0int
            },
    {
        if self.current >= self.characters.len() {
            return false;
        }
        if self.characters[self.current] != expected {
            return false;
        }
        self.current = self.current + 1;
        true
    }

    /// The next character, without consuming it; `'\0'` at the end.
    fn peek(&self) -> (c: char)
        ensures
            c == char_at(self.characters@, self.current as int),
    {
        if self.is_empty() {
            return '\0';
        }
        self.characters[self.current]
    }

    /// The character after the next one, without consuming anything; `'\0'`
    /// past the end.
    fn peek_next(&self) -> (c: char)
        ensures
            c == char_at(self.characters@, self.current + 1),
    {
        if self.current >= self.characters.len() || self.characters.len() - self.current <= 1 {
            return '\0';
        }
        self.characters[self.current + 1]
    }

    /// Recognizes a string literal whose opening quote has been consumed.
    fn consume_string(&mut self)
        requires
            old(self).wf(),
            old(self).start < old(self).characters@.len(),
            old(self).current == old(self).start + 1,
            old(self).current_line == old(self).start_line,
            old(self).characters@[old(self).start as int] == '"',
        ensures
            Scanner::did_step(old(self), final(self)),
            final(self).start == old(self).start,
            final(self).start_line == old(self).start_line,
    {
        let ghost s = old(self).characters@;
        let ghost i = old(self).start as int;
        while !self.is_empty() && self.peek() != '"'
            invariant
                self.characters@ == s,
                s.len() < usize::MAX,
                self.start == i,
                self.start_line == old(self).start_line,
                self.tokens_wrappers@ == old(self).tokens_wrappers@,
                self.errors@ == old(self).errors@,
                i + 1 <= self.current <= s.len(),
                quote_end(s, self.current as int) == quote_end(s, i + 1),
                self.current_line == self.start_line + newlines(s, i + 1, self.current as int),
                1 <= self.current_line <= self.current + 1,
            decreases s.len() - self.current,
        {
            if self.peek() == '\n' {
                self.current_line = self.current_line + 1;
            }
            self.advance();
        }
        if self.is_empty() {
            let source = char_range_to_string(&self.characters, self.start, self.current);
            self.add_error(ScannerError::UnterminatedString(Cause::new(self.current_line, source)));
            return ;
        }
        self.advance();
        let value = char_range_to_string(&self.characters, self.start + 1, self.current - 1);
        self.add_token(Token::String(value));
    }

    /// Recognizes a number literal whose first digit has been consumed.
    fn consume_number(&mut self)
        requires
            old(self).wf(),
            old(self).start < old(self).characters@.len(),
            old(self).current == old(self).start + 1,
            old(self).current_line == old(self).start_line,
            is_digit(old(self).characters@[old(self).start as int]),
        ensures
            Scanner::did_step(old(self), final(self)),
            final(self).start == old(self).start,
            final(self).start_line == old(self).start_line,
    {
        let ghost s = old(self).characters@;
        let ghost i = old(self).start as int;
        while is_ascii_digit(self.peek())
            invariant
                self.same_but_cursor(old(self)),
                self.characters@ == s,
                s == old(self).characters@,
                i == old(self).start,
                s.len() < usize::MAX,
                1 <= old(self).current_line <= old(self).current + 1,
                self.start == i,
                i + 1 <= self.current <= s.len(),
                digits_end(s, self.current as int) == digits_end(s, i),
            decreases s.len() - self.current,
        {
            self.advance();
        }
        if self.peek() == '.' && is_ascii_digit(self.peek_next()) {
            self.advance();
            let ghost e = self.current as int;
            while is_ascii_digit(self.peek())
                invariant
                    self.same_but_cursor(old(self)),
                    self.characters@ == s,
                    self.start == i,
                    e <= self.current <= s.len(),
                    digits_end(s, self.current as int) == digits_end(s, e),
                decreases s.len() - self.current,
            {
                self.advance();
            }
        }
        let value = char_range_to_string(&self.characters, self.start, self.current);
        self.add_token(Token::Number(value));
    }

    /// Recognizes an identifier or keyword whose first letter has been consumed.
    fn consume_identifier(&mut self)
        requires
            old(self).wf(),
            old(self).start < old(self).characters@.len(),
            old(self).current == old(self).start + 1,
            old(self).current_line == old(self).start_line,
            alphabetic(old(self).characters@[old(self).start as int]),
        ensures
            Scanner::did_step(old(self), final(self)),
            final(self).start == old(self).start,
            final(self).start_line == old(self).start_line,
    {
        let ghost s = old(self).characters@;
        let ghost i = old(self).start as int;
        while !self.is_empty() && is_alphanumeric(self.peek())
            invariant
                self.same_but_cursor(old(self)),
                self.characters@ == s,
                s == old(self).characters@,
                i == old(self).start,
                s.len() < usize::MAX,
                1 <= old(self).current_line <= old(self).current + 1,
                self.start == i,
                i + 1 <= self.current <= s.len(),
                alnum_end(s, self.current as int) == alnum_end(s, i + 1),
            decreases s.len() - self.current,
        {
            self.advance();
        }
        let ghost name = s.subrange(i, self.current as int);
        let ghost st = step(s, i, self.start_line as int);
        assert(alnum_end(s, i + 1) == self.current);
        assert(st.next == self.current);
        assert(st.token == Some((word_token(name), self.start_line as int)));
        match keyword(&self.characters, self.start, self.current) {
            Some(token) => {
                proof {
                    lemma_keyword_plain(name);
                }
                assert(token@ == word_token(name));
                self.add_token(token);
            },
            None => {
                let value = char_range_to_string(&self.characters, self.start, self.current);
                self.add_token(Token::Identifier(value));
            },
        }
    }

    /// Recognizes a block comment whose opening `/*` has been consumed,
    /// counting how many comments are open.
    fn consume_block_comment(&mut self)
        requires
            old(self).wf(),
            old(self).current == old(self).start + 2,
            old(self).current <= old(self).characters@.len(),
            old(self).current_line == old(self).start_line,
            pair_at(old(self).characters@, old(self).start as int, '/', '*'),
        ensures
            Scanner::did_step(old(self), final(self)),
            final(self).start == old(self).start,
            final(self).start_line == old(self).start_line,
    {
        let ghost s = old(self).characters@;
        let ghost i = old(self).start as int;
        let mut depth: usize = 1;
        assert(newlines(s, i, i) == 0);
        assert(newlines(s, i, i + 1) == 0);
        assert(newlines(s, i, i + 2) == 0);
        loop
            invariant
                self.characters@ == s,
                s == old(self).characters@,
                i == old(self).start,
                s.len() < usize::MAX,
                self.start == i,
                self.start_line == old(self).start_line,
                self.tokens_wrappers@ == old(self).tokens_wrappers@,
                self.errors@ == old(self).errors@,
                i + 2 <= self.current <= s.len(),
                pair_at(s, i, '/', '*'),
                1 <= depth <= self.current,
                comment_end(s, self.current as int, depth as int) == comment_end(s, i + 2, 1),
                self.current_line == self.start_line + newlines(s, i, self.current as int),
                1 <= self.current_line <= self.current + 1,
            decreases s.len() - self.current,
        {
            if self.is_empty() {
                let source = char_range_to_string(&self.characters, self.start, self.current);
                self.add_error(
                    ScannerError::UnclosedBlockComment(Cause::new(self.current_line, source)),
                );
                proof {
                    let st = step(s, i, old(self).start_line as int);
                    assert(comment_end(s, i + 2, 1) is None);
                }
                return ;
            }
            let ghost j = self.current as int;
            let c = self.advance();
            if c == '\n' {
                self.current_line = self.current_line + 1;
            } else if c == '*' && self.peek() == '/' {
                self.advance();
                assert(newlines(s, i, j + 2) == newlines(s, i, j + 1));
                if depth == 1 {
                    return ;
                }
                depth = depth - 1;
            } else if c == '/' && self.peek() == '*' {
                self.advance();
                assert(newlines(s, i, j + 2) == newlines(s, i, j + 1));
                depth = depth + 1;
            }
        }
    }

    /// The tokens recognized so far. After a scan that found errors, these
    /// are the tokens it recognized around them.
    pub fn scanned_tokens(&self) -> (r: &Vec<TokenWrapper>)
        ensures
            tokens_view(r@) == self.tokens(),
    {
        &self.tokens_wrappers
    }

    /// Recognizes the lexeme that begins at the scan position.
    fn scan_token(&mut self)
        requires
            old(self).wf(),
            old(self).start == old(self).current,
            old(self).current < old(self).characters@.len(),
            old(self).start_line == old(self).current_line,
        ensures
            Scanner::did_step(old(self), final(self)),
            final(self).start == old(self).start,
            final(self).start_line == old(self).start_line,
    {
        let ghost s = old(self).characters@;
        let ghost i = old(self).start as int;
        let c = self.advance();
        if c == '(' {
            self.add_token(Token::LeftParen);
        } else if c == ')' {
            self.add_token(Token::RightParen);
        } else if c == '{' {
            self.add_token(Token::LeftBrace);
        } else if c == '}' {
            self.add_token(Token::RightBrace);
        } else if c == ',' {
            self.add_token(Token::Comma);
        } else if c == '.' {
            self.add_token(Token::Dot);
        } else if c == '-' {
            self.add_token(Token::Minus);
        } else if c == '+' {
            self.add_token(Token::Plus);
        } else if c == ';' {
            self.add_token(Token::Semicolon);
        } else if c == '*' {
            self.add_token(Token::Star);
        } else if c == '!' {
            if self.next('=') {
                self.add_token(Token::BangEqual);
            } else {
                self.add_token(Token::Bang);
            }
        } else if c == '=' {
            if self.next('=') {
                self.add_token(Token::EqualEqual);
            } else {
                self.add_token(Token::Equal);
            }
        } else if c == '<' {
            if self.next('=') {
                self.add_token(Token::LessEqual);
            } else {
                self.add_token(Token::Less);
            }
        } else if c == '>' {
            if self.next('=') {
                self.add_token(Token::GreaterEqual);
            } else {
                self.add_token(Token::Greater);
            }
        } else if c == '/' {
            if self.next('/') {
                // A line comment runs to the end of the line.
                while !self.is_empty() && self.peek() != '\n'
                    invariant
                        self.same_but_cursor(old(self)),
                        s == old(self).characters@,
                        s.len() < usize::MAX,
                        i == old(self).start,
                        1 <= old(self).current_line <= old(self).current + 1,
                        i + 2 <= self.current <= s.len(),
                        line_end(s, self.current as int) == line_end(s, i + 2),
                    decreases s.len() - self.current,
                {
                    self.advance();
                }
            } else if self.next('*') {
                self.consume_block_comment();
            } else {
                self.add_token(Token::Slash);
            }
        } else if c == '\n' {
            self.current_line = self.current_line + 1;
        } else if c == ' ' || c == '\r' || c == '\t' {
        } else if c == '"' {
            self.consume_string();
        } else if is_ascii_digit(c) {
            self.consume_number();
        } else if is_alphabetic(c) {
            self.consume_identifier();
        } else {
            let mut source = String::new();
            push_char(&mut source, c);
            assert(source@ =~= seq![c]);
            self.add_error(ScannerError::UnexpectedCharacter(Cause::new(self.current_line, source)));
        }
    }

    /// Scans the rest of the source text, unless that is done. Returns every
    /// error of the text, if there is any; otherwise every token, ending with
    /// exactly one end-of-input token. The scanner keeps both, so a second
    /// call returns the same.
    pub fn scan_tokens(&mut self) -> (r: Result<Vec<TokenWrapper>, Vec<ScannerError>>)
        requires
            old(self).wf(),
        ensures
            final(self).wf(),
            final(self).chars() == old(self).chars(),
            final(self).finished(),
            !old(self).finished() ==> final(self).position() == old(self).chars().len(),
            final(self).tokens() == old(self).all_tokens(),
            final(self).errors() == old(self).all_errors(),
            scan_result_view(r) == outcome(old(self).all_tokens(), old(self).all_errors()),
    {
        if !self.finished {
            self.scan_rest();
        }
        if self.errors.len() > 0 {
            Err(copy_errors(&self.errors))
        } else {
            Ok(copy_tokens(&self.tokens_wrappers))
        }
    }

    /// Scans the rest of the source text and closes it with the end-of-input
    /// token.
    fn scan_rest(&mut self)
        requires
            old(self).wf(),
            !old(self).finished(),
        ensures
            final(self).wf(),
            final(self).chars() == old(self).chars(),
            final(self).finished(),
            final(self).position() == old(self).chars().len(),
            final(self).tokens() == old(self).all_tokens(),
            final(self).errors() == old(self).all_errors(),
    {
        let ghost s = self.characters@;
        let ghost out = scan_from(s, self.current as int, self.current_line as int);
        while !self.is_empty()
            invariant
                self.wf(),
                self.characters@ == s,
                s == old(self).characters@,
                out == scan_from(s, old(self).current as int, old(self).current_line as int),
                self.tokens() + scan_from(s, self.current as int, self.current_line as int).tokens
                    == old(self).tokens() + out.tokens,
                self.errors() + scan_from(s, self.current as int, self.current_line as int).errors
                    == old(self).errors() + out.errors,
                scan_from(s, self.current as int, self.current_line as int).line == out.line,
            decreases s.len() - self.current,
        {
            self.start = self.current;
            self.start_line = self.current_line;
            let ghost before = *self;
            self.scan_token();
            proof {
                let st = step(s, before.current as int, before.current_line as int);
                let rest = scan_from(s, st.next, st.line);
                lemma_step_progress(s, before.current as int, before.current_line as int);
                lemma_append_opt(before.tokens(), st.token, rest.tokens);
                lemma_append_opt(before.errors(), st.error, rest.errors);
            }
        }
        assert(self.tokens() =~= old(self).tokens() + out.tokens);
        assert(self.errors() =~= old(self).errors() + out.errors);
        self.start_line = self.current_line;
        self.add_token(Token::Eof);
        self.finished = true;
    }
}

/// An owned copy of a located token.
pub fn copy_wrapper(w: &TokenWrapper) -> (r: TokenWrapper)
    ensures
        r@ == w@,
{
    TokenWrapper { location_info: w.location_info, token: copy_token(&w.token) }
}

/// An owned copy of a lexical error.
pub fn copy_error(e: &ScannerError) -> (r: ScannerError)
    ensures
        r@ == e@,
{
    match e {
        ScannerError::UnclosedBlockComment(c) => ScannerError::UnclosedBlockComment(
            Cause::new(c.line, c.source.clone()),
        ),
        ScannerError::UnexpectedCharacter(c) => ScannerError::UnexpectedCharacter(
            Cause::new(c.line, c.source.clone()),
        ),
        ScannerError::UnterminatedString(c) => ScannerError::UnterminatedString(
            Cause::new(c.line, c.source.clone()),
        ),
    }
}

/// An owned copy of a sequence of located tokens.
pub fn copy_tokens(v: &Vec<TokenWrapper>) -> (r: Vec<TokenWrapper>)
    ensures
        tokens_view(r@) == tokens_view(v@),
{
    let mut out: Vec<TokenWrapper> = Vec::new();
    let mut i: usize = 0;
    while i < v.len()
        invariant
            i <= v@.len(),
            tokens_view(out@) == tokens_view(v@.subrange(0, i as int)),
        decreases v@.len() - i,
    {
        let w = copy_wrapper(&v[i]);
        proof {
            lemma_tokens_view_push(out@, w);
            assert(v@.subrange(0, i + 1) =~= v@.subrange(0, i as int).push(v@[i as int]));
            lemma_tokens_view_push(v@.subrange(0, i as int), v@[i as int]);
        }
        out.push(w);
        i = i + 1;
    }
    assert(v@.subrange(0, v@.len() as int) =~= v@);
    out
}

/// An owned copy of a sequence of lexical errors.
pub fn copy_errors(v: &Vec<ScannerError>) -> (r: Vec<ScannerError>)
    ensures
        errors_view(r@) == errors_view(v@),
{
    let mut out: Vec<ScannerError> = Vec::new();
    let mut i: usize = 0;
    while i < v.len()
        invariant
            i <= v@.len(),
            errors_view(out@) == errors_view(v@.subrange(0, i as int)),
        decreases v@.len() - i,
    {
        let e = copy_error(&v[i]);
        proof {
            lemma_errors_view_push(out@, e);
            assert(v@.subrange(0, i + 1) =~= v@.subrange(0, i as int).push(v@[i as int]));
            lemma_errors_view_push(v@.subrange(0, i as int), v@[i as int]);
        }
        out.push(e);
        i = i + 1;
    }
    assert(v@.subrange(0, v@.len() as int) =~= v@);
    out
}

/// Scans a whole source text: every lexical error found, if there is any;
/// otherwise every token, ending with the end-of-input token.
pub fn scan(source: String) -> (r: Result<Vec<TokenWrapper>, Vec<ScannerError>>)
    requires
        source@.len() < usize::MAX,
    ensures
        scan_result_view(r) == scanned(source@),
{
    let ghost s = source@;
    let mut scanner = Scanner::new(source);
    let r = scanner.scan_tokens();
    proof {
        let out = scan_from(s, 0, 1);
        assert(Seq::<LocatedToken>::empty() + out.tokens =~= out.tokens);
        assert(Seq::<ErrorView>::empty() + out.errors =~= out.errors);
    }
    r
}

} // verus!
