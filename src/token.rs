use vstd::prelude::*;

verus! {

/// Where a token was seen in the source.
#[derive(Debug, Clone, Copy, PartialEq, Eq)]
pub struct LocationInfo {
    /// The 1-based line on which the token began.
    pub line: usize,
}

/// A token together with its location.
#[derive(Debug, Clone, PartialEq)]
pub struct TokenWrapper {
    pub location_info: LocationInfo,
    pub token: Token,
}

/// The lexical categories of the language.
///
/// A number keeps its literal text exactly as written: one or more decimal
/// digits, optionally followed by a `.` and one or more digits. Its value is
/// that of the decimal, not rounded to a 64-bit float; two numbers of equal
/// value written differently (`1` and `1.0`) are different tokens.
#[derive(Debug, Clone, PartialEq)]
pub enum Token {
    // Single-character tokens.
    LeftParen,
    RightParen,
    LeftBrace,
    RightBrace,
    Comma,
    Dot,
    Minus,
    Plus,
    Semicolon,
    Slash,
    Star,
    // One or two character tokens.
    Bang,
    BangEqual,
    Equal,
    EqualEqual,
    Greater,
    GreaterEqual,
    Less,
    LessEqual,
    // Literals.
    Identifier(String),
    String(String),
    Number(String),
    // Keywords.
    And,
    Class,
    Else,
    False,
    Fun,
    For,
    If,
    Nil,
    Or,
    Print,
    Return,
    Super,
    This,
    True,
    Var,
    While,
    // End of input.
    Eof,
}

/// The mathematical value of a token: payload strings are seen as sequences
/// of characters, every other token stands for itself.
pub enum TokenView {
    Plain(Token),
    Identifier(Seq<char>),
    Str(Seq<char>),
    Number(Seq<char>),
}

impl Token {
    /// True for the variants that carry a string payload.
    pub open spec fn has_payload(self) -> bool {
        self is Identifier || self is String || self is Number
    }
}

impl View for Token {
    type V = TokenView;

    open spec fn view(&self) -> TokenView {
        match self {
            Token::Identifier(s) => TokenView::Identifier(s@),
            Token::String(s) => TokenView::Str(s@),
            Token::Number(s) => TokenView::Number(s@),
            _ => TokenView::Plain(*self),
        }
    }
}

/// A token and the line on which it began.
pub type LocatedToken = (TokenView, int);

impl View for TokenWrapper {
    type V = LocatedToken;

    open spec fn view(&self) -> LocatedToken {
        (self.token@, self.location_info.line as int)
    }
}

/// The reserved words, in the order in which the table lists them.
pub open spec fn keyword_spelling(k: int) -> Seq<char> {
    if k == 0 {
        "and"@
    } else if k == 1 {
        "class"@
    } else if k == 2 {
        "else"@
    } else if k == 3 {
        "false"@
    } else if k == 4 {
        "for"@
    } else if k == 5 {
        "fun"@
    } else if k == 6 {
        "if"@
    } else if k == 7 {
        "nil"@
    } else if k == 8 {
        "or"@
    } else if k == 9 {
        "print"@
    } else if k == 10 {
        "return"@
    } else if k == 11 {
        "super"@
    } else if k == 12 {
        "this"@
    } else if k == 13 {
        "true"@
    } else if k == 14 {
        "var"@
    } else {
        "while"@
    }
}

/// The token that each reserved word of the table stands for.
pub open spec fn keyword_token(k: int) -> Token {
    if k == 0 {
        Token::And
    } else if k == 1 {
        Token::Class
    } else if k == 2 {
        Token::Else
    } else if k == 3 {
        Token::False
    } else if k == 4 {
        Token::For
    } else if k == 5 {
        Token::Fun
    } else if k == 6 {
        Token::If
    } else if k == 7 {
        Token::Nil
    } else if k == 8 {
        Token::Or
    } else if k == 9 {
        Token::Print
    } else if k == 10 {
        Token::Return
    } else if k == 11 {
        Token::Super
    } else if k == 12 {
        Token::This
    } else if k == 13 {
        Token::True
    } else if k == 14 {
        Token::Var
    } else {
        Token::While
    }
}

pub const KEYWORD_COUNT: usize = 16;

/// The keyword token spelled exactly by `name`, if any.
pub open spec fn keyword_of(name: Seq<char>) -> Option<Token> {
    if exists|k: int| 0 <= k < KEYWORD_COUNT && keyword_spelling(k) == name {
        Some(keyword_token(choose|k: int| 0 <= k < KEYWORD_COUNT && keyword_spelling(k) == name))
    } else {
        None
    }
}

fn spelling(k: usize) -> (r: &'static str)
    requires
        k < KEYWORD_COUNT,
    ensures
        r@ == keyword_spelling(k as int),
{
    if k == 0 {
        "and"
    } else if k == 1 {
        "class"
    } else if k == 2 {
        "else"
    } else if k == 3 {
        "false"
    } else if k == 4 {
        "for"
    } else if k == 5 {
        "fun"
    } else if k == 6 {
        "if"
    } else if k == 7 {
        "nil"
    } else if k == 8 {
        "or"
    } else if k == 9 {
        "print"
    } else if k == 10 {
        "return"
    } else if k == 11 {
        "super"
    } else if k == 12 {
        "this"
    } else if k == 13 {
        "true"
    } else if k == 14 {
        "var"
    } else {
        "while"
    }
}

fn keyword_token_at(k: usize) -> (r: Token)
    requires
        k < KEYWORD_COUNT,
    ensures
        r == keyword_token(k as int),
{
    if k == 0 {
        Token::And
    } else if k == 1 {
        Token::Class
    } else if k == 2 {
        Token::Else
    } else if k == 3 {
        Token::False
    } else if k == 4 {
        Token::For
    } else if k == 5 {
        Token::Fun
    } else if k == 6 {
        Token::If
    } else if k == 7 {
        Token::Nil
    } else if k == 8 {
        Token::Or
    } else if k == 9 {
        Token::Print
    } else if k == 10 {
        Token::Return
    } else if k == 11 {
        Token::Super
    } else if k == 12 {
        Token::This
    } else if k == 13 {
        Token::True
    } else if k == 14 {
        Token::Var
    } else {
        Token::While
    }
}

/// No two reserved words are spelled alike.
pub proof fn lemma_keyword_spellings_distinct(j: int, k: int)
    requires
        0 <= j < KEYWORD_COUNT,
        0 <= k < KEYWORD_COUNT,
        keyword_spelling(j) == keyword_spelling(k),
    ensures
        j == k,
{
    reveal_strlit("and");
    reveal_strlit("class");
    reveal_strlit("else");
    reveal_strlit("false");
    reveal_strlit("for");
    reveal_strlit("fun");
    reveal_strlit("if");
    reveal_strlit("nil");
    reveal_strlit("or");
    reveal_strlit("print");
    reveal_strlit("return");
    reveal_strlit("super");
    reveal_strlit("this");
    reveal_strlit("true");
    reveal_strlit("var");
    reveal_strlit("while");
    if j != k {
        let a = keyword_spelling(j);
        let b = keyword_spelling(k);
        assert(a.len() != b.len() || a[0] != b[0] || a[1] != b[1] || a[2] != b[2]);
    }
}

/// True when the characters `chars[start..end]` spell `word`.
fn spells(chars: &Vec<char>, start: usize, end: usize, word: &str) -> (r: bool)
    requires
        start <= end <= chars@.len(),
    ensures
        r == (chars@.subrange(start as int, end as int) == word@),
{
    let n = word.unicode_len();
    if end - start != n {
        return false;
    }
    let mut i: usize = 0;
    while i < n
        invariant
            i <= n,
            n == word@.len(),
            end - start == n,
            start <= end <= chars@.len(),
            forall|j: int| 0 <= j < i ==> chars@[start + j] == word@[j],
        decreases n - i,
    {
        if chars[start + i] != word.get_char(i) {
            assert(chars@.subrange(start as int, end as int)[i as int] != word@[i as int]);
            return false;
        }
        i = i + 1;
    }
    assert(chars@.subrange(start as int, end as int) =~= word@);
    true
}

/// Looks `chars[start..end]` up in the table of reserved words.
pub fn keyword(chars: &Vec<char>, start: usize, end: usize) -> (r: Option<Token>)
    requires
        start <= end <= chars@.len(),
    ensures
        r == keyword_of(chars@.subrange(start as int, end as int)),
{
    let ghost name = chars@.subrange(start as int, end as int);
    let mut k: usize = 0;
    while k < KEYWORD_COUNT
        invariant
            k <= KEYWORD_COUNT,
            start <= end <= chars@.len(),
            name == chars@.subrange(start as int, end as int),
            forall|j: int| 0 <= j < k ==> keyword_spelling(j) != name,
        decreases KEYWORD_COUNT - k,
    {
        if spells(chars, start, end, spelling(k)) {
            proof {
                let c = choose|j: int| 0 <= j < KEYWORD_COUNT && keyword_spelling(j) == name;
                lemma_keyword_spellings_distinct(c, k as int);
            }
            return Some(keyword_token_at(k));
        }
        k = k + 1;
    }
    None
}

/// An owned copy of a token.
pub fn copy_token(t: &Token) -> (r: Token)
    ensures
        r@ == t@,
{
    match t {
        Token::Identifier(s) => Token::Identifier(s.clone()),
        Token::String(s) => Token::String(s.clone()),
        Token::Number(s) => Token::Number(s.clone()),
        Token::LeftParen => Token::LeftParen,
        Token::RightParen => Token::RightParen,
        Token::LeftBrace => Token::LeftBrace,
        Token::RightBrace => Token::RightBrace,
        Token::Comma => Token::Comma,
        Token::Dot => Token::Dot,
        Token::Minus => Token::Minus,
        Token::Plus => Token::Plus,
        Token::Semicolon => Token::Semicolon,
        Token::Slash => Token::Slash,
        Token::Star => Token::Star,
        Token::Bang => Token::Bang,
        Token::BangEqual => Token::BangEqual,
        Token::Equal => Token::Equal,
        Token::EqualEqual => Token::EqualEqual,
        Token::Greater => Token::Greater,
        Token::GreaterEqual => Token::GreaterEqual,
        Token::Less => Token::Less,
        Token::LessEqual => Token::LessEqual,
        Token::And => Token::And,
        Token::Class => Token::Class,
        Token::Else => Token::Else,
        Token::False => Token::False,
        Token::Fun => Token::Fun,
        Token::For => Token::For,
        Token::If => Token::If,
        Token::Nil => Token::Nil,
        Token::Or => Token::Or,
        Token::Print => Token::Print,
        Token::Return => Token::Return,
        Token::Super => Token::Super,
        Token::This => Token::This,
        Token::True => Token::True,
        Token::Var => Token::Var,
        Token::While => Token::While,
        Token::Eof => Token::Eof,
    }
}

} // verus!
