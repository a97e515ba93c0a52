//! The lexer: classifies each character of pattern text as a syntactic
//! symbol or as an ordinary literal character, producing a flat token
//! stream in input order.

use vstd::prelude::*;

verus! {

/// One token of pattern syntax. Every character of the input maps to
/// exactly one token; the special alphabet is fixed and disjoint from the
/// literal class.
#[derive(Clone, Copy, Debug)]
pub enum Token {
    /// Any character outside the special alphabet.
    Literal(char),
    OpenParen,
    CloseParen,
    OpenCurly,
    CloseCurly,
    OpenBracket,
    CloseBracket,
    Pipe,
    Star,
    Plus,
    Question,
    Hyphen,
    Backslash,
    Comma,
    Percent,
    Dot,
    At,
}

impl Token {
    /// The character this token stands for.
    pub open spec fn spec_char(self) -> char {
        match self {
            Token::Literal(c) => c,
            Token::OpenParen => '(',
            Token::CloseParen => ')',
            Token::OpenCurly => '{',
            Token::CloseCurly => '}',
            Token::OpenBracket => '[',
            Token::CloseBracket => ']',
            Token::Pipe => '|',
            Token::Star => '*',
            Token::Plus => '+',
            Token::Question => '?',
            Token::Hyphen => '-',
            Token::Backslash => '\\',
            Token::Comma => ',',
            Token::Percent => '%',
            Token::Dot => '.',
            Token::At => '@',
        }
    }

    /// The character this token stands for.
    pub fn as_char(&self) -> (c: char)
        ensures
            c == self.spec_char(),
    {
        match self {
            Token::Literal(c) => *c,
            Token::OpenParen => '(',
            Token::CloseParen => ')',
            Token::OpenCurly => '{',
            Token::CloseCurly => '}',
            Token::OpenBracket => '[',
            Token::CloseBracket => ']',
            Token::Pipe => '|',
            Token::Star => '*',
            Token::Plus => '+',
            Token::Question => '?',
            Token::Hyphen => '-',
            Token::Backslash => '\\',
            Token::Comma => ',',
            Token::Percent => '%',
            Token::Dot => '.',
            Token::At => '@',
        }
    }
}

impl PartialEq for Token {
    fn eq(&self, other: &Self) -> (r: bool) {
        match (self, other) {
            (Token::Literal(a), Token::Literal(b)) => a == b,
            (Token::OpenParen, Token::OpenParen) => true,
            (Token::CloseParen, Token::CloseParen) => true,
            (Token::OpenCurly, Token::OpenCurly) => true,
            (Token::CloseCurly, Token::CloseCurly) => true,
            (Token::OpenBracket, Token::OpenBracket) => true,
            (Token::CloseBracket, Token::CloseBracket) => true,
            (Token::Pipe, Token::Pipe) => true,
            (Token::Star, Token::Star) => true,
            (Token::Plus, Token::Plus) => true,
            (Token::Question, Token::Question) => true,
            (Token::Hyphen, Token::Hyphen) => true,
            (Token::Backslash, Token::Backslash) => true,
            (Token::Comma, Token::Comma) => true,
            (Token::Percent, Token::Percent) => true,
            (Token::Dot, Token::Dot) => true,
            (Token::At, Token::At) => true,
            _ => false,
        }
    }
}

impl Eq for Token {}

impl vstd::std_specs::cmp::PartialEqSpecImpl for Token {
    open spec fn obeys_eq_spec() -> bool {
        true
    }

    open spec fn eq_spec(&self, other: &Self) -> bool {
        *self == *other
    }
}

/// The classification of one pattern character.
pub open spec fn spec_token_of(c: char) -> Token {
    if c == '(' {
        Token::OpenParen
    } else if c == ')' {
        Token::CloseParen
    } else if c == '{' {
        Token::OpenCurly
    } else if c == '}' {
        Token::CloseCurly
    } else if c == '[' {
        Token::OpenBracket
    } else if c == ']' {
        Token::CloseBracket
    } else if c == '|' {
        Token::Pipe
    } else if c == '*' {
        Token::Star
    } else if c == '+' {
        Token::Plus
    } else if c == '?' {
        Token::Question
    } else if c == '-' {
        Token::Hyphen
    } else if c == '\\' {
        Token::Backslash
    } else if c == ',' {
        Token::Comma
    } else if c == '%' {
        Token::Percent
    } else if c == '.' {
        Token::Dot
    } else if c == '@' {
        Token::At
    } else {
        Token::Literal(c)
    }
}

/// The token stream of a whole pattern: one token per character, in input
/// order.
pub open spec fn spec_tokenize(s: Seq<char>) -> Seq<Token> {
    s.map_values(|c: char| spec_token_of(c))
}

fn token_of(c: char) -> (t: Token)
    ensures
        t == spec_token_of(c),
{
    match c {
        '(' => Token::OpenParen,
        ')' => Token::CloseParen,
        '{' => Token::OpenCurly,
        '}' => Token::CloseCurly,
        '[' => Token::OpenBracket,
        ']' => Token::CloseBracket,
        '|' => Token::Pipe,
        '*' => Token::Star,
        '+' => Token::Plus,
        '?' => Token::Question,
        '-' => Token::Hyphen,
        '\\' => Token::Backslash,
        ',' => Token::Comma,
        '%' => Token::Percent,
        '.' => Token::Dot,
        '@' => Token::At,
        _ => Token::Literal(c),
    }
}

/// Converts pattern text into its token stream. Every character is
/// classified, so tokenization itself cannot fail.
pub fn tokenize(s: &str) -> (tokens: Vec<Token>)
    ensures
        tokens@ == spec_tokenize(s@),
{
    let mut tokens: Vec<Token> = Vec::new();
    let n = s.unicode_len();
    let mut i: usize = 0;
    while i < n
        invariant
            i <= n,
            n == s@.len(),
            tokens@.len() == i,
            forall|j: int| 0 <= j < i ==> tokens@[j] == spec_token_of(s@[j]),
        decreases n - i,
    {
        let c = s.get_char(i);
        tokens.push(token_of(c));
        i += 1;
    }
    proof {
        assert(tokens@ =~= spec_tokenize(s@));
    }
    tokens
}

} // verus!
