//! The grammar: a recursive-descent parser over the token stream, with one
//! parse function per precedence level (atom, repetition, concatenation,
//! alternation), producing an intermediate syntax tree that mirrors concrete
//! syntax and is lowered to the canonical algebra and simplified exactly
//! once.

use vstd::prelude::*;

use crate::derivatives::{simp, CharRange, Count, Regex, SpecRegex};
use crate::lexer::{spec_tokenize, tokenize, Token};

verus! {

/// Why a pattern failed to compile.
#[derive(Clone, Copy, Debug)]
pub enum ParseError {
    /// A character sequence that cannot be classified. The special alphabet
    /// is closed and every other character is a literal, so no current input
    /// produces this; it is kept for forward compatibility.
    TokenizeError,
    /// The pattern text is empty.
    EmptyInput,
    /// The token stream does not match the grammar: the position of the
    /// offending token, and the token found there (`None` at end of input).
    Syntax { position: usize, found: Option<Token> },
    /// A `{...}` quantifier whose bounds violate `min <= max` or do not fit
    /// the machine integer size, at the position of its opening brace.
    MalformedCount { position: usize },
}

impl PartialEq for ParseError {
    fn eq(&self, other: &Self) -> (r: bool) {
        match (self, other) {
            (ParseError::TokenizeError, ParseError::TokenizeError) => true,
            (ParseError::EmptyInput, ParseError::EmptyInput) => true,
            (
                ParseError::Syntax { position: p1, found: f1 },
                ParseError::Syntax { position: p2, found: f2 },
            ) => p1 == p2 && match (f1, f2) {
                (None, None) => true,
                (Some(a), Some(b)) => a == b,
                _ => false,
            },
            (
                ParseError::MalformedCount { position: p1 },
                ParseError::MalformedCount { position: p2 },
            ) => p1 == p2,
            _ => false,
        }
    }
}

impl Eq for ParseError {}

impl vstd::std_specs::cmp::PartialEqSpecImpl for ParseError {
    open spec fn obeys_eq_spec() -> bool {
        true
    }

    open spec fn eq_spec(&self, other: &Self) -> bool {
        *self == *other
    }
}

/// The characters that must be escaped outside a character class.
pub open spec fn must_escape_outside_class(c: char) -> bool {
    c == '[' || c == ']' || c == '-' || c == '(' || c == ')' || c == '{' || c == '}' || c == '?'
        || c == '*' || c == '+' || c == '|' || c == '\\' || c == '.'
}

/// The characters that must be escaped inside a character class.
pub open spec fn must_escape_in_class(c: char) -> bool {
    c == '[' || c == ']' || c == '-' || c == '\\'
}

/// The expansion of the shorthand class `\d`.
pub open spec fn digit_class() -> SpecRegex {
    SpecRegex::Class(seq![CharRange::Range('0', '9')])
}

/// The expansion of the shorthand class `\w`.
pub open spec fn word_class() -> SpecRegex {
    SpecRegex::Class(
        seq![
            CharRange::Range('a', 'z'),
            CharRange::Range('A', 'Z'),
            CharRange::Range('0', '9'),
            CharRange::Single('_'),
        ],
    )
}

/// The grammar error at position `i`: the token found there, or end of
/// input.
pub open spec fn syntax_err(t: Seq<Token>, i: int) -> ParseError {
    ParseError::Syntax {
        position: i as usize,
        found: if 0 <= i < t.len() {
            Some(t[i])
        } else {
            None
        },
    }
}

/// Whether the token at `i` can begin an atom: a backslash escape, a group,
/// a class, or a character that needs no escaping.
pub open spec fn atom_start(t: Seq<Token>, i: int) -> bool {
    0 <= i < t.len() && match t[i] {
        Token::Backslash => true,
        Token::OpenParen => true,
        Token::OpenBracket => true,
        tok => !must_escape_outside_class(tok.spec_char()),
    }
}

/// One class character at `i`: either a token whose character needs no
/// escaping inside a class, or a backslash followed by one that does.
/// Returns the character and the position after it.
pub open spec fn spec_class_char(t: Seq<Token>, i: int) -> Option<(char, int)> {
    if !(0 <= i < t.len()) {
        None
    } else {
        match t[i] {
            Token::Backslash => {
                if i + 1 < t.len() && must_escape_in_class(t[i + 1].spec_char()) {
                    Some((t[i + 1].spec_char(), i + 2))
                } else {
                    None
                }
            },
            tok => {
                if !must_escape_in_class(tok.spec_char()) {
                    Some((tok.spec_char(), i + 1))
                } else {
                    None
                }
            },
        }
    }
}

/// The entries of a character class from `i` up to and including the
/// closing bracket. A hyphen between two class characters greedily forms a
/// range, which must be in order; otherwise each class character stands
/// alone.
pub open spec fn spec_parse_class_items(t: Seq<Token>, i: int) -> Result<
    (Seq<CharRange>, int),
    ParseError,
>
    decreases t.len() - i, 1int,
{
    if !(0 <= i < t.len()) {
        Err(syntax_err(t, i))
    } else if t[i] == Token::CloseBracket {
        Ok((Seq::empty(), i + 1))
    } else {
        match spec_class_char(t, i) {
            Some((c1, j1)) => {
                if j1 < t.len() && t[j1] == Token::Hyphen && spec_class_char(t, j1 + 1) is Some {
                    let (c2, j2) = spec_class_char(t, j1 + 1)->Some_0;
                    if c1 <= c2 {
                        match spec_parse_class_items(t, j2) {
                            Ok((rest, k)) => Ok((seq![CharRange::Range(c1, c2)] + rest, k)),
                            Err(e) => Err(e),
                        }
                    } else {
                        Err(syntax_err(t, j1 + 1))
                    }
                } else {
                    match spec_parse_class_items(t, j1) {
                        Ok((rest, k)) => Ok((seq![CharRange::Single(c1)] + rest, k)),
                        Err(e) => Err(e),
                    }
                }
            },
            None => Err(syntax_err(t, i)),
        }
    }
}

/// Whether this token is an ASCII digit literal.
pub open spec fn is_digit_token(tok: Token) -> bool {
    match tok {
        Token::Literal(c) => '0' <= c && c <= '9',
        _ => false,
    }
}

/// The position just after the run of digit tokens starting at `i`.
pub open spec fn spec_number_end(t: Seq<Token>, i: int) -> int
    decreases t.len() - i,
{
    if 0 <= i < t.len() && is_digit_token(t[i]) {
        spec_number_end(t, i + 1)
    } else {
        i
    }
}

/// The value of the run of digit tokens starting at `i`, accumulated onto
/// `acc` in base ten.
pub open spec fn spec_number_val(t: Seq<Token>, i: int, acc: int) -> int
    decreases t.len() - i,
{
    if 0 <= i < t.len() && is_digit_token(t[i]) {
        spec_number_val(t, i + 1, acc * 10 + (t[i].spec_char() as int - '0' as int))
    } else {
        acc
    }
}

/// The outcome of reading a `{...}` quantifier.
pub enum CountOutcome {
    /// A well-formed count and the position after its closing brace.
    Parsed(Count, int),
    /// The braces do not contain a count; the opening brace is left for the
    /// caller.
    NotACount,
    /// A syntactically valid count whose bounds are out of order or too
    /// large; the position is that of the opening brace.
    Malformed(int),
}

/// Reads a count quantifier whose opening brace stands at `i`: `{m}`,
/// `{m,n}`, or `{m,}` (the open-ended form keeps the exact-count meaning of
/// an absent maximum). Bounds must satisfy `m <= n` and fit the machine
/// integer size.
pub open spec fn spec_parse_count(t: Seq<Token>, i: int) -> CountOutcome {
    let p1 = i + 1;
    if p1 < t.len() && is_digit_token(t[p1]) {
        let e1 = spec_number_end(t, p1);
        let v1 = spec_number_val(t, p1, 0);
        if e1 < t.len() && t[e1] == Token::CloseCurly {
            if v1 > usize::MAX as int {
                CountOutcome::Malformed(i)
            } else {
                CountOutcome::Parsed(Count { min: v1 as usize, max: None }, e1 + 1)
            }
        } else if e1 < t.len() && t[e1] == Token::Comma {
            let p2 = e1 + 1;
            if p2 < t.len() && t[p2] == Token::CloseCurly {
                if v1 > usize::MAX as int {
                    CountOutcome::Malformed(i)
                } else {
                    CountOutcome::Parsed(Count { min: v1 as usize, max: None }, p2 + 1)
                }
            } else if p2 < t.len() && is_digit_token(t[p2]) {
                let e2 = spec_number_end(t, p2);
                let v2 = spec_number_val(t, p2, 0);
                if e2 < t.len() && t[e2] == Token::CloseCurly {
                    if v1 > usize::MAX as int || v2 > usize::MAX as int || v1 > v2 {
                        CountOutcome::Malformed(i)
                    } else {
                        CountOutcome::Parsed(
                            Count { min: v1 as usize, max: Some(v2 as usize) },
                            e2 + 1,
                        )
                    }
                } else {
                    CountOutcome::NotACount
                }
            } else {
                CountOutcome::NotACount
            }
        } else {
            CountOutcome::NotACount
        }
    } else {
        CountOutcome::NotACount
    }
}

/// An atom: a literal, an escaped literal, a shorthand class, a character
/// class, or a parenthesized alternation.
pub open spec fn spec_parse_atom(t: Seq<Token>, i: int) -> Result<(SpecRegex, int), ParseError>
    decreases t.len() - i, 0int,
{
    if !(0 <= i < t.len()) {
        Err(syntax_err(t, i))
    } else {
        match t[i] {
            Token::Backslash => {
                if i + 1 < t.len() {
                    let c = t[i + 1].spec_char();
                    if t[i + 1] matches Token::Literal(_) && c == 'd' {
                        Ok((digit_class(), i + 2))
                    } else if t[i + 1] matches Token::Literal(_) && c == 'w' {
                        Ok((word_class(), i + 2))
                    } else if must_escape_outside_class(c) {
                        Ok((SpecRegex::Literal(c), i + 2))
                    } else {
                        Err(syntax_err(t, i + 1))
                    }
                } else {
                    Err(syntax_err(t, i + 1))
                }
            },
            Token::OpenParen => {
                match spec_parse_alternation(t, i + 1) {
                    Ok((r, j)) => {
                        if j < t.len() && t[j] == Token::CloseParen {
                            Ok((r, j + 1))
                        } else {
                            Err(syntax_err(t, j))
                        }
                    },
                    Err(e) => Err(e),
                }
            },
            Token::OpenBracket => {
                match spec_parse_class_items(t, i + 1) {
                    Ok((ranges, j)) => Ok((SpecRegex::Class(ranges), j)),
                    Err(e) => Err(e),
                }
            },
            tok => {
                if !must_escape_outside_class(tok.spec_char()) {
                    Ok((SpecRegex::Literal(tok.spec_char()), i + 1))
                } else {
                    Err(syntax_err(t, i))
                }
            },
        }
    }
}

/// A repetition: an atom optionally followed by exactly one quantifier.
/// Braces that do not contain a count are left unconsumed, as the atom
/// alone.
pub open spec fn spec_parse_repetition(t: Seq<Token>, i: int) -> Result<
    (SpecRegex, int),
    ParseError,
>
    decreases t.len() - i, 1int,
{
    match spec_parse_atom(t, i) {
        Ok((a, j)) => {
            if j < t.len() {
                match t[j] {
                    Token::Question => Ok((SpecRegex::ZeroOrOne(Box::new(a)), j + 1)),
                    Token::Star => Ok((SpecRegex::ZeroOrMore(Box::new(a)), j + 1)),
                    Token::Plus => Ok((SpecRegex::OneOrMore(Box::new(a)), j + 1)),
                    Token::OpenCurly => {
                        match spec_parse_count(t, j) {
                            CountOutcome::Parsed(cnt, k) => Ok(
                                (SpecRegex::Count(Box::new(a), cnt), k),
                            ),
                            CountOutcome::NotACount => Ok((a, j)),
                            CountOutcome::Malformed(pos) => Err(
                                ParseError::MalformedCount { position: pos as usize },
                            ),
                        }
                    },
                    _ => Ok((a, j)),
                }
            } else {
                Ok((a, j))
            }
        },
        Err(e) => Err(e),
    }
}

/// The remaining repetitions of a concatenation, folded onto `acc` from the
/// left.
pub open spec fn spec_parse_concat_rest(t: Seq<Token>, i: int, acc: SpecRegex) -> Result<
    (SpecRegex, int),
    ParseError,
>
    decreases t.len() - i, 2int,
{
    if atom_start(t, i) {
        match spec_parse_repetition(t, i) {
            Ok((r, j)) => {
                if i < j <= t.len() {
                    spec_parse_concat_rest(t, j, SpecRegex::Concat(Box::new(acc), Box::new(r)))
                } else {
                    // never taken: a repetition always consumes input
                    // (lemma_parse_progress); the branch grounds the
                    // termination measure
                    Err(syntax_err(t, j))
                }
            },
            Err(e) => Err(e),
        }
    } else {
        Ok((acc, i))
    }
}

/// A concatenation: one or more repetitions, left-associatively folded.
pub open spec fn spec_parse_concatenation(t: Seq<Token>, i: int) -> Result<
    (SpecRegex, int),
    ParseError,
>
    decreases t.len() - i, 3int,
{
    match spec_parse_repetition(t, i) {
        Ok((first, j)) => {
            if i <= j <= t.len() {
                spec_parse_concat_rest(t, j, first)
            } else {
                // never taken: see spec_parse_concat_rest
                Err(syntax_err(t, j))
            }
        },
        Err(e) => Err(e),
    }
}

/// The remaining `|`-separated concatenations of an alternation, folded
/// onto `acc` from the left. An empty alternative is a parse error.
pub open spec fn spec_parse_alt_rest(t: Seq<Token>, i: int, acc: SpecRegex) -> Result<
    (SpecRegex, int),
    ParseError,
>
    decreases t.len() - i, 4int,
{
    if 0 <= i < t.len() && t[i] == Token::Pipe {
        match spec_parse_concatenation(t, i + 1) {
            Ok((r, j)) => {
                if i < j <= t.len() {
                    spec_parse_alt_rest(t, j, SpecRegex::Or(Box::new(acc), Box::new(r)))
                } else {
                    // never taken: see spec_parse_concat_rest
                    Err(syntax_err(t, j))
                }
            },
            Err(e) => Err(e),
        }
    } else {
        Ok((acc, i))
    }
}

/// An alternation: one or more concatenations separated by `|`,
/// left-associatively folded.
pub open spec fn spec_parse_alternation(t: Seq<Token>, i: int) -> Result<
    (SpecRegex, int),
    ParseError,
>
    decreases t.len() - i, 5int,
{
    match spec_parse_concatenation(t, i) {
        Ok((first, j)) => {
            if i <= j <= t.len() {
                spec_parse_alt_rest(t, j, first)
            } else {
                // never taken: see spec_parse_concat_rest
                Err(syntax_err(t, j))
            }
        },
        Err(e) => Err(e),
    }
}

/// A successful class parse always advances past the closing bracket.
proof fn lemma_class_items_progress(t: Seq<Token>, i: int)
    ensures
        spec_parse_class_items(t, i) matches Ok(p) ==> i < p.1 <= t.len(),
    decreases t.len() - i,
{
    if 0 <= i < t.len() && !(t[i] == Token::CloseBracket) {
        match spec_class_char(t, i) {
            Some((c1, j1)) => {
                if j1 < t.len() && t[j1] == Token::Hyphen && spec_class_char(t, j1 + 1) is Some {
                    let (c2, j2) = spec_class_char(t, j1 + 1)->Some_0;
                    if c1 <= c2 {
                        lemma_class_items_progress(t, j2);
                    }
                } else {
                    lemma_class_items_progress(t, j1);
                }
            },
            None => {},
        }
    }
}

/// A digit run never runs past the end of the tokens.
proof fn lemma_number_end_bounds(t: Seq<Token>, i: int)
    requires
        i <= t.len(),
    ensures
        i <= spec_number_end(t, i) <= t.len(),
    decreases t.len() - i,
{
    if 0 <= i < t.len() && is_digit_token(t[i]) {
        lemma_number_end_bounds(t, i + 1);
    }
}

/// A parsed count always advances past its closing brace.
proof fn lemma_count_progress(t: Seq<Token>, i: int)
    requires
        0 <= i,
    ensures
        spec_parse_count(t, i) matches CountOutcome::Parsed(c, k) ==> i < k <= t.len(),
{
    if i + 1 < t.len() && is_digit_token(t[i + 1]) {
        lemma_number_end_bounds(t, i + 1);
        let e1 = spec_number_end(t, i + 1);
        if e1 < t.len() && t[e1] == Token::Comma && e1 + 1 < t.len() && is_digit_token(
            t[e1 + 1],
        ) {
            lemma_number_end_bounds(t, e1 + 1);
        }
    }
}

/// A successful atom always consumes at least one token.
proof fn lemma_atom_progress(t: Seq<Token>, i: int)
    requires
        0 <= i,
    ensures
        spec_parse_atom(t, i) matches Ok(p) ==> i < p.1 <= t.len(),
    decreases t.len() - i, 0int,
{
    if 0 <= i < t.len() {
        match t[i] {
            Token::OpenParen => {
                lemma_alternation_progress(t, i + 1);
            },
            Token::OpenBracket => {
                lemma_class_items_progress(t, i + 1);
            },
            _ => {},
        }
    }
}

/// A successful repetition always consumes at least one token.
proof fn lemma_repetition_progress(t: Seq<Token>, i: int)
    requires
        0 <= i,
    ensures
        spec_parse_repetition(t, i) matches Ok(p) ==> i < p.1 <= t.len(),
    decreases t.len() - i, 1int,
{
    lemma_atom_progress(t, i);
    match spec_parse_atom(t, i) {
        Ok((a, j)) => {
            if j < t.len() && t[j] == Token::OpenCurly {
                lemma_count_progress(t, j);
            }
        },
        Err(_) => {},
    }
}

/// The tail of a concatenation never moves backwards.
proof fn lemma_concat_rest_progress(t: Seq<Token>, i: int, acc: SpecRegex)
    requires
        0 <= i <= t.len(),
    ensures
        spec_parse_concat_rest(t, i, acc) matches Ok(p) ==> i <= p.1 <= t.len(),
    decreases t.len() - i, 2int,
{
    if atom_start(t, i) {
        lemma_repetition_progress(t, i);
        match spec_parse_repetition(t, i) {
            Ok((r, j)) => {
                if i < j <= t.len() {
                    lemma_concat_rest_progress(
                        t,
                        j,
                        SpecRegex::Concat(Box::new(acc), Box::new(r)),
                    );
                }
            },
            Err(_) => {},
        }
    }
}

/// A successful concatenation always consumes at least one token.
proof fn lemma_concatenation_progress(t: Seq<Token>, i: int)
    requires
        0 <= i <= t.len(),
    ensures
        spec_parse_concatenation(t, i) matches Ok(p) ==> i < p.1 <= t.len(),
    decreases t.len() - i, 3int,
{
    lemma_repetition_progress(t, i);
    match spec_parse_repetition(t, i) {
        Ok((first, j)) => {
            if i <= j <= t.len() {
                lemma_concat_rest_progress(t, j, first);
            }
        },
        Err(_) => {},
    }
}

/// The tail of an alternation never moves backwards.
proof fn lemma_alt_rest_progress(t: Seq<Token>, i: int, acc: SpecRegex)
    requires
        0 <= i <= t.len(),
    ensures
        spec_parse_alt_rest(t, i, acc) matches Ok(p) ==> i <= p.1 <= t.len(),
    decreases t.len() - i, 4int,
{
    if 0 <= i < t.len() && t[i] == Token::Pipe {
        lemma_concatenation_progress(t, i + 1);
        match spec_parse_concatenation(t, i + 1) {
            Ok((r, j)) => {
                if i < j <= t.len() {
                    lemma_alt_rest_progress(t, j, SpecRegex::Or(Box::new(acc), Box::new(r)));
                }
            },
            Err(_) => {},
        }
    }
}

/// A successful alternation always consumes at least one token.
proof fn lemma_alternation_progress(t: Seq<Token>, i: int)
    requires
        0 <= i <= t.len(),
    ensures
        spec_parse_alternation(t, i) matches Ok(p) ==> i < p.1 <= t.len(),
    decreases t.len() - i, 5int,
{
    lemma_concatenation_progress(t, i);
    match spec_parse_concatenation(t, i) {
        Ok((first, j)) => {
            if i <= j <= t.len() {
                lemma_alt_rest_progress(t, j, first);
            }
        },
        Err(_) => {},
    }
}

/// The intermediate syntax tree: it mirrors concrete syntax one-to-one and
/// exists only to decouple grammar shape from the canonical algebra. It is
/// lowered by [`RegexRepresentation::to_regex`] and discarded.
enum RegexRepresentation {
    Literal(char),
    Concat(Box<RegexRepresentation>, Box<RegexRepresentation>),
    Or(Box<RegexRepresentation>, Box<RegexRepresentation>),
    Optional(Box<RegexRepresentation>),
    Star(Box<RegexRepresentation>),
    Plus(Box<RegexRepresentation>),
    Class(Vec<CharRange>),
    Count(Box<RegexRepresentation>, Count),
}

impl RegexRepresentation {
    /// The canonical node this intermediate node lowers to: the quantifier
    /// sugar maps to `ZeroOrOne`/`ZeroOrMore`/`OneOrMore`, all else is
    /// one-to-one.
    spec fn lowered(self) -> SpecRegex
        decreases self,
    {
        match self {
            RegexRepresentation::Literal(c) => SpecRegex::Literal(c),
            RegexRepresentation::Concat(l, r) => SpecRegex::Concat(
                Box::new((*l).lowered()),
                Box::new((*r).lowered()),
            ),
            RegexRepresentation::Or(l, r) => SpecRegex::Or(
                Box::new((*l).lowered()),
                Box::new((*r).lowered()),
            ),
            RegexRepresentation::Optional(inner) => SpecRegex::ZeroOrOne(
                Box::new((*inner).lowered()),
            ),
            RegexRepresentation::Star(inner) => SpecRegex::ZeroOrMore(
                Box::new((*inner).lowered()),
            ),
            RegexRepresentation::Plus(inner) => SpecRegex::OneOrMore(
                Box::new((*inner).lowered()),
            ),
            RegexRepresentation::Class(ranges) => SpecRegex::Class(ranges@),
            RegexRepresentation::Count(inner, count) => SpecRegex::Count(
                Box::new((*inner).lowered()),
                count,
            ),
        }
    }

    /// Lowers the intermediate tree to the canonical algebra, one node at a
    /// time.
    fn to_regex(&self) -> (r: Regex)
        ensures
            r@ == self.lowered(),
        decreases *self,
    {
        match self {
            RegexRepresentation::Literal(c) => Regex::Literal(*c),
            RegexRepresentation::Concat(left, right) => Regex::Concat(
                Box::new(left.to_regex()),
                Box::new(right.to_regex()),
            ),
            RegexRepresentation::Or(left, right) => Regex::Or(
                Box::new(left.to_regex()),
                Box::new(right.to_regex()),
            ),
            RegexRepresentation::Optional(inner) => Regex::ZeroOrOne(Box::new(inner.to_regex())),
            RegexRepresentation::Star(inner) => Regex::ZeroOrMore(Box::new(inner.to_regex())),
            RegexRepresentation::Plus(inner) => Regex::OneOrMore(Box::new(inner.to_regex())),
            RegexRepresentation::Class(ranges) => Regex::Class(copy_ranges(ranges)),
            RegexRepresentation::Count(inner, count) => Regex::Count(
                Box::new(inner.to_regex()),
                *count,
            ),
        }
    }
}

fn copy_ranges(v: &Vec<CharRange>) -> (res: Vec<CharRange>)
    ensures
        res@ == v@,
{
    let mut res: Vec<CharRange> = Vec::new();
    let mut i: usize = 0;
    while i < v.len()
        invariant
            i <= v.len(),
            res@ == v@.take(i as int),
        decreases v.len() - i,
    {
        res.push(v[i]);
        proof {
            assert(res@ =~= v@.take(i + 1 as int));
        }
        i += 1;
    }
    proof {
        assert(v@.take(v@.len() as int) =~= v@);
    }
    res
}

fn syntax_err_at(t: &Vec<Token>, i: usize) -> (e: ParseError)
    ensures
        e == syntax_err(t@, i as int),
{
    ParseError::Syntax {
        position: i,
        found: if i < t.len() {
            Some(t[i])
        } else {
            None
        },
    }
}

pub(crate) fn is_escape_outside(c: char) -> (b: bool)
    ensures
        b == must_escape_outside_class(c),
{
    c == '[' || c == ']' || c == '-' || c == '(' || c == ')' || c == '{' || c == '}' || c == '?'
        || c == '*' || c == '+' || c == '|' || c == '\\' || c == '.'
}

pub(crate) fn is_escape_in_class(c: char) -> (b: bool)
    ensures
        b == must_escape_in_class(c),
{
    c == '[' || c == ']' || c == '-' || c == '\\'
}

fn atom_start_at(t: &Vec<Token>, i: usize) -> (b: bool)
    ensures
        b == atom_start(t@, i as int),
{
    if i >= t.len() {
        return false;
    }
    match t[i] {
        Token::Backslash => true,
        Token::OpenParen => true,
        Token::OpenBracket => true,
        tok => !is_escape_outside(tok.as_char()),
    }
}

fn class_char_at(t: &Vec<Token>, i: usize) -> (res: Option<(char, usize)>)
    requires
        i <= t@.len(),
    ensures
        res matches Some(p) ==> (spec_class_char(t@, i as int) matches Some(q) && q.0 == p.0
            && q.1 == p.1 as int && i < p.1 <= t@.len()),
        res is None ==> spec_class_char(t@, i as int) is None,
{
    if i >= t.len() {
        return None;
    }
    match t[i] {
        Token::Backslash => {
            if i + 1 < t.len() && is_escape_in_class(t[i + 1].as_char()) {
                Some((t[i + 1].as_char(), i + 2))
            } else {
                None
            }
        },
        tok => {
            if !is_escape_in_class(tok.as_char()) {
                Some((tok.as_char(), i + 1))
            } else {
                None
            }
        },
    }
}

fn parse_class_items(t: &Vec<Token>, i: usize) -> (res: Result<
    (Vec<CharRange>, usize),
    ParseError,
>)
    requires
        i <= t@.len(),
    ensures
        res matches Ok(p) ==> (spec_parse_class_items(t@, i as int) matches Ok(q) && q.0 == p.0@
            && q.1 == p.1 as int && i < p.1 <= t@.len()),
        res matches Err(e) ==> spec_parse_class_items(t@, i as int) == Err::<
            (Seq<CharRange>, int),
            ParseError,
        >(e),
    decreases t@.len() - i,
{
    if i >= t.len() {
        return Err(syntax_err_at(t, i));
    }
    if matches!(t[i], Token::CloseBracket) {
        let empty: Vec<CharRange> = Vec::new();
        proof {
            assert(empty@ =~= Seq::<CharRange>::empty());
        }
        return Ok((empty, i + 1));
    }
    match class_char_at(t, i) {
        Some((c1, j1)) => {
            if j1 < t.len() && matches!(t[j1], Token::Hyphen) {
                match class_char_at(t, j1 + 1) {
                    Some((c2, j2)) => {
                        if c1 <= c2 {
                            match parse_class_items(t, j2) {
                                Ok((mut rest, k)) => {
                                    rest.insert(0, CharRange::Range(c1, c2));
                                    proof {
                                        assert(rest@ =~= seq![CharRange::Range(c1, c2)]
                                            + rest@.drop_first());
                                    }
                                    Ok((rest, k))
                                },
                                Err(e) => Err(e),
                            }
                        } else {
                            Err(syntax_err_at(t, j1 + 1))
                        }
                    },
                    None => {
                        match parse_class_items(t, j1) {
                            Ok((mut rest, k)) => {
                                rest.insert(0, CharRange::Single(c1));
                                proof {
                                    assert(rest@ =~= seq![CharRange::Single(c1)]
                                        + rest@.drop_first());
                                }
                                Ok((rest, k))
                            },
                            Err(e) => Err(e),
                        }
                    },
                }
            } else {
                match parse_class_items(t, j1) {
                    Ok((mut rest, k)) => {
                        rest.insert(0, CharRange::Single(c1));
                        proof {
                            assert(rest@ =~= seq![CharRange::Single(c1)] + rest@.drop_first());
                        }
                        Ok((rest, k))
                    },
                    Err(e) => Err(e),
                }
            }
        },
        None => Err(syntax_err_at(t, i)),
    }
}

fn digit_tok(tok: &Token) -> (b: bool)
    ensures
        b == is_digit_token(*tok),
{
    match tok {
        Token::Literal(c) => '0' <= *c && *c <= '9',
        _ => false,
    }
}

/// `spec_number_val` only grows as digits are consumed.
proof fn lemma_number_val_monotonic(t: Seq<Token>, i: int, acc: int)
    requires
        0 <= acc,
    ensures
        spec_number_val(t, i, acc) >= acc,
    decreases t.len() - i,
{
    if 0 <= i < t.len() && is_digit_token(t[i]) {
        let d = t[i].spec_char() as int - '0' as int;
        lemma_number_val_monotonic(t, i + 1, acc * 10 + d);
    }
}

/// Reads the run of digits starting at `i`: its end position always, and
/// its value when that value fits the machine integer size.
fn parse_number(t: &Vec<Token>, i: usize) -> (res: (Option<usize>, usize))
    requires
        i <= t@.len(),
    ensures
        res.1 as int == spec_number_end(t@, i as int),
        i <= res.1 <= t@.len(),
        res.0 matches Some(v) ==> v as int == spec_number_val(t@, i as int, 0),
        res.0 is None ==> spec_number_val(t@, i as int, 0) > usize::MAX as int,
{
    let mut acc: usize = 0;
    let mut j: usize = i;
    let mut overflow = false;
    while j < t.len() && digit_tok(&t[j])
        invariant
            i <= j <= t@.len(),
            spec_number_end(t@, i as int) == spec_number_end(t@, j as int),
            !overflow ==> spec_number_val(t@, i as int, 0) == spec_number_val(
                t@,
                j as int,
                acc as int,
            ),
            overflow ==> spec_number_val(t@, i as int, 0) > usize::MAX as int,
        decreases t@.len() - j,
    {
        let c = t[j].as_char();
        let d = (c as u32 - '0' as u32) as usize;
        proof {
            assert(d as int == t@[j as int].spec_char() as int - '0' as int);
            assert(d <= 9);
        }
        if !overflow {
            if acc > (usize::MAX - d) / 10 {
                proof {
                    assert((acc * 10 + d) > usize::MAX) by (nonlinear_arith)
                        requires
                            acc > (usize::MAX - d) / 10,
                            d <= 9,
                    ;
                    lemma_number_val_monotonic(t@, j + 1, acc as int * 10 + d as int);
                }
                overflow = true;
            } else {
                proof {
                    assert(acc * 10 + d <= usize::MAX) by (nonlinear_arith)
                        requires
                            acc <= (usize::MAX - d) / 10,
                            d <= 9,
                    ;
                }
                acc = acc * 10 + d;
            }
        }
        j += 1;
    }
    if overflow {
        (None, j)
    } else {
        (Some(acc), j)
    }
}

/// The outcome of reading a `{...}` quantifier, as executable data.
enum CountParse {
    Parsed(Count, usize),
    NotACount,
    Malformed(usize),
}

fn parse_count(t: &Vec<Token>, i: usize) -> (res: CountParse)
    requires
        i < t@.len(),
    ensures
        res matches CountParse::Parsed(c, k) ==> spec_parse_count(t@, i as int)
            == CountOutcome::Parsed(c, k as int) && i < k <= t@.len(),
        res is NotACount ==> spec_parse_count(t@, i as int) is NotACount,
        res matches CountParse::Malformed(p) ==> spec_parse_count(t@, i as int)
            == CountOutcome::Malformed(p as int),
{
    let n = t.len();
    let p1 = i + 1;
    if p1 < n && digit_tok(&t[p1]) {
        let (v1opt, e1) = parse_number(t, p1);
        if e1 < t.len() && matches!(t[e1], Token::CloseCurly) {
            match v1opt {
                Some(v1) => CountParse::Parsed(Count { min: v1, max: None }, e1 + 1),
                None => CountParse::Malformed(i),
            }
        } else if e1 < t.len() && matches!(t[e1], Token::Comma) {
            let p2 = e1 + 1;
            if p2 < t.len() && matches!(t[p2], Token::CloseCurly) {
                match v1opt {
                    Some(v1) => CountParse::Parsed(Count { min: v1, max: None }, p2 + 1),
                    None => CountParse::Malformed(i),
                }
            } else if p2 < t.len() && digit_tok(&t[p2]) {
                let (v2opt, e2) = parse_number(t, p2);
                if e2 < t.len() && matches!(t[e2], Token::CloseCurly) {
                    match (v1opt, v2opt) {
                        (Some(v1), Some(v2)) => {
                            if v1 > v2 {
                                CountParse::Malformed(i)
                            } else {
                                CountParse::Parsed(Count { min: v1, max: Some(v2) }, e2 + 1)
                            }
                        },
                        _ => CountParse::Malformed(i),
                    }
                } else {
                    CountParse::NotACount
                }
            } else {
                CountParse::NotACount
            }
        } else {
            CountParse::NotACount
        }
    } else {
        CountParse::NotACount
    }
}

fn parse_atom(t: &Vec<Token>, i: usize) -> (res: Result<
    (RegexRepresentation, usize),
    ParseError,
>)
    requires
        i <= t@.len(),
    ensures
        res matches Ok(p) ==> (spec_parse_atom(t@, i as int) matches Ok(q) && q.0 == p.0.lowered()
            && q.1 == p.1 as int && i < p.1 <= t@.len()),
        res matches Err(e) ==> spec_parse_atom(t@, i as int) == Err::<
            (SpecRegex, int),
            ParseError,
        >(e),
    decreases t@.len() - i, 0int,
{
    if i >= t.len() {
        return Err(syntax_err_at(t, i));
    }
    match t[i] {
        Token::Backslash => {
            if i + 1 < t.len() {
                let tok2 = t[i + 1];
                let c = tok2.as_char();
                let is_lit = matches!(tok2, Token::Literal(_));
                if is_lit && c == 'd' {
                    let mut ranges: Vec<CharRange> = Vec::new();
                    ranges.push(CharRange::Range('0', '9'));
                    proof {
                        assert(ranges@ =~= seq![CharRange::Range('0', '9')]);
                    }
                    Ok((RegexRepresentation::Class(ranges), i + 2))
                } else if is_lit && c == 'w' {
                    let mut ranges: Vec<CharRange> = Vec::new();
                    ranges.push(CharRange::Range('a', 'z'));
                    ranges.push(CharRange::Range('A', 'Z'));
                    ranges.push(CharRange::Range('0', '9'));
                    ranges.push(CharRange::Single('_'));
                    proof {
                        assert(ranges@ =~= seq![
                            CharRange::Range('a', 'z'),
                            CharRange::Range('A', 'Z'),
                            CharRange::Range('0', '9'),
                            CharRange::Single('_'),
                        ]);
                    }
                    Ok((RegexRepresentation::Class(ranges), i + 2))
                } else if is_escape_outside(c) {
                    Ok((RegexRepresentation::Literal(c), i + 2))
                } else {
                    Err(syntax_err_at(t, i + 1))
                }
            } else {
                Err(syntax_err_at(t, i + 1))
            }
        },
        Token::OpenParen => {
            match parse_alternation(t, i + 1) {
                Ok((r, j)) => {
                    if j < t.len() && matches!(t[j], Token::CloseParen) {
                        Ok((r, j + 1))
                    } else {
                        Err(syntax_err_at(t, j))
                    }
                },
                Err(e) => Err(e),
            }
        },
        Token::OpenBracket => {
            match parse_class_items(t, i + 1) {
                Ok((ranges, j)) => Ok((RegexRepresentation::Class(ranges), j)),
                Err(e) => Err(e),
            }
        },
        tok => {
            if !is_escape_outside(tok.as_char()) {
                Ok((RegexRepresentation::Literal(tok.as_char()), i + 1))
            } else {
                Err(syntax_err_at(t, i))
            }
        },
    }
}

fn parse_repetition(t: &Vec<Token>, i: usize) -> (res: Result<
    (RegexRepresentation, usize),
    ParseError,
>)
    requires
        i <= t@.len(),
    ensures
        res matches Ok(p) ==> (spec_parse_repetition(t@, i as int) matches Ok(q) && q.0
            == p.0.lowered() && q.1 == p.1 as int && i < p.1 <= t@.len()),
        res matches Err(e) ==> spec_parse_repetition(t@, i as int) == Err::<
            (SpecRegex, int),
            ParseError,
        >(e),
    decreases t@.len() - i, 1int,
{
    match parse_atom(t, i) {
        Ok((a, j)) => {
            if j < t.len() {
                match t[j] {
                    Token::Question => Ok((RegexRepresentation::Optional(Box::new(a)), j + 1)),
                    Token::Star => Ok((RegexRepresentation::Star(Box::new(a)), j + 1)),
                    Token::Plus => Ok((RegexRepresentation::Plus(Box::new(a)), j + 1)),
                    Token::OpenCurly => {
                        match parse_count(t, j) {
                            CountParse::Parsed(cnt, k) => Ok(
                                (RegexRepresentation::Count(Box::new(a), cnt), k),
                            ),
                            CountParse::NotACount => Ok((a, j)),
                            CountParse::Malformed(pos) => Err(
                                ParseError::MalformedCount { position: pos },
                            ),
                        }
                    },
                    _ => Ok((a, j)),
                }
            } else {
                Ok((a, j))
            }
        },
        Err(e) => Err(e),
    }
}

fn parse_concat_rest(t: &Vec<Token>, i: usize, acc: RegexRepresentation) -> (res: Result<
    (RegexRepresentation, usize),
    ParseError,
>)
    requires
        i <= t@.len(),
    ensures
        res matches Ok(p) ==> (spec_parse_concat_rest(t@, i as int, acc.lowered()) matches Ok(q)
            && q.0 == p.0.lowered() && q.1 == p.1 as int && i <= p.1 <= t@.len()),
        res matches Err(e) ==> spec_parse_concat_rest(t@, i as int, acc.lowered()) == Err::<
            (SpecRegex, int),
            ParseError,
        >(e),
    decreases t@.len() - i, 2int,
{
    if !atom_start_at(t, i) {
        return Ok((acc, i));
    }
    match parse_repetition(t, i) {
        Ok((r, j)) => {
            let folded = RegexRepresentation::Concat(Box::new(acc), Box::new(r));
            parse_concat_rest(t, j, folded)
        },
        Err(e) => Err(e),
    }
}

fn parse_concatenation(t: &Vec<Token>, i: usize) -> (res: Result<
    (RegexRepresentation, usize),
    ParseError,
>)
    requires
        i <= t@.len(),
    ensures
        res matches Ok(p) ==> (spec_parse_concatenation(t@, i as int) matches Ok(q) && q.0
            == p.0.lowered() && q.1 == p.1 as int && i < p.1 <= t@.len()),
        res matches Err(e) ==> spec_parse_concatenation(t@, i as int) == Err::<
            (SpecRegex, int),
            ParseError,
        >(e),
    decreases t@.len() - i, 3int,
{
    match parse_repetition(t, i) {
        Ok((first, j)) => parse_concat_rest(t, j, first),
        Err(e) => Err(e),
    }
}

fn parse_alt_rest(t: &Vec<Token>, i: usize, acc: RegexRepresentation) -> (res: Result<
    (RegexRepresentation, usize),
    ParseError,
>)
    requires
        i <= t@.len(),
    ensures
        res matches Ok(p) ==> (spec_parse_alt_rest(t@, i as int, acc.lowered()) matches Ok(q)
            && q.0 == p.0.lowered() && q.1 == p.1 as int && i <= p.1 <= t@.len()),
        res matches Err(e) ==> spec_parse_alt_rest(t@, i as int, acc.lowered()) == Err::<
            (SpecRegex, int),
            ParseError,
        >(e),
    decreases t@.len() - i, 4int,
{
    if i < t.len() && matches!(t[i], Token::Pipe) {
        match parse_concatenation(t, i + 1) {
            Ok((r, j)) => {
                let folded = RegexRepresentation::Or(Box::new(acc), Box::new(r));
                parse_alt_rest(t, j, folded)
            },
            Err(e) => Err(e),
        }
    } else {
        Ok((acc, i))
    }
}

fn parse_alternation(t: &Vec<Token>, i: usize) -> (res: Result<
    (RegexRepresentation, usize),
    ParseError,
>)
    requires
        i <= t@.len(),
    ensures
        res matches Ok(p) ==> (spec_parse_alternation(t@, i as int) matches Ok(q) && q.0
            == p.0.lowered() && q.1 == p.1 as int && i < p.1 <= t@.len()),
        res matches Err(e) ==> spec_parse_alternation(t@, i as int) == Err::<
            (SpecRegex, int),
            ParseError,
        >(e),
    decreases t@.len() - i, 5int,
{
    match parse_concatenation(t, i) {
        Ok((first, j)) => parse_alt_rest(t, j, first),
        Err(e) => Err(e),
    }
}

/// Converts pattern text to its token stream, rejecting empty input before
/// any parse attempt.
pub fn tokenize_string(input: &str) -> (res: Result<Vec<Token>, ParseError>)
    ensures
        res matches Ok(v) ==> v@ == spec_tokenize(input@) && input@.len() > 0,
        res matches Err(e) ==> e == ParseError::EmptyInput && input@.len() == 0,
{
    let tokens = tokenize(input);
    if tokens.len() == 0 {
        Err(ParseError::EmptyInput)
    } else {
        Ok(tokens)
    }
}

/// Tries to parse a given string into a [`Regex`]: the result is the
/// canonical, already-simplified form of the pattern, or the error that
/// [`spec_parse`] assigns to the input.
pub fn parse_string_to_regex(input: &str) -> (res: Result<Regex, ParseError>)
    ensures
        res matches Ok(r) ==> spec_parse(input@) == Ok::<SpecRegex, ParseError>(r@),
        res matches Err(e) ==> spec_parse(input@) == Err::<SpecRegex, ParseError>(e),
{
    let tokens = match tokenize_string(input) {
        Ok(v) => v,
        Err(e) => {
            return Err(e);
        },
    };
    match parse_alternation(&tokens, 0) {
        Ok((ir, j)) => {
            if j == tokens.len() {
                Ok(ir.to_regex().simplify())
            } else {
                Err(syntax_err_at(&tokens, j))
            }
        },
        Err(e) => Err(e),
    }
}

/// What compiling a whole pattern yields: the error for empty input, then
/// one alternation that must consume every token, lowered and simplified
/// exactly once.
pub open spec fn spec_parse(s: Seq<char>) -> Result<SpecRegex, ParseError> {
    if s.len() == 0 {
        Err(ParseError::EmptyInput)
    } else {
        let t = spec_tokenize(s);
        match spec_parse_alternation(t, 0) {
            Ok((r, j)) => {
                if j == t.len() {
                    Ok(simp(r))
                } else {
                    Err(syntax_err(t, j))
                }
            },
            Err(e) => Err(e),
        }
    }
}

} // verus!
