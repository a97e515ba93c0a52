//! Tests of the engine's observable properties: bounded growth under
//! repeated differentiation, matching scenarios, parser error values, class
//! canonicalization, and the rendering back to pattern syntax.

use rzozowski::{parse_string_to_regex, CharRange, Count, ParseError, Regex, Token};

fn node_count(r: &Regex) -> usize {
    match r {
        Regex::Empty | Regex::Epsilon | Regex::Literal(_) => 1,
        Regex::Concat(l, r2) | Regex::Or(l, r2) => 1 + node_count(l) + node_count(r2),
        Regex::ZeroOrOne(i) | Regex::ZeroOrMore(i) | Regex::OneOrMore(i) => 1 + node_count(i),
        Regex::Class(ranges) => 1 + ranges.len(),
        Regex::Count(i, _) => 1 + node_count(i),
    }
}

#[test]
fn derivative_growth_stays_bounded() {
    let regex = parse_string_to_regex("(a|b)*c").unwrap();
    let bound = 4 * node_count(&regex);
    let mut current = regex;
    for step in 0..200 {
        let c = if step % 2 == 0 { 'a' } else { 'b' };
        current = current.derivative(c);
        assert!(node_count(&current) <= bound);
    }
}

#[test]
fn derivative_growth_stays_bounded_counted() {
    let regex = parse_string_to_regex("(a+)+(b|c){2,9}").unwrap();
    let bound = 8 * node_count(&regex);
    let mut current = regex;
    for step in 0..120 {
        let c = ['a', 'b', 'c', 'a'][step % 4];
        current = current.derivative(c);
        assert!(node_count(&current) <= bound);
    }
}

#[test]
fn no_catastrophic_blowup() {
    // the nested quantifier that sends backtracking engines exponential:
    // ten characters with no trailing match must come back immediately
    let regex = parse_string_to_regex("(a+)+b").unwrap();
    assert!(!regex.matches("aaaaaaaaaa"));
    assert!(regex.matches("aaaaaaaaaab"));
}

#[test]
fn matches_literal_word() {
    let regex = parse_string_to_regex("abcdef").unwrap();
    assert!(regex.matches("abcdef"));
    assert!(!regex.matches("abcde"));
}

#[test]
fn matches_star() {
    let regex = parse_string_to_regex("a*").unwrap();
    assert!(regex.matches(""));
    assert!(regex.matches("a"));
    assert!(regex.matches("aaaa"));
    assert!(!regex.matches("b"));
}

#[test]
fn matches_count_bounds() {
    let regex = parse_string_to_regex("a{2,3}").unwrap();
    assert!(!regex.matches(""));
    assert!(!regex.matches("a"));
    assert!(regex.matches("aa"));
    assert!(regex.matches("aaa"));
    assert!(!regex.matches("aaaa"));
}

#[test]
fn matches_class_range() {
    let regex = parse_string_to_regex("[a-z]").unwrap();
    assert!(regex.matches("j"));
    assert!(!regex.matches("1"));
}

#[test]
fn matches_shorthand_classes() {
    let regex = parse_string_to_regex(r"\d\w").unwrap();
    assert!(regex.matches("1_"));
    assert!(!regex.matches("a_"));
}

#[test]
fn matches_alternation_star_plus() {
    let regex = parse_string_to_regex("(a|b)*c+").unwrap();
    assert!(regex.matches("c"));
    assert!(regex.matches("cc"));
    assert!(regex.matches("ac"));
    assert!(regex.matches("abc"));
    assert!(regex.matches("abbaccc"));
    assert!(!regex.matches("ab"));
}

#[test]
fn derivative_decrements_count_bounds() {
    let r = parse_string_to_regex(r"\d{3,6}[a-z_]+").unwrap();
    assert_eq!(r.derivative('1'), parse_string_to_regex(r"\d{2,5}[a-z_]+").unwrap());
}

#[test]
fn well_formed_equivalents_succeed() {
    assert!(parse_string_to_regex("a{2}").is_ok());
    assert!(parse_string_to_regex("[a-]").is_err());
    assert!(parse_string_to_regex("[a-b]").is_ok());
    assert!(parse_string_to_regex("(a)").is_ok());
    assert!(parse_string_to_regex("a").is_ok());
    assert!(parse_string_to_regex("a|b").is_ok());
}

#[test]
fn empty_input_error() {
    assert_eq!(parse_string_to_regex(""), Err(ParseError::EmptyInput));
}

#[test]
fn syntax_error_carries_position_and_token() {
    assert_eq!(
        parse_string_to_regex("|"),
        Err(ParseError::Syntax { position: 0, found: Some(Token::Pipe) })
    );
    // an unterminated group fails at the end of input
    assert_eq!(
        parse_string_to_regex("(a"),
        Err(ParseError::Syntax { position: 2, found: None })
    );
    // a doubled alternation operator fails at the second pipe
    assert_eq!(
        parse_string_to_regex("a||b"),
        Err(ParseError::Syntax { position: 2, found: Some(Token::Pipe) })
    );
}

#[test]
fn malformed_count_bounds() {
    // bounds out of order
    assert_eq!(
        parse_string_to_regex("a{3,2}"),
        Err(ParseError::MalformedCount { position: 1 })
    );
    // a bound too large for the machine integer size
    assert_eq!(
        parse_string_to_regex("a{99999999999999999999999999}"),
        Err(ParseError::MalformedCount { position: 1 })
    );
    // in-order bounds are fine
    assert!(parse_string_to_regex("a{2,3}").is_ok());
}

#[test]
fn class_order_does_not_matter() {
    let sorted = parse_string_to_regex("[cad-f]").unwrap();
    assert_eq!(sorted, parse_string_to_regex("[acd-f]").unwrap());
    assert_eq!(sorted, parse_string_to_regex("[d-fca]").unwrap());
    assert_eq!(
        sorted,
        Regex::Class(vec![
            CharRange::Single('a'),
            CharRange::Single('c'),
            CharRange::Range('d', 'f'),
        ])
    );
}

#[test]
fn class_range_out_of_order_is_rejected() {
    assert!(parse_string_to_regex("[z-a]").is_err());
    assert!(parse_string_to_regex("[a-z]").is_ok());
}

#[test]
fn simplify_twice_equals_once() {
    let regex = Regex::Concat(
        Box::new(Regex::Or(
            Box::new(Regex::Literal('a')),
            Box::new(Regex::Empty),
        )),
        Box::new(Regex::ZeroOrMore(Box::new(Regex::ZeroOrMore(Box::new(
            Regex::Literal('b'),
        ))))),
    );
    let once = regex.simplify();
    let twice = once.simplify();
    assert_eq!(once, twice);
}

#[test]
fn simplify_algebraic_identities() {
    let r = Regex::Concat(
        Box::new(Regex::Literal('x')),
        Box::new(Regex::ZeroOrMore(Box::new(Regex::Literal('y')))),
    );

    let or_empty = Regex::Or(Box::new(r.clone()), Box::new(Regex::Empty));
    assert_eq!(or_empty.simplify(), r.clone().simplify());

    let concat_epsilon = Regex::Concat(Box::new(r.clone()), Box::new(Regex::Epsilon));
    assert_eq!(concat_epsilon.simplify(), r.clone().simplify());

    let or_same = Regex::Or(Box::new(r.clone()), Box::new(r.clone()));
    assert_eq!(or_same.simplify(), r.clone().simplify());

    let star_star = Regex::ZeroOrMore(Box::new(Regex::ZeroOrMore(Box::new(r.clone()))));
    let star = Regex::ZeroOrMore(Box::new(r));
    assert_eq!(star_star.simplify(), star.simplify());
}

#[test]
fn incremental_derivative_matches_whole_string() {
    let regex = parse_string_to_regex("(a|b)*c").unwrap();
    let stepped = regex.derivative('a').derivative('b').derivative('c');
    assert!(stepped.matches(""));
    assert!(regex.matches("abc"));
}

#[test]
fn display_literal_and_escapes() {
    assert_eq!(Regex::Literal('a').to_display_string(), "a");
    assert_eq!(Regex::Literal('+').to_display_string(), r"\+");
    assert_eq!(Regex::Empty.to_display_string(), "∅");
    assert_eq!(Regex::Epsilon.to_display_string(), "ε");
}

#[test]
fn display_compound_forms() {
    let regex = Regex::Or(
        Box::new(Regex::Literal('a')),
        Box::new(Regex::ZeroOrMore(Box::new(Regex::Literal('b')))),
    );
    assert_eq!(regex.to_display_string(), "(a|(b)*)");

    let class = Regex::Class(vec![
        CharRange::Single('a'),
        CharRange::Range('c', 'e'),
        CharRange::Single('-'),
    ]);
    assert_eq!(class.to_display_string(), r"[ac-e\-]");

    let counted = Regex::Count(
        Box::new(Regex::Literal('a')),
        Count { min: 12, max: Some(34) },
    );
    assert_eq!(counted.to_display_string(), "(a){12,34}");

    let exact = Regex::Count(Box::new(Regex::Literal('a')), Count { min: 7, max: None });
    assert_eq!(exact.to_display_string(), "(a){7}");
}

#[test]
fn display_range_and_count_values() {
    assert_eq!(CharRange::Range('a', 'z').to_display_string(), "a-z");
    assert_eq!(CharRange::Single(']').to_display_string(), r"\]");
    assert_eq!(Count { min: 0, max: Some(305) }.to_display_string(), "{0,305}");
    assert_eq!(Count { min: 42, max: None }.to_display_string(), "{42}");
}

#[test]
fn escaped_literals_round_through_parsing() {
    let regex = parse_string_to_regex(r"\(\)\{\}\?\*\[\]\|\.\\\+\-").unwrap();
    assert!(regex.matches("(){}?*[]|.\\+-"));
    assert!(!regex.matches("(){}?*[]|.\\+"));
}

#[test]
fn literal_punctuation_outside_classes() {
    // @, %, and , need no escaping outside classes
    let regex = parse_string_to_regex("a@b%c,d").unwrap();
    assert!(regex.matches("a@b%c,d"));
    assert!(!regex.matches("a@b%c+d"));
}

#[test]
fn class_duplicates_are_kept() {
    // no dedup or merge happens at this layer; equal entries stay
    let regex = parse_string_to_regex("[aab]").unwrap();
    assert_eq!(
        regex,
        Regex::Class(vec![
            CharRange::Single('a'),
            CharRange::Single('a'),
            CharRange::Single('b'),
        ])
    );
    assert!(regex.matches("a"));
    assert!(regex.matches("b"));
    assert!(!regex.matches("c"));
}

#[test]
fn matches_multibyte_characters() {
    let regex = parse_string_to_regex("💕+").unwrap();
    assert!(regex.matches("💕"));
    assert!(regex.matches("💕💕💕"));
    assert!(!regex.matches(""));
    assert!(!regex.matches("a"));
}
