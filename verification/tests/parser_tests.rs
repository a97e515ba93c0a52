//! Tests of the lexer and the pattern parser.

use rzozowski::{parse_string_to_regex, tokenize, CharRange, Count, Regex, Token};

#[test]
fn lex_unescaped_literal() {
    let input = "a";
    let tokens = tokenize(input);

    assert_eq!(tokens[0], Token::Literal('a'));
}

#[test]
fn lex_escaped_literal() {
    let input = r"\[";
    let tokens = tokenize(input);

    assert_eq!(tokens[0], Token::Backslash);
    assert_eq!(tokens[1], Token::OpenBracket);
}

#[test]
fn parse_literal() {
    let regex = parse_string_to_regex("d").unwrap();
    assert_eq!(regex, Regex::Literal('d'));
}

#[test]
fn parse_literal_escaped() {
    let regex = parse_string_to_regex(r"\+").unwrap();
    assert_eq!(regex, Regex::Literal('+'));
}

#[test]
fn parse_literal_parenthesized() {
    let regex = parse_string_to_regex("(a)").unwrap();
    assert_eq!(regex, Regex::Literal('a'));
}

#[test]
fn parse_character_class_simple() {
    let regex = parse_string_to_regex("[a-z]").unwrap();
    assert_eq!(regex, Regex::Class(vec![CharRange::Range('a', 'z')]));
}

#[test]
fn parse_character_class_long() {
    let regex = parse_string_to_regex("[a-zA-Z0-9]").unwrap();
    assert_eq!(
        regex,
        Regex::Class(vec![
            CharRange::Range('a', 'z'),
            CharRange::Range('A', 'Z'),
            CharRange::Range('0', '9'),
        ])
        .simplify()
    );
}

#[test]
fn parse_character_class_mixed() {
    let regex = parse_string_to_regex("[a-zA]").unwrap();
    assert_eq!(
        regex,
        Regex::Class(vec![CharRange::Range('a', 'z'), CharRange::Single('A'),]).simplify()
    );
}

#[test]
fn parse_special_character_sequence() {
    let regex = parse_string_to_regex(r"\d").unwrap();
    assert_eq!(regex, Regex::Class(vec![CharRange::Range('0', '9')]));
}

#[test]
fn parse_character_class_escaped_characters() {
    let regex = parse_string_to_regex(r"[\--0]").unwrap();
    assert_eq!(regex, Regex::Class(vec![CharRange::Range('-', '0')]));
}

#[test]
fn parse_repetition_star() {
    let regex = parse_string_to_regex("a*").unwrap();
    assert_eq!(regex, Regex::Literal('a').star());
}

#[test]
fn parse_repetition_plus() {
    let regex = parse_string_to_regex("a+").unwrap();
    assert_eq!(regex, Regex::Literal('a').plus());
}

#[test]
fn parse_repetition_question() {
    let regex = parse_string_to_regex("a?").unwrap();
    assert_eq!(regex, Regex::Literal('a').optional());
}

#[test]
fn parse_repetition_count_exact() {
    let regex = parse_string_to_regex("a{3}").unwrap();
    assert_eq!(
        regex,
        Regex::Count(Box::new(Regex::Literal('a')), Count { min: 3, max: None })
    );
}

#[test]
fn parse_repetition_count_range() {
    let regex = parse_string_to_regex("a{3,5}").unwrap();
    assert_eq!(
        regex,
        Regex::Count(Box::new(Regex::Literal('a')), Count { min: 3, max: Some(5) })
    );
}

#[test]
fn parse_repetition_count_at_least() {
    // the open-ended form keeps the exact-count meaning of an absent maximum
    let regex = parse_string_to_regex("a{3,}").unwrap();
    assert_eq!(
        regex,
        Regex::Count(Box::new(Regex::Literal('a')), Count { min: 3, max: None })
    );
}

#[test]
fn parse_concatenation() {
    let regex = parse_string_to_regex("ab").unwrap();
    assert_eq!(
        regex,
        Regex::Concat(Box::new(Regex::Literal('a')), Box::new(Regex::Literal('b')))
    );
}

#[test]
fn parse_concatenation_three() {
    let regex = parse_string_to_regex("abc").unwrap();
    assert_eq!(
        regex,
        Regex::Concat(
            Box::new(Regex::Concat(
                Box::new(Regex::Literal('a')),
                Box::new(Regex::Literal('b')),
            )),
            Box::new(Regex::Literal('c')),
        )
    );
}

#[test]
fn parse_concatenation_complex() {
    let regex = parse_string_to_regex("a(bc)*d[a-z]").unwrap();

    let bc = Regex::Concat(Box::new(Regex::Literal('b')), Box::new(Regex::Literal('c')));
    let star = bc.star();
    let a_bc_star = Regex::Concat(Box::new(Regex::Literal('a')), Box::new(star));
    let a_bc_star_d = Regex::Concat(Box::new(a_bc_star), Box::new(Regex::Literal('d')));
    let class = Regex::Class(vec![CharRange::Range('a', 'z')]);
    let a_bc_star_d_class = Regex::Concat(Box::new(a_bc_star_d), Box::new(class));

    assert_eq!(regex, a_bc_star_d_class);
}

#[test]
fn parse_alternation() {
    let regex = parse_string_to_regex("a|b").unwrap();
    assert_eq!(
        regex,
        Regex::Or(Box::new(Regex::Literal('a')), Box::new(Regex::Literal('b')))
    );
}

#[test]
fn parse_alternation_three() {
    let regex = parse_string_to_regex("a|b|c").unwrap();

    assert_eq!(
        regex,
        Regex::Or(
            Box::new(Regex::Or(
                Box::new(Regex::Literal('a')),
                Box::new(Regex::Literal('b')),
            )),
            Box::new(Regex::Literal('c')),
        )
    );
}

#[test]
fn parse_alternation_complex() {
    let regex = parse_string_to_regex("a*|(bc)?").unwrap();

    let a_star = Regex::Literal('a').star();
    let bc = Regex::Concat(Box::new(Regex::Literal('b')), Box::new(Regex::Literal('c')));
    let bc_optional = bc.optional();
    let a_star_or_bc_optional = Regex::Or(Box::new(a_star), Box::new(bc_optional));

    assert_eq!(regex, a_star_or_bc_optional);
}

#[test]
fn parse_empty_character_class() {
    let regex = parse_string_to_regex("[]").unwrap();
    assert_eq!(regex, Regex::Class(vec![]));
}

#[test]
fn parse_nested_parentheses() {
    let regex = parse_string_to_regex("((a|b)*c)+").unwrap();
    let a_or_b_star =
        Regex::Or(Box::new(Regex::Literal('a')), Box::new(Regex::Literal('b'))).star();
    let a_or_b_star_c = Regex::Concat(Box::new(a_or_b_star), Box::new(Regex::Literal('c')));
    let a_or_b_star_c_plus = a_or_b_star_c.plus();

    assert_eq!(regex, a_or_b_star_c_plus);
}

#[test]
fn parse_unicode() {
    let regex = parse_string_to_regex("💕+").unwrap();
    assert_eq!(regex, Regex::Literal('💕').plus());
}

#[test]
fn parse_hyphen() {
    // a hyphen is in the must-escape set outside classes, so it needs a
    // backslash to be a literal
    let result = parse_string_to_regex("a-z");
    assert!(result.is_err());

    let regex = parse_string_to_regex(r"a\-z").unwrap();
    assert_eq!(regex, Regex::Concat(
        Box::new(Regex::Concat(
            Box::new(Regex::Literal('a')),
            Box::new(Regex::Literal('-')),
        )),
        Box::new(Regex::Literal('z')),
    ));
}

#[test]
fn parse_invalid_syntax() {
    // test incomplete count
    let result = parse_string_to_regex("a{");
    assert!(result.is_err());

    // test incomplete character class
    let result = parse_string_to_regex("[a-");
    assert!(result.is_err());

    // test incomplete parentheses
    let result = parse_string_to_regex("(a");
    assert!(result.is_err());

    // test empty sequence
    let result = parse_string_to_regex("");
    assert!(result.is_err());

    // test empty alternation
    let result = parse_string_to_regex("|");
    assert!(result.is_err());
}

#[test]
fn parse_email() {
    let pattern = r"[a-zA-Z0-9._%+\-]+@[a-zA-Z0-9.\-]+\.[a-zA-Z]{2,}";
    let regex = parse_string_to_regex(pattern);
    println!("Error: {:?}", regex);
    assert!(regex.is_ok());
}

#[test]
fn test_parse_and_matches() {
    let regex = Regex::new("(a|b)*c+").unwrap();
    assert!(regex.matches("c"));
    assert!(regex.matches("cc"));
    assert!(regex.matches("ac"));
    assert!(regex.matches("abc"));
    assert!(regex.matches("abbaccc"));
}

#[test]
fn test_equality() {
    let r = Regex::new(r"\d{3,6}[a-z_]+").unwrap();
    assert!(r.matches("123abc"));

    let der = r.derivative('1');
    assert_eq!(der, Regex::new(r"\d{2,5}[a-z_]+").unwrap());
}
