//! Tests of the algebra: derivative, simplification, and whole-string
//! matching, on hand-built trees.

use rzozowski::{CharRange, Count, Regex};

// derivative tests

#[test]
fn test_derivative_empty() {
    let regex = Regex::Empty;
    assert_eq!(regex.derivative('a'), Regex::Empty);
}

#[test]
fn test_derivative_epsilon() {
    let regex = Regex::Epsilon;
    assert_eq!(regex.derivative('a'), Regex::Empty);
}

#[test]
fn test_derivative_literal_match() {
    let regex = Regex::Literal('a');
    assert_eq!(regex.derivative('a'), Regex::Epsilon);
}

#[test]
fn test_derivative_literal_no_match() {
    let regex = Regex::Literal('a');
    assert_eq!(regex.derivative('b'), Regex::Empty);
}

#[test]
fn test_derivative_concat_first_char() {
    let regex = Regex::Concat(
        Box::new(Regex::Literal('a')),
        Box::new(Regex::Literal('b'))
    );
    assert_eq!(regex.derivative('a'), Regex::Literal('b'));
}

#[test]
fn test_derivative_concat_nullable_first() {
    let regex = Regex::Concat(
        Box::new(Regex::ZeroOrOne(Box::new(Regex::Literal('a')))),
        Box::new(Regex::Literal('b'))
    );
    assert_eq!(regex.derivative('b'), Regex::Epsilon);
}

#[test]
fn test_derivative_or_left_match() {
    let regex = Regex::Or(
        Box::new(Regex::Literal('a')),
        Box::new(Regex::Literal('b'))
    );
    assert_eq!(regex.derivative('a'), Regex::Epsilon);
}

#[test]
fn test_derivative_or_right_match() {
    let regex = Regex::Or(
        Box::new(Regex::Literal('a')),
        Box::new(Regex::Literal('b'))
    );
    assert_eq!(regex.derivative('b'), Regex::Epsilon);
}

#[test]
fn test_derivative_or_no_match() {
    let regex = Regex::Or(
        Box::new(Regex::Literal('a')),
        Box::new(Regex::Literal('b'))
    );
    assert_eq!(regex.derivative('c'), Regex::Empty);
}

#[test]
fn test_derivative_zero_or_one() {
    let regex = Regex::ZeroOrOne(Box::new(Regex::Literal('a')));
    assert_eq!(regex.derivative('a'), Regex::Epsilon);
    assert_eq!(regex.derivative('b'), Regex::Empty);
}

#[test]
fn test_derivative_zero_or_more_match() {
    let regex = Regex::ZeroOrMore(Box::new(Regex::Literal('a')));
    let result = regex.derivative('a');
    assert_eq!(result, Regex::ZeroOrMore(Box::new(Regex::Literal('a'))));
}

#[test]
fn test_derivative_zero_or_more_no_match() {
    let regex = Regex::ZeroOrMore(Box::new(Regex::Literal('a')));
    assert_eq!(regex.derivative('b'), Regex::Empty);
}

#[test]
fn test_derivative_one_or_more_match() {
    let regex = Regex::OneOrMore(Box::new(Regex::Literal('a')));
    let result = regex.derivative('a');
    assert_eq!(result, Regex::ZeroOrMore(Box::new(Regex::Literal('a'))));
}

#[test]
fn test_derivative_one_or_more_no_match() {
    let regex = Regex::OneOrMore(Box::new(Regex::Literal('a')));
    assert_eq!(regex.derivative('b'), Regex::Empty);
}

#[test]
fn test_derivative_class_match() {
    let regex = Regex::Class(vec![
        CharRange::Single('a'),
        CharRange::Range('c', 'e')
    ]);
    assert_eq!(regex.derivative('a'), Regex::Epsilon);
    assert_eq!(regex.derivative('d'), Regex::Epsilon);
}

#[test]
fn test_derivative_class_no_match() {
    let regex = Regex::Class(vec![
        CharRange::Single('a'),
        CharRange::Range('c', 'e')
    ]);
    assert_eq!(regex.derivative('b'), Regex::Empty);
    assert_eq!(regex.derivative('f'), Regex::Empty);
}

#[test]
fn test_derivative_count_match() {
    let regex = Regex::Count(
        Box::new(Regex::Literal('a')),
        Count { min: 2, max: Some(3) }
    );
    let result = regex.derivative('a');
    assert_eq!(result, Regex::Count(
        Box::new(Regex::Literal('a')),
        Count { min: 1, max: Some(2) }
    ));
}

#[test]
fn test_derivative_count_no_match() {
    let regex = Regex::Count(
        Box::new(Regex::Literal('a')),
        Count { min: 2, max: Some(3) }
    );
    assert_eq!(regex.derivative('b'), Regex::Empty);
}

#[test]
fn test_derivative_complex_pattern() {
    // Pattern: a(b|c)*d
    let regex = Regex::Concat(
        Box::new(Regex::Literal('a')),
        Box::new(Regex::Concat(
            Box::new(Regex::ZeroOrMore(Box::new(Regex::Or(
                Box::new(Regex::Literal('b')),
                Box::new(Regex::Literal('c'))
            )))),
            Box::new(Regex::Literal('d'))
        ))
    );

    // Take derivative with respect to 'a'
    let d1 = regex.derivative('a');
    assert_eq!(d1, Regex::Concat(
        Box::new(Regex::ZeroOrMore(Box::new(Regex::Or(
            Box::new(Regex::Literal('b')),
            Box::new(Regex::Literal('c'))
        )))),
        Box::new(Regex::Literal('d'))
    ));

    // Take derivative with respect to 'b'
    let d2 = d1.derivative('b');
    assert_eq!(d2, Regex::Concat(
        Box::new(Regex::ZeroOrMore(Box::new(Regex::Or(
            Box::new(Regex::Literal('b')),
            Box::new(Regex::Literal('c'))
        )))),
        Box::new(Regex::Literal('d'))
    ));

    // Take derivative with respect to 'd'
    let d3 = d2.derivative('d');
    assert_eq!(d3, Regex::Epsilon);
}

// simplify tests

#[test]
fn test_simplify_empty() {
    let regex = Regex::Empty;
    assert_eq!(regex.simplify(), Regex::Empty);
}

#[test]
fn test_simplify_epsilon() {
    let regex = Regex::Epsilon;
    assert_eq!(regex.simplify(), Regex::Epsilon);
}

#[test]
fn test_simplify_literal() {
    let regex = Regex::Literal('a');
    assert_eq!(regex.simplify(), Regex::Literal('a'));
}

#[test]
fn test_simplify_concat_with_empty() {
    // a followed by the empty language is the empty language
    let regex = Regex::Concat(
        Box::new(Regex::Literal('a')),
        Box::new(Regex::Empty)
    );
    assert_eq!(regex.simplify(), Regex::Empty);

    let regex = Regex::Concat(
        Box::new(Regex::Empty),
        Box::new(Regex::Literal('a'))
    );
    assert_eq!(regex.simplify(), Regex::Empty);
}

#[test]
fn test_simplify_concat_with_epsilon() {
    // the empty string is dropped from a concatenation
    let regex = Regex::Concat(
        Box::new(Regex::Literal('a')),
        Box::new(Regex::Epsilon)
    );
    assert_eq!(regex.simplify(), Regex::Literal('a'));

    let regex = Regex::Concat(
        Box::new(Regex::Epsilon),
        Box::new(Regex::Literal('a'))
    );
    assert_eq!(regex.simplify(), Regex::Literal('a'));
}

#[test]
fn test_simplify_or_with_empty() {
    // the empty language is dropped from a union
    let regex = Regex::Or(
        Box::new(Regex::Literal('a')),
        Box::new(Regex::Empty)
    );
    assert_eq!(regex.simplify(), Regex::Literal('a'));

    let regex = Regex::Or(
        Box::new(Regex::Empty),
        Box::new(Regex::Literal('a'))
    );
    assert_eq!(regex.simplify(), Regex::Literal('a'));
}

#[test]
fn test_simplify_or_with_same() {
    // union is idempotent
    let regex = Regex::Or(
        Box::new(Regex::Literal('a')),
        Box::new(Regex::Literal('a'))
    );
    assert_eq!(regex.simplify(), Regex::Literal('a'));
}

#[test]
fn test_simplify_zero_or_more() {
    // a star of the empty language is the empty string
    let regex = Regex::ZeroOrMore(Box::new(Regex::Empty));
    assert_eq!(regex.simplify(), Regex::Epsilon);

    // a star of the empty string is the empty string
    let regex = Regex::ZeroOrMore(Box::new(Regex::Epsilon));
    assert_eq!(regex.simplify(), Regex::Epsilon);

    // star is idempotent
    let inner = Regex::ZeroOrMore(Box::new(Regex::Literal('a')));
    let regex = Regex::ZeroOrMore(Box::new(inner));
    assert_eq!(regex.simplify(), Regex::ZeroOrMore(Box::new(Regex::Literal('a'))));
}

#[test]
fn test_simplify_one_or_more() {
    // one-or-more of the empty string is the empty string
    let regex = Regex::OneOrMore(Box::new(Regex::Epsilon));
    assert_eq!(regex.simplify(), Regex::Epsilon);
}

#[test]
fn test_simplify_class() {
    // Single char class to literal
    let regex = Regex::Class(vec![CharRange::Single('a')]);
    assert_eq!(regex.simplify(), Regex::Literal('a'));

    // Range with same start and end becomes single
    let regex = Regex::Class(vec![CharRange::Range('a', 'a')]);
    assert_eq!(regex.simplify(), Regex::Literal('a'));

    // Test sorting
    let regex = Regex::Class(vec![
        CharRange::Single('c'),
        CharRange::Single('a'),
        CharRange::Range('d', 'f')
    ]);
    assert_eq!(regex.simplify(), Regex::Class(vec![
        CharRange::Single('a'),
        CharRange::Single('c'),
        CharRange::Range('d', 'f')
    ]));
}

#[test]
fn test_simplify_count() {
    // a count of the empty language is the empty language
    let regex = Regex::Count(
        Box::new(Regex::Empty),
        Count { min: 2, max: Some(3) }
    );
    assert_eq!(regex.simplify(), Regex::Empty);

    // a count of the empty string is the empty string
    let regex = Regex::Count(
        Box::new(Regex::Epsilon),
        Count { min: 2, max: Some(3) }
    );
    assert_eq!(regex.simplify(), Regex::Epsilon);

    // a count whose bounds agree becomes the exact form
    let regex = Regex::Count(
        Box::new(Regex::Literal('a')),
        Count { min: 2, max: Some(2) }
    );
    assert_eq!(regex.simplify(), Regex::Count(
        Box::new(Regex::Literal('a')),
        Count { min: 2, max: None }
    ));

    // exactly zero repetitions is the empty string
    let regex = Regex::Count(
        Box::new(Regex::Literal('a')),
        Count { min: 0, max: None }
    );
    assert_eq!(regex.simplify(), Regex::Epsilon);

    // exactly one repetition is the inner regex
    let regex = Regex::Count(
        Box::new(Regex::Literal('a')),
        Count { min: 1, max: None }
    );
    assert_eq!(regex.simplify(), Regex::Literal('a'));
}

#[test]
fn test_complex_simplification() {
    let regex = Regex::Concat(
        Box::new(Regex::Or(
            Box::new(Regex::Literal('a')),
            Box::new(Regex::Empty)
        )),
        Box::new(Regex::Or(
            Box::new(Regex::Epsilon),
            Box::new(Regex::ZeroOrMore(Box::new(Regex::Literal('b'))))
        ))
    );

    let simplified = regex.simplify();
    assert_eq!(simplified, Regex::Concat(
        Box::new(Regex::Literal('a')),
        Box::new(Regex::Or(
            Box::new(Regex::Epsilon),
            Box::new(Regex::ZeroOrMore(Box::new(Regex::Literal('b'))))
        ))
    ));
}

// matches tests

#[test]
fn test_matches_literal() {
    let regex = Regex::Literal('a');
    assert!(regex.matches("a"));
    assert!(!regex.matches("b"));
}

#[test]
fn test_matches_concat() {
    let regex = Regex::Concat(
        Box::new(Regex::Literal('a')),
        Box::new(Regex::Literal('b'))
    );
    assert!(regex.matches("ab"));
    assert!(!regex.matches("a"));
    assert!(!regex.matches("b"));
}

#[test]
fn test_matches_or() {
    let regex = Regex::Or(
        Box::new(Regex::Literal('a')),
        Box::new(Regex::Literal('b'))
    );
    assert!(regex.matches("a"));
    assert!(regex.matches("b"));
    assert!(!regex.matches("c"));
}

#[test]
fn test_matches_zero_or_more() {
    let regex = Regex::ZeroOrMore(Box::new(Regex::Literal('a')));
    assert!(regex.matches(""));
    assert!(regex.matches("a"));
    assert!(regex.matches("aa"));
    assert!(!regex.matches("b"));
}

#[test]
fn test_matches_complex() {
    let regex = Regex::Concat(
        Box::new(Regex::Literal('a')),
        Box::new(Regex::ZeroOrMore(Box::new(Regex::Literal('b')))
    )); // ab*
    assert!(regex.matches("a"));
    assert!(regex.matches("ab"));
    assert!(regex.matches("abb"));
    assert!(!regex.matches("b"));
    assert!(!regex.matches("aa"));
}

#[test]
fn test_matches_count_range() {
    let regex = Regex::Count(
        Box::new(Regex::Literal('a')),
        Count { min: 2, max: Some(3) }
    );
    assert!(!regex.matches(""));
    assert!(!regex.matches("a"));
    assert!(regex.matches("aa"));
    assert!(regex.matches("aaa"));
    assert!(!regex.matches("aaaa"));
}

#[test]
fn test_matches_count_single() {
    let regex = Regex::Count(
        Box::new(Regex::Literal('a')),
        Count { min: 2, max: None }
    );

    assert!(!regex.matches(""));
    assert!(!regex.matches("a"));
    assert!(regex.matches("aa"));
    assert!(!regex.matches("aaa"));
}

#[test]
fn test_matches_class() {
    let regex = Regex::Class(vec![CharRange::Single('a'), CharRange::Single('b')]);
    assert!(regex.matches("a"));
    assert!(regex.matches("b"));
    assert!(!regex.matches("c"));
}
