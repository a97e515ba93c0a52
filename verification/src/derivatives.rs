//! The regular-expression algebra: the canonical recursive representation of
//! a regular language, its nullability predicate, its Brzozowski derivative,
//! and the canonicalizing simplifier that keeps expressions bounded.

use vstd::prelude::*;

verus! {

/// A set of characters to be matched in a character class.
#[derive(Clone, Copy, Debug)]
pub enum CharRange {
    /// A single character (e.g., `a`).
    Single(char),
    /// An inclusive range of characters (e.g., `a-z`).
    Range(char, char),
}

/// The number of times a repeated regex must match. If `max` is `None`, the
/// regex must match exactly `min` times. If `max` is `Some(n)`, the regex must
/// match between `min` and `n` times (inclusive).
#[derive(Clone, Copy, Debug)]
pub struct Count {
    pub min: usize,
    pub max: Option<usize>,
}

/// A regular expression in the canonical algebra. This is the only
/// representation that participates in derivative computation and equality.
#[derive(Debug)]
pub enum Regex {
    /// Matches no strings at all.
    Empty,
    /// Matches only the empty string.
    Epsilon,
    /// Matches a single character (e.g., `a`).
    Literal(char),
    /// Matches a concatenation of two regexes (e.g., `ab`).
    Concat(Box<Regex>, Box<Regex>),
    /// Matches an alternation of two regexes (e.g., `a|b`).
    Or(Box<Regex>, Box<Regex>),
    /// Matches zero or one occurrence of the inner regex (e.g., `a?`).
    ZeroOrOne(Box<Regex>),
    /// Matches zero or more occurrences of the inner regex (e.g., `a*`).
    ZeroOrMore(Box<Regex>),
    /// Matches one or more occurrences of the inner regex (e.g., `a+`).
    OneOrMore(Box<Regex>),
    /// Matches any character in the given character class (e.g., `[a-z]`).
    Class(Vec<CharRange>),
    /// Matches the inner regex a bounded number of times (e.g., `a{3}`,
    /// `a{3,5}`).
    Count(Box<Regex>, Count),
}

/// The mathematical model of a [`Regex`]: identical in shape, except that a
/// character class holds its ranges as a `Seq`. Contracts throughout this
/// crate speak of this type, through the view `@` of [`Regex`].
#[verifier::ext_equal]
pub enum SpecRegex {
    Empty,
    Epsilon,
    Literal(char),
    Concat(Box<SpecRegex>, Box<SpecRegex>),
    Or(Box<SpecRegex>, Box<SpecRegex>),
    ZeroOrOne(Box<SpecRegex>),
    ZeroOrMore(Box<SpecRegex>),
    OneOrMore(Box<SpecRegex>),
    Class(Seq<CharRange>),
    Count(Box<SpecRegex>, Count),
}

impl Regex {
    /// The mathematical value of this regex tree.
    pub open spec fn model(self) -> SpecRegex
        decreases self,
    {
        match self {
            Regex::Empty => SpecRegex::Empty,
            Regex::Epsilon => SpecRegex::Epsilon,
            Regex::Literal(c) => SpecRegex::Literal(c),
            Regex::Concat(l, r) => SpecRegex::Concat(
                Box::new((*l).model()),
                Box::new((*r).model()),
            ),
            Regex::Or(l, r) => SpecRegex::Or(Box::new((*l).model()), Box::new((*r).model())),
            Regex::ZeroOrOne(inner) => SpecRegex::ZeroOrOne(Box::new((*inner).model())),
            Regex::ZeroOrMore(inner) => SpecRegex::ZeroOrMore(Box::new((*inner).model())),
            Regex::OneOrMore(inner) => SpecRegex::OneOrMore(Box::new((*inner).model())),
            Regex::Class(ranges) => SpecRegex::Class(ranges@),
            Regex::Count(inner, count) => SpecRegex::Count(Box::new((*inner).model()), count),
        }
    }
}

impl View for Regex {
    type V = SpecRegex;

    open spec fn view(&self) -> SpecRegex {
        self.model()
    }
}

impl PartialEq for CharRange {
    fn eq(&self, other: &Self) -> (r: bool) {
        match (self, other) {
            (CharRange::Single(a), CharRange::Single(b)) => a == b,
            (CharRange::Range(a, b), CharRange::Range(c, d)) => a == c && b == d,
            _ => false,
        }
    }
}

impl Eq for CharRange {}

impl vstd::std_specs::cmp::PartialEqSpecImpl for CharRange {
    open spec fn obeys_eq_spec() -> bool {
        true
    }

    open spec fn eq_spec(&self, other: &Self) -> bool {
        *self == *other
    }
}

impl PartialEq for Count {
    fn eq(&self, other: &Self) -> (r: bool) {
        self.min == other.min && match (self.max, other.max) {
            (None, None) => true,
            (Some(a), Some(b)) => a == b,
            _ => false,
        }
    }
}

impl Eq for Count {}

impl vstd::std_specs::cmp::PartialEqSpecImpl for Count {
    open spec fn obeys_eq_spec() -> bool {
        true
    }

    open spec fn eq_spec(&self, other: &Self) -> bool {
        *self == *other
    }
}

/// Structural equality of two regex trees, the relation that the
/// equality-driven simplification rules fire on.
fn regex_eq(a: &Regex, b: &Regex) -> (r: bool)
    ensures
        r == (a@ == b@),
    decreases *a,
{
    match (a, b) {
        (Regex::Empty, Regex::Empty) => true,
        (Regex::Epsilon, Regex::Epsilon) => true,
        (Regex::Literal(c1), Regex::Literal(c2)) => c1 == c2,
        (Regex::Concat(l1, r1), Regex::Concat(l2, r2)) => regex_eq(l1, l2) && regex_eq(r1, r2),
        (Regex::Or(l1, r1), Regex::Or(l2, r2)) => regex_eq(l1, l2) && regex_eq(r1, r2),
        (Regex::ZeroOrOne(i1), Regex::ZeroOrOne(i2)) => regex_eq(i1, i2),
        (Regex::ZeroOrMore(i1), Regex::ZeroOrMore(i2)) => regex_eq(i1, i2),
        (Regex::OneOrMore(i1), Regex::OneOrMore(i2)) => regex_eq(i1, i2),
        (Regex::Class(v1), Regex::Class(v2)) => ranges_eq(v1, v2),
        (Regex::Count(i1, c1), Regex::Count(i2, c2)) => regex_eq(i1, i2) && *c1 == *c2,
        _ => false,
    }
}

fn ranges_eq(v1: &Vec<CharRange>, v2: &Vec<CharRange>) -> (r: bool)
    ensures
        r == (v1@ == v2@),
{
    if v1.len() != v2.len() {
        return false;
    }
    let mut i: usize = 0;
    while i < v1.len()
        invariant
            i <= v1.len(),
            v1.len() == v2.len(),
            forall|j: int| 0 <= j < i ==> v1@[j] == v2@[j],
        decreases v1.len() - i,
    {
        if !(v1[i] == v2[i]) {
            return false;
        }
        i += 1;
    }
    proof {
        assert(v1@ =~= v2@);
    }
    true
}

impl PartialEq for Regex {
    fn eq(&self, other: &Self) -> (r: bool) {
        regex_eq(self, other)
    }
}

impl Eq for Regex {}

impl vstd::std_specs::cmp::PartialEqSpecImpl for Regex {
    open spec fn obeys_eq_spec() -> bool {
        true
    }

    open spec fn eq_spec(&self, other: &Self) -> bool {
        self@ == other@
    }
}

/// A deep copy whose result has the same mathematical value as the input.
fn clone_regex(r: &Regex) -> (res: Regex)
    ensures
        res@ == r@,
    decreases *r,
{
    match r {
        Regex::Empty => Regex::Empty,
        Regex::Epsilon => Regex::Epsilon,
        Regex::Literal(c) => Regex::Literal(*c),
        Regex::Concat(l, r2) => Regex::Concat(
            Box::new(clone_regex(l)),
            Box::new(clone_regex(r2)),
        ),
        Regex::Or(l, r2) => Regex::Or(Box::new(clone_regex(l)), Box::new(clone_regex(r2))),
        Regex::ZeroOrOne(inner) => Regex::ZeroOrOne(Box::new(clone_regex(inner))),
        Regex::ZeroOrMore(inner) => Regex::ZeroOrMore(Box::new(clone_regex(inner))),
        Regex::OneOrMore(inner) => Regex::OneOrMore(Box::new(clone_regex(inner))),
        Regex::Class(ranges) => Regex::Class(clone_ranges(ranges)),
        Regex::Count(inner, count) => Regex::Count(Box::new(clone_regex(inner)), *count),
    }
}

fn clone_ranges(v: &Vec<CharRange>) -> (res: Vec<CharRange>)
    ensures
        res@ == v@,
{
    let mut res: Vec<CharRange> = Vec::new();
    let mut i: usize = 0;
    while i < v.len()
        invariant
            i <= v.len(),
            res@ == v@.take(i as int),
        decreases v.len() - i,
    {
        res.push(v[i]);
        proof {
            assert(res@ =~= v@.take(i + 1 as int));
        }
        i += 1;
    }
    proof {
        assert(v@.take(v@.len() as int) =~= v@);
    }
    res
}

impl Clone for Regex {
    /// A deep copy: the clone has the same mathematical value as the source.
    fn clone(&self) -> (res: Self)
        ensures
            res@ == self@,
    {
        clone_regex(self)
    }
}

impl CharRange {
    /// Whether the character `c` belongs to this range.
    pub open spec fn spec_contains(self, c: char) -> bool {
        match self {
            CharRange::Single(ch) => ch == c,
            CharRange::Range(start, end) => start <= c && c <= end,
        }
    }

    /// Returns `true` if the given character is in the range, otherwise
    /// returns `false`.
    pub fn contains(&self, c: &char) -> (r: bool)
        ensures
            r == self.spec_contains(*c),
    {
        match self {
            CharRange::Single(ch) => *ch == *c,
            CharRange::Range(start, end) => *start <= *c && *c <= *end,
        }
    }
}

/// A weighted node count. The weights make the measure strictly decrease
/// across the desugaring steps of the derivative (`r?` to `r|ε`, `r+` to
/// `r r*`), so it serves as the termination measure for both the simplifier
/// and the derivative.
pub open spec fn wsize(r: SpecRegex) -> nat
    decreases r,
{
    match r {
        SpecRegex::Empty => 1,
        SpecRegex::Epsilon => 1,
        SpecRegex::Literal(_) => 1,
        SpecRegex::Concat(l, r2) => 1 + wsize(*l) + wsize(*r2),
        SpecRegex::Or(l, r2) => 1 + wsize(*l) + wsize(*r2),
        SpecRegex::ZeroOrOne(inner) => 3 + wsize(*inner),
        SpecRegex::ZeroOrMore(inner) => 1 + wsize(*inner),
        SpecRegex::OneOrMore(inner) => 3 + 2 * wsize(*inner),
        SpecRegex::Class(_) => 1,
        SpecRegex::Count(inner, _) => 1 + wsize(*inner),
    }
}

/// The character a class entry is sorted by: the single character, or the
/// start of the range.
pub open spec fn class_key(r: CharRange) -> char {
    match r {
        CharRange::Single(c) => c,
        CharRange::Range(start, _) => start,
    }
}

/// A degenerate range `x-x` becomes the single character `x`.
pub open spec fn normalize_range(r: CharRange) -> CharRange {
    match r {
        CharRange::Single(_) => r,
        CharRange::Range(start, end) => if start == end {
            CharRange::Single(start)
        } else {
            r
        },
    }
}

/// Degenerate-range conversion applied to every entry of a class.
pub open spec fn normalize_ranges(s: Seq<CharRange>) -> Seq<CharRange> {
    s.map_values(|r: CharRange| normalize_range(r))
}

/// Stable insertion of `x` into a key-sorted sequence: `x` goes in front of
/// the first entry whose key is not below its own.
pub open spec fn insert_sorted(x: CharRange, s: Seq<CharRange>) -> Seq<CharRange>
    decreases s.len(),
{
    if s.len() == 0 {
        seq![x]
    } else if class_key(x) <= class_key(s[0]) {
        seq![x] + s
    } else {
        seq![s[0]] + insert_sorted(x, s.drop_first())
    }
}

/// Stable sort of class entries by their start character, so that structural
/// equality of classes is independent of the order ranges were written in.
pub open spec fn sort_ranges(s: Seq<CharRange>) -> Seq<CharRange>
    decreases s.len(),
{
    if s.len() == 0 {
        Seq::empty()
    } else {
        insert_sorted(s[0], sort_ranges(s.drop_first()))
    }
}

/// The canonical form of a character class: degenerate ranges become single
/// characters, a class of exactly one single character collapses to a
/// literal, and anything else is sorted by start character.
pub open spec fn simp_class(ranges: Seq<CharRange>) -> SpecRegex {
    let conv = normalize_ranges(ranges);
    if conv.len() == 1 {
        match conv[0] {
            CharRange::Single(c) => SpecRegex::Literal(c),
            CharRange::Range(_, _) => SpecRegex::Class(sort_ranges(conv)),
        }
    } else {
        SpecRegex::Class(sort_ranges(conv))
    }
}

/// The canonicalizing rewrite, applied bottom-up. The `Count` arm that
/// canonicalizes `r{n,n}` into `r{n}` re-simplifies the rebuilt node, which
/// passes the already simplified inner expression through `simp` a second
/// time; the conditional guarding that second pass is the termination
/// measure's guard and always holds (`lemma_simp_wsize`).
pub open spec fn simp(r: SpecRegex) -> SpecRegex
    decreases wsize(r),
{
    match r {
        SpecRegex::Empty => SpecRegex::Empty,
        SpecRegex::Epsilon => SpecRegex::Epsilon,
        SpecRegex::Literal(c) => SpecRegex::Literal(c),
        SpecRegex::Concat(l, r2) => {
            let ls = simp(*l);
            let rs = simp(*r2);
            if ls == SpecRegex::Empty || rs == SpecRegex::Empty {
                SpecRegex::Empty
            } else if ls == SpecRegex::Epsilon {
                rs
            } else if rs == SpecRegex::Epsilon {
                ls
            } else {
                SpecRegex::Concat(Box::new(ls), Box::new(rs))
            }
        },
        SpecRegex::Or(l, r2) => {
            let ls = simp(*l);
            let rs = simp(*r2);
            if ls == SpecRegex::Empty {
                rs
            } else if rs == SpecRegex::Empty {
                ls
            } else if ls == rs {
                ls
            } else {
                SpecRegex::Or(Box::new(ls), Box::new(rs))
            }
        },
        SpecRegex::ZeroOrOne(inner) => simp(*inner),
        SpecRegex::ZeroOrMore(inner) => {
            if *inner == SpecRegex::Empty || *inner == SpecRegex::Epsilon {
                SpecRegex::Epsilon
            } else {
                let is = simp(*inner);
                if is matches SpecRegex::ZeroOrMore(_) {
                    is
                } else {
                    SpecRegex::ZeroOrMore(Box::new(is))
                }
            }
        },
        SpecRegex::OneOrMore(inner) => {
            let is = simp(*inner);
            if is == SpecRegex::Epsilon {
                SpecRegex::Epsilon
            } else {
                SpecRegex::OneOrMore(Box::new(is))
            }
        },
        SpecRegex::Class(ranges) => simp_class(ranges),
        SpecRegex::Count(inner, c) => {
            let is = simp(*inner);
            if is == SpecRegex::Empty {
                SpecRegex::Empty
            } else if is == SpecRegex::Epsilon {
                SpecRegex::Epsilon
            } else if c.max == Some(c.min) {
                let is2 = if wsize(is) <= wsize(*inner) {
                    simp(is)
                } else {
                    is
                };
                if is2 == SpecRegex::Empty {
                    SpecRegex::Empty
                } else if is2 == SpecRegex::Epsilon {
                    SpecRegex::Epsilon
                } else if c.min == 0 {
                    SpecRegex::Epsilon
                } else if c.min == 1 {
                    is2
                } else {
                    SpecRegex::Count(Box::new(is2), Count { min: c.min, max: None })
                }
            } else if c.min == 0 && c.max is None {
                SpecRegex::Epsilon
            } else if c.min == 1 && c.max is None {
                is
            } else {
                SpecRegex::Count(Box::new(is), c)
            }
        },
    }
}

/// Simplification never grows the termination measure.
pub proof fn lemma_simp_wsize(r: SpecRegex)
    ensures
        wsize(simp(r)) <= wsize(r),
    decreases wsize(r),
{
    match r {
        SpecRegex::Concat(l, r2) => {
            lemma_simp_wsize(*l);
            lemma_simp_wsize(*r2);
        },
        SpecRegex::Or(l, r2) => {
            lemma_simp_wsize(*l);
            lemma_simp_wsize(*r2);
        },
        SpecRegex::ZeroOrOne(inner) => {
            lemma_simp_wsize(*inner);
        },
        SpecRegex::ZeroOrMore(inner) => {
            lemma_simp_wsize(*inner);
        },
        SpecRegex::OneOrMore(inner) => {
            lemma_simp_wsize(*inner);
        },
        SpecRegex::Count(inner, c) => {
            lemma_simp_wsize(*inner);
            if c.max == Some(c.min) && wsize(simp(*inner)) <= wsize(*inner) {
                lemma_simp_wsize(simp(*inner));
            }
        },
        _ => {},
    }
}

fn is_empty_node(r: &Regex) -> (b: bool)
    ensures
        b == (r@ == SpecRegex::Empty),
{
    match r {
        Regex::Empty => true,
        _ => false,
    }
}

fn is_epsilon_node(r: &Regex) -> (b: bool)
    ensures
        b == (r@ == SpecRegex::Epsilon),
{
    match r {
        Regex::Epsilon => true,
        _ => false,
    }
}

fn is_star_node(r: &Regex) -> (b: bool)
    ensures
        b == (r@ matches SpecRegex::ZeroOrMore(_)),
{
    match r {
        Regex::ZeroOrMore(_) => true,
        _ => false,
    }
}

fn range_key(r: &CharRange) -> (c: char)
    ensures
        c == class_key(*r),
{
    match r {
        CharRange::Single(ch) => *ch,
        CharRange::Range(start, _) => *start,
    }
}

fn normalize_vec(v: &Vec<CharRange>) -> (res: Vec<CharRange>)
    ensures
        res@ == normalize_ranges(v@),
{
    let mut res: Vec<CharRange> = Vec::new();
    let mut i: usize = 0;
    while i < v.len()
        invariant
            i <= v.len(),
            res@.len() == i,
            forall|j: int| 0 <= j < i ==> res@[j] == normalize_range(v@[j]),
        decreases v.len() - i,
    {
        let converted = match v[i] {
            CharRange::Range(start, end) => {
                if start == end {
                    CharRange::Single(start)
                } else {
                    CharRange::Range(start, end)
                }
            },
            CharRange::Single(c) => CharRange::Single(c),
        };
        res.push(converted);
        i += 1;
    }
    proof {
        assert(res@ =~= normalize_ranges(v@));
    }
    res
}

/// Inserting in front of the first entry with a key not below `x`'s is what
/// `insert_sorted` computes.
proof fn lemma_insert_sorted_at(x: CharRange, s: Seq<CharRange>, p: int)
    requires
        0 <= p <= s.len(),
        forall|j: int| 0 <= j < p ==> class_key(s[j]) < class_key(x),
        p < s.len() ==> class_key(x) <= class_key(s[p]),
    ensures
        insert_sorted(x, s) == s.take(p) + seq![x] + s.skip(p),
    decreases p,
{
    if s.len() == 0 {
        assert(s.take(p) + seq![x] + s.skip(p) =~= seq![x]);
    } else if p == 0 {
        assert(s.take(0) + seq![x] + s.skip(0) =~= seq![x] + s);
    } else {
        lemma_insert_sorted_at(x, s.drop_first(), p - 1);
        assert(s.drop_first().take(p - 1) =~= s.take(p).drop_first());
        assert(s.drop_first().skip(p - 1) =~= s.skip(p));
        assert(seq![s[0]] + (s.take(p).drop_first() + seq![x] + s.skip(p)) =~= s.take(p) + seq![
            x,
        ] + s.skip(p));
    }
}

fn insert_range(x: CharRange, s: &Vec<CharRange>) -> (res: Vec<CharRange>)
    ensures
        res@ == insert_sorted(x, s@),
{
    let kx = range_key(&x);
    let mut res: Vec<CharRange> = Vec::new();
    let mut i: usize = 0;
    while i < s.len() && range_key(&s[i]) < kx
        invariant
            i <= s.len(),
            kx == class_key(x),
            res@ == s@.take(i as int),
            forall|j: int| 0 <= j < i ==> class_key(s@[j]) < class_key(x),
        decreases s.len() - i,
    {
        res.push(s[i]);
        proof {
            assert(res@ =~= s@.take(i + 1 as int));
        }
        i += 1;
    }
    let ghost p = i as int;
    res.push(x);
    let mut j: usize = i;
    while j < s.len()
        invariant
            p <= j <= s.len(),
            0 <= p <= s.len(),
            res@ == s@.take(p) + seq![x] + s@.subrange(p, j as int),
        decreases s.len() - j,
    {
        res.push(s[j]);
        proof {
            assert(res@ =~= s@.take(p) + seq![x] + s@.subrange(p, j + 1 as int));
        }
        j += 1;
    }
    proof {
        lemma_insert_sorted_at(x, s@, p);
        assert(s@.subrange(p, s@.len() as int) =~= s@.skip(p));
    }
    res
}

fn sort_ranges_vec(s: &Vec<CharRange>) -> (res: Vec<CharRange>)
    ensures
        res@ == sort_ranges(s@),
{
    let mut res: Vec<CharRange> = Vec::new();
    let mut i: usize = s.len();
    proof {
        assert(s@.skip(s@.len() as int) =~= Seq::<CharRange>::empty());
    }
    while i > 0
        invariant
            i <= s.len(),
            res@ == sort_ranges(s@.skip(i as int)),
        decreases i,
    {
        i -= 1;
        res = insert_range(s[i], &res);
        proof {
            assert(s@.skip(i as int).drop_first() =~= s@.skip(i + 1 as int));
            assert(s@.skip(i as int)[0] == s@[i as int]);
        }
    }
    proof {
        assert(s@.skip(0) =~= s@);
    }
    res
}

impl Regex {
    /// Simplifies the regex into its canonical form.
    pub fn simplify(&self) -> (res: Self)
        ensures
            res@ == simp(self@),
        decreases wsize(self@),
    {
        match self {
            Regex::Empty => Regex::Empty,
            Regex::Epsilon => Regex::Epsilon,
            Regex::Literal(c) => Regex::Literal(*c),
            Regex::Concat(left, right) => {
                let ls = left.simplify();
                let rs = right.simplify();
                if is_empty_node(&ls) || is_empty_node(&rs) {
                    Regex::Empty
                } else if is_epsilon_node(&ls) {
                    rs
                } else if is_epsilon_node(&rs) {
                    ls
                } else {
                    Regex::Concat(Box::new(ls), Box::new(rs))
                }
            },
            Regex::Or(left, right) => {
                let ls = left.simplify();
                let rs = right.simplify();
                if is_empty_node(&ls) {
                    rs
                } else if is_empty_node(&rs) {
                    ls
                } else if regex_eq(&ls, &rs) {
                    ls
                } else {
                    Regex::Or(Box::new(ls), Box::new(rs))
                }
            },
            Regex::ZeroOrOne(inner) => inner.simplify(),
            Regex::ZeroOrMore(inner) => {
                if is_empty_node(inner) || is_epsilon_node(inner) {
                    Regex::Epsilon
                } else {
                    let is = inner.simplify();
                    if is_star_node(&is) {
                        is
                    } else {
                        Regex::ZeroOrMore(Box::new(is))
                    }
                }
            },
            Regex::OneOrMore(inner) => {
                let is = inner.simplify();
                if is_epsilon_node(&is) {
                    Regex::Epsilon
                } else {
                    Regex::OneOrMore(Box::new(is))
                }
            },
            Regex::Class(ranges) => {
                let conv = normalize_vec(ranges);
                if conv.len() == 1 {
                    match conv[0] {
                        CharRange::Single(c) => {
                            return Regex::Literal(c);
                        },
                        CharRange::Range(_, _) => {},
                    }
                }
                Regex::Class(sort_ranges_vec(&conv))
            },
            Regex::Count(inner, count) => {
                let is = inner.simplify();
                if is_empty_node(&is) {
                    return Regex::Empty;
                }
                if is_epsilon_node(&is) {
                    return Regex::Epsilon;
                }
                let exact = match count.max {
                    Some(m) => m == count.min,
                    None => false,
                };
                if exact {
                    proof {
                        lemma_simp_wsize(inner@);
                    }
                    let is2 = is.simplify();
                    if is_empty_node(&is2) {
                        Regex::Empty
                    } else if is_epsilon_node(&is2) {
                        Regex::Epsilon
                    } else if count.min == 0 {
                        Regex::Epsilon
                    } else if count.min == 1 {
                        is2
                    } else {
                        Regex::Count(Box::new(is2), Count { min: count.min, max: None })
                    }
                } else if count.min == 0 && count.max.is_none() {
                    Regex::Epsilon
                } else if count.min == 1 && count.max.is_none() {
                    is
                } else {
                    Regex::Count(Box::new(is), *count)
                }
            },
        }
    }
}

/// Nullability: whether the language of `r` contains the empty string.
pub open spec fn spec_nullable(r: SpecRegex) -> bool
    decreases r,
{
    match r {
        SpecRegex::Empty => false,
        SpecRegex::Epsilon => true,
        SpecRegex::Literal(_) => false,
        SpecRegex::Concat(l, r2) => spec_nullable(*l) && spec_nullable(*r2),
        SpecRegex::Or(l, r2) => spec_nullable(*l) || spec_nullable(*r2),
        SpecRegex::ZeroOrOne(_) => true,
        SpecRegex::ZeroOrMore(_) => true,
        SpecRegex::OneOrMore(inner) => spec_nullable(*inner),
        SpecRegex::Class(_) => false,
        SpecRegex::Count(inner, count) => count.min == 0 || spec_nullable(*inner),
    }
}

/// `Epsilon` if `r` is nullable, `Empty` otherwise; the value form of
/// nullability used inside the derivative of a concatenation.
pub open spec fn spec_nullable_regex(r: SpecRegex) -> SpecRegex {
    if spec_nullable(r) {
        SpecRegex::Epsilon
    } else {
        SpecRegex::Empty
    }
}

/// Whether any range of the class contains `c`.
pub open spec fn class_contains(ranges: Seq<CharRange>, c: char) -> bool {
    exists|i: int| 0 <= i < ranges.len() && ranges[i].spec_contains(c)
}

/// A count decremented by one on both bounds, saturating at zero.
pub open spec fn dec_count(c: Count) -> Count {
    Count {
        min: if c.min == 0 {
            0usize
        } else {
            (c.min - 1) as usize
        },
        max: match c.max {
            Some(m) => Some(
                if m == 0 {
                    0usize
                } else {
                    (m - 1) as usize
                },
            ),
            None => None,
        },
    }
}

/// The Brzozowski derivative with respect to `c`, with the canonicalizing
/// simplification applied to the result of every step. `r?` differentiates
/// as `r|ε` and `r+` as `r r*`, so those two arms take the derivative of a
/// desugared node.
pub open spec fn deriv(r: SpecRegex, c: char) -> SpecRegex
    decreases wsize(r),
    via deriv_decreases
{
    simp(
        match r {
            SpecRegex::Empty => SpecRegex::Empty,
            SpecRegex::Epsilon => SpecRegex::Empty,
            SpecRegex::Literal(ch) => if ch == c {
                SpecRegex::Epsilon
            } else {
                SpecRegex::Empty
            },
            SpecRegex::Concat(l, r2) => SpecRegex::Or(
                Box::new(simp(SpecRegex::Concat(Box::new(deriv(*l, c)), r2))),
                Box::new(
                    simp(
                        SpecRegex::Concat(
                            Box::new(spec_nullable_regex(*l)),
                            Box::new(deriv(*r2, c)),
                        ),
                    ),
                ),
            ),
            SpecRegex::Or(l, r2) => SpecRegex::Or(
                Box::new(deriv(*l, c)),
                Box::new(deriv(*r2, c)),
            ),
            SpecRegex::ZeroOrOne(inner) => deriv(
                SpecRegex::Or(inner, Box::new(SpecRegex::Epsilon)),
                c,
            ),
            SpecRegex::ZeroOrMore(inner) => SpecRegex::Concat(
                Box::new(deriv(*inner, c)),
                Box::new(simp(SpecRegex::ZeroOrMore(inner))),
            ),
            SpecRegex::OneOrMore(inner) => deriv(
                SpecRegex::Concat(inner, Box::new(simp(SpecRegex::ZeroOrMore(inner)))),
                c,
            ),
            SpecRegex::Class(ranges) => if class_contains(ranges, c) {
                SpecRegex::Epsilon
            } else {
                SpecRegex::Empty
            },
            SpecRegex::Count(inner, count) => SpecRegex::Concat(
                Box::new(deriv(*inner, c)),
                Box::new(SpecRegex::Count(inner, dec_count(count))),
            ),
        },
    )
}

#[via_fn]
proof fn deriv_decreases(r: SpecRegex, c: char) {
    match r {
        SpecRegex::ZeroOrOne(inner) => {
            assert(wsize(SpecRegex::Epsilon) == 1);
            assert(wsize(SpecRegex::Or(inner, Box::new(SpecRegex::Epsilon))) == 2 + wsize(
                *inner,
            ));
        },
        SpecRegex::OneOrMore(inner) => {
            lemma_simp_wsize(SpecRegex::ZeroOrMore(inner));
            assert(wsize(SpecRegex::ZeroOrMore(inner)) == 1 + wsize(*inner));
            assert(wsize(
                SpecRegex::Concat(inner, Box::new(simp(SpecRegex::ZeroOrMore(inner)))),
            ) == 1 + wsize(*inner) + wsize(simp(SpecRegex::ZeroOrMore(inner))));
        },
        _ => {},
    }
}

fn class_match(ranges: &Vec<CharRange>, c: char) -> (b: bool)
    ensures
        b == class_contains(ranges@, c),
{
    let mut i: usize = 0;
    while i < ranges.len()
        invariant
            i <= ranges.len(),
            forall|j: int| 0 <= j < i ==> !ranges@[j].spec_contains(c),
        decreases ranges.len() - i,
    {
        if ranges[i].contains(&c) {
            return true;
        }
        i += 1;
    }
    false
}

impl Regex {
    /// Returns the Brzozowski derivative of the regex with respect to a given
    /// character.
    pub fn derivative(&self, c: char) -> (res: Self)
        ensures
            res@ == deriv(self@, c),
        decreases wsize(self@),
    {
        match self {
            Regex::Empty => {
                Regex::Empty.simplify()
            },
            Regex::Epsilon => {
                Regex::Empty.simplify()
            },
            Regex::Literal(ch) => {
                let step = if *ch == c {
                    Regex::Epsilon
                } else {
                    Regex::Empty
                };
                step.simplify()
            },
            Regex::Concat(left, right) => {
                let first = Regex::Concat(
                    Box::new(left.derivative(c)),
                    Box::new(clone_regex(right)),
                ).simplify();
                let second = Regex::Concat(
                    Box::new(left.is_nullable()),
                    Box::new(right.derivative(c)),
                ).simplify();
                Regex::Or(Box::new(first), Box::new(second)).simplify()
            },
            Regex::Or(left, right) => {
                let step = Regex::Or(
                    Box::new(left.derivative(c)),
                    Box::new(right.derivative(c)),
                );
                step.simplify()
            },
            Regex::ZeroOrOne(inner) => {
                let desugared = Regex::Or(Box::new(clone_regex(inner)), Box::new(Regex::Epsilon));
                proof {
                    assert(Regex::Epsilon@ == SpecRegex::Epsilon);
                    assert(desugared@ == SpecRegex::Or(
                        Box::new(inner@),
                        Box::new(SpecRegex::Epsilon),
                    ));
                    assert(wsize(SpecRegex::Epsilon) == 1);
                    assert(wsize(desugared@) == 2 + wsize(inner@));
                }
                desugared.derivative(c).simplify()
            },
            Regex::ZeroOrMore(inner) => {
                let step = Regex::Concat(
                    Box::new(inner.derivative(c)),
                    Box::new(Regex::ZeroOrMore(Box::new(clone_regex(inner))).simplify()),
                );
                step.simplify()
            },
            Regex::OneOrMore(inner) => {
                let desugared = Regex::Concat(
                    Box::new(clone_regex(inner)),
                    Box::new(Regex::ZeroOrMore(Box::new(clone_regex(inner))).simplify()),
                );
                proof {
                    lemma_simp_wsize(SpecRegex::ZeroOrMore(Box::new(inner@)));
                    assert(desugared@ == SpecRegex::Concat(
                        Box::new(inner@),
                        Box::new(simp(SpecRegex::ZeroOrMore(Box::new(inner@)))),
                    ));
                    assert(wsize(SpecRegex::ZeroOrMore(Box::new(inner@))) == 1 + wsize(inner@));
                    assert(wsize(desugared@) == 1 + wsize(inner@) + wsize(
                        simp(SpecRegex::ZeroOrMore(Box::new(inner@))),
                    ));
                }
                desugared.derivative(c).simplify()
            },
            Regex::Class(ranges) => {
                let step = if class_match(ranges, c) {
                    Regex::Epsilon
                } else {
                    Regex::Empty
                };
                step.simplify()
            },
            Regex::Count(inner, count) => {
                let new_count = Count {
                    min: if count.min == 0 {
                        0
                    } else {
                        count.min - 1
                    },
                    max: match count.max {
                        Some(m) => Some(
                            if m == 0 {
                                0
                            } else {
                                m - 1
                            },
                        ),
                        None => None,
                    },
                };
                let tail = Regex::Count(Box::new(clone_regex(inner)), new_count);
                proof {
                    assert(tail@ == SpecRegex::Count(Box::new(inner@), new_count));
                }
                let step = Regex::Concat(Box::new(inner.derivative(c)), Box::new(tail));
                step.simplify()
            },
        }
    }
}

impl Regex {
    fn is_nullable_(&self) -> (b: bool)
        ensures
            b == spec_nullable(self@),
        decreases *self,
    {
        match self {
            Regex::Empty => false,
            Regex::Epsilon => true,
            Regex::Literal(_) => false,
            Regex::Concat(left, right) => left.is_nullable_() && right.is_nullable_(),
            Regex::Or(left, right) => left.is_nullable_() || right.is_nullable_(),
            Regex::ZeroOrOne(_) => true,
            Regex::ZeroOrMore(_) => true,
            Regex::OneOrMore(inner) => inner.is_nullable_(),
            Regex::Class(_) => false,
            Regex::Count(inner, count) => {
                if count.min == 0 {
                    true
                } else {
                    inner.is_nullable_()
                }
            },
        }
    }

    /// If the regex is nullable, returns `Regex::Epsilon`, otherwise returns
    /// `Regex::Empty`.
    pub fn is_nullable(&self) -> (r: Self)
        ensures
            r@ == spec_nullable_regex(self@),
    {
        if self.is_nullable_() {
            Regex::Epsilon
        } else {
            Regex::Empty
        }
    }
}

/// The derivative folded over a whole string, character by character.
pub open spec fn deriv_str(r: SpecRegex, s: Seq<char>) -> SpecRegex
    decreases s.len(),
{
    if s.len() == 0 {
        r
    } else {
        deriv_str(deriv(r, s[0]), s.drop_first())
    }
}

/// Whole-string matching: the residual expression after consuming every
/// character of `s` accepts the empty string.
pub open spec fn spec_matches(r: SpecRegex, s: Seq<char>) -> bool {
    spec_nullable(deriv_str(r, s))
}

impl Regex {
    /// Returns `true` if the regex matches the whole of the given string,
    /// otherwise returns `false`.
    pub fn matches(&self, s: &str) -> (b: bool)
        ensures
            b == spec_matches(self@, s@),
    {
        let mut current = clone_regex(self);
        let n = s.unicode_len();
        let mut i: usize = 0;
        proof {
            assert(s@.skip(0) =~= s@);
        }
        while i < n
            invariant
                i <= n,
                n == s@.len(),
                deriv_str(self@, s@) == deriv_str(current@, s@.skip(i as int)),
            decreases n - i,
        {
            let c = s.get_char(i);
            current = current.derivative(c);
            proof {
                assert(s@.skip(i as int).drop_first() =~= s@.skip(i + 1 as int));
            }
            i += 1;
        }
        proof {
            assert(s@.skip(n as int) =~= Seq::<char>::empty());
        }
        current.is_nullable_()
    }

    /// The canonical zero-or-more form of this regex (e.g., `a*`), already
    /// simplified.
    pub fn star(self) -> (r: Self)
        ensures
            r@ == simp(SpecRegex::ZeroOrMore(Box::new(self@))),
    {
        Regex::ZeroOrMore(Box::new(self)).simplify()
    }

    /// The canonical one-or-more form of this regex (e.g., `a+`), already
    /// simplified.
    pub fn plus(self) -> (r: Self)
        ensures
            r@ == simp(SpecRegex::OneOrMore(Box::new(self@))),
    {
        Regex::OneOrMore(Box::new(self)).simplify()
    }

    /// The canonical zero-or-one form of this regex (e.g., `a?`), already
    /// simplified.
    pub fn optional(self) -> (r: Self)
        ensures
            r@ == simp(SpecRegex::ZeroOrOne(Box::new(self@))),
    {
        Regex::ZeroOrOne(Box::new(self)).simplify()
    }

    /// Tries to parse a string into a `Regex`.
    pub fn new(s: &str) -> (res: Result<Self, crate::parser::ParseError>)
        ensures
            res matches Ok(r) ==> crate::parser::spec_parse(s@) == Ok::<
                SpecRegex,
                crate::parser::ParseError,
            >(r@),
            res matches Err(e) ==> crate::parser::spec_parse(s@) == Err::<
                SpecRegex,
                crate::parser::ParseError,
            >(e),
    {
        crate::parser::parse_string_to_regex(s)
    }
}

/// One pattern character as written back out: escaped with a backslash
/// where the surrounding context requires it.
pub open spec fn spec_escape_char(c: char, in_class: bool) -> Seq<char> {
    if in_class {
        if crate::parser::must_escape_in_class(c) {
            seq!['\\', c]
        } else {
            seq![c]
        }
    } else {
        if crate::parser::must_escape_outside_class(c) {
            seq!['\\', c]
        } else {
            seq![c]
        }
    }
}

/// The decimal digit `d` as a character.
pub open spec fn spec_digit_char(d: int) -> char {
    (d + 48) as char
}

/// `n` written in decimal, most significant digit first.
pub open spec fn spec_decimal(n: nat) -> Seq<char>
    decreases n,
{
    if n < 10 {
        seq![spec_digit_char(n as int)]
    } else {
        spec_decimal(n / 10).push(spec_digit_char((n % 10) as int))
    }
}

/// One class entry in pattern syntax.
pub open spec fn spec_display_range(r: CharRange) -> Seq<char> {
    match r {
        CharRange::Single(c) => spec_escape_char(c, true),
        CharRange::Range(start, end) => spec_escape_char(start, true) + seq!['-']
            + spec_escape_char(end, true),
    }
}

/// The entries of a class in pattern syntax, in order.
pub open spec fn spec_display_ranges(s: Seq<CharRange>) -> Seq<char>
    decreases s.len(),
{
    if s.len() == 0 {
        Seq::empty()
    } else {
        spec_display_range(s[0]) + spec_display_ranges(s.drop_first())
    }
}

/// A count quantifier in pattern syntax: `{min}` or `{min,max}`.
pub open spec fn spec_display_count(c: Count) -> Seq<char> {
    match c.max {
        Some(m) => seq!['{'] + spec_decimal(c.min as nat) + seq![','] + spec_decimal(m as nat)
            + seq!['}'],
        None => seq!['{'] + spec_decimal(c.min as nat) + seq!['}'],
    }
}

/// The canonical tree rendered back to pattern syntax. `Empty` and
/// `Epsilon` have no pattern syntax and are written with the usual symbols
/// of the algebra.
pub open spec fn spec_display(r: SpecRegex) -> Seq<char>
    decreases r,
{
    match r {
        SpecRegex::Empty => seq!['\u{2205}'],
        SpecRegex::Epsilon => seq!['\u{03b5}'],
        SpecRegex::Literal(c) => spec_escape_char(c, false),
        SpecRegex::Concat(l, r2) => spec_display(*l) + spec_display(*r2),
        SpecRegex::Or(l, r2) => seq!['('] + spec_display(*l) + seq!['|'] + spec_display(*r2)
            + seq![')'],
        SpecRegex::ZeroOrOne(inner) => seq!['('] + spec_display(*inner) + seq![')', '?'],
        SpecRegex::ZeroOrMore(inner) => seq!['('] + spec_display(*inner) + seq![')', '*'],
        SpecRegex::OneOrMore(inner) => seq!['('] + spec_display(*inner) + seq![')', '+'],
        SpecRegex::Class(ranges) => seq!['['] + spec_display_ranges(ranges) + seq![']'],
        SpecRegex::Count(inner, count) => seq!['('] + spec_display(*inner) + seq![')']
            + spec_display_count(count),
    }
}

/// Relies on `String::push`: appends exactly one character at the end.
#[verifier::external_body]
fn push_char(out: &mut String, c: char)
    ensures
        final(out)@ == old(out)@.push(c),
{
    out.push(c);
}

fn push_escaped(out: &mut String, c: char, in_class: bool)
    ensures
        final(out)@ == old(out)@ + spec_escape_char(c, in_class),
{
    let needs_escape = if in_class {
        crate::parser::is_escape_in_class(c)
    } else {
        crate::parser::is_escape_outside(c)
    };
    if needs_escape {
        push_char(out, '\\');
    }
    push_char(out, c);
    proof {
        if needs_escape {
            assert(old(out)@.push('\\').push(c) =~= old(out)@ + seq!['\\', c]);
        } else {
            assert(old(out)@.push(c) =~= old(out)@ + seq![c]);
        }
    }
}

fn push_decimal(out: &mut String, n: usize)
    ensures
        final(out)@ == old(out)@ + spec_decimal(n as nat),
    decreases n,
{
    if n < 10 {
        push_char(out, (48 + n as u8) as char);
        proof {
            assert((48 + n as u8) as char == spec_digit_char(n as int));
            assert(old(out)@.push(spec_digit_char(n as int)) =~= old(out)@ + seq![
                spec_digit_char(n as int),
            ]);
        }
    } else {
        push_decimal(out, n / 10);
        push_char(out, (48 + (n % 10) as u8) as char);
        proof {
            assert((48 + (n % 10) as u8) as char == spec_digit_char((n as nat % 10) as int));
            assert((old(out)@ + spec_decimal(n as nat / 10)).push(
                spec_digit_char((n as nat % 10) as int),
            ) =~= old(out)@ + spec_decimal(n as nat / 10).push(
                spec_digit_char((n as nat % 10) as int),
            ));
        }
    }
}

fn push_count_display(out: &mut String, c: &Count)
    ensures
        final(out)@ == old(out)@ + spec_display_count(*c),
{
    push_char(out, '{');
    push_decimal(out, c.min);
    match c.max {
        Some(m) => {
            push_char(out, ',');
            push_decimal(out, m);
            push_char(out, '}');
            proof {
                assert(old(out)@.push('{') =~= old(out)@ + seq!['{']);
                assert(final(out)@ =~= old(out)@ + spec_display_count(*c));
            }
        },
        None => {
            push_char(out, '}');
            proof {
                assert(old(out)@.push('{') =~= old(out)@ + seq!['{']);
                assert(final(out)@ =~= old(out)@ + spec_display_count(*c));
            }
        },
    }
}

fn push_ranges_display(out: &mut String, ranges: &Vec<CharRange>)
    ensures
        final(out)@ == old(out)@ + spec_display_ranges(ranges@),
{
    let mut i: usize = 0;
    proof {
        assert(ranges@.skip(0) =~= ranges@);
    }
    while i < ranges.len()
        invariant
            i <= ranges.len(),
            old(out)@ + spec_display_ranges(ranges@) == out@ + spec_display_ranges(
                ranges@.skip(i as int),
            ),
        decreases ranges.len() - i,
    {
        let r = ranges[i];
        match r {
            CharRange::Single(c) => {
                push_escaped(out, c, true);
            },
            CharRange::Range(start, end) => {
                push_escaped(out, start, true);
                push_char(out, '-');
                push_escaped(out, end, true);
            },
        }
        proof {
            assert(ranges@.skip(i as int).drop_first() =~= ranges@.skip(i + 1 as int));
            assert(ranges@.skip(i as int)[0] == ranges@[i as int]);
            match r {
                CharRange::Single(c) => {},
                CharRange::Range(start, end) => {
                    assert(spec_display_range(r) =~= spec_escape_char(start, true) + seq!['-']
                        + spec_escape_char(end, true));
                },
            }
        }
        i += 1;
    }
    proof {
        assert(ranges@.skip(ranges@.len() as int) =~= Seq::<CharRange>::empty());
    }
}

fn push_display(r: &Regex, out: &mut String)
    ensures
        final(out)@ == old(out)@ + spec_display(r@),
    decreases *r,
{
    match r {
        Regex::Empty => {
            push_char(out, '\u{2205}');
            proof {
                assert(final(out)@ =~= old(out)@ + spec_display(r@));
            }
        },
        Regex::Epsilon => {
            push_char(out, '\u{03b5}');
            proof {
                assert(final(out)@ =~= old(out)@ + spec_display(r@));
            }
        },
        Regex::Literal(c) => {
            push_escaped(out, *c, false);
        },
        Regex::Concat(left, right) => {
            push_display(left, out);
            push_display(right, out);
        },
        Regex::Or(left, right) => {
            push_char(out, '(');
            push_display(left, out);
            push_char(out, '|');
            push_display(right, out);
            push_char(out, ')');
            proof {
                assert(final(out)@ =~= old(out)@ + spec_display(r@));
            }
        },
        Regex::ZeroOrOne(inner) => {
            push_char(out, '(');
            push_display(inner, out);
            push_char(out, ')');
            push_char(out, '?');
            proof {
                assert(final(out)@ =~= old(out)@ + spec_display(r@));
            }
        },
        Regex::ZeroOrMore(inner) => {
            push_char(out, '(');
            push_display(inner, out);
            push_char(out, ')');
            push_char(out, '*');
            proof {
                assert(final(out)@ =~= old(out)@ + spec_display(r@));
            }
        },
        Regex::OneOrMore(inner) => {
            push_char(out, '(');
            push_display(inner, out);
            push_char(out, ')');
            push_char(out, '+');
            proof {
                assert(final(out)@ =~= old(out)@ + spec_display(r@));
            }
        },
        Regex::Class(ranges) => {
            push_char(out, '[');
            push_ranges_display(out, ranges);
            push_char(out, ']');
            proof {
                assert(final(out)@ =~= old(out)@ + spec_display(r@));
            }
        },
        Regex::Count(inner, count) => {
            push_char(out, '(');
            push_display(inner, out);
            push_char(out, ')');
            push_count_display(out, count);
            proof {
                assert(final(out)@ =~= old(out)@ + spec_display(r@));
            }
        },
    }
}

impl CharRange {
    /// Renders this class entry back to pattern syntax.
    pub fn to_display_string(&self) -> (s: String)
        ensures
            s@ == spec_display_range(*self),
    {
        let mut out = String::new();
        match self {
            CharRange::Single(c) => {
                push_escaped(&mut out, *c, true);
            },
            CharRange::Range(start, end) => {
                push_escaped(&mut out, *start, true);
                push_char(&mut out, '-');
                push_escaped(&mut out, *end, true);
                proof {
                    assert(out@ =~= spec_display_range(*self));
                }
            },
        }
        out
    }
}

impl Count {
    /// Renders this count back to pattern syntax: `{min}` or `{min,max}`.
    pub fn to_display_string(&self) -> (s: String)
        ensures
            s@ == spec_display_count(*self),
    {
        let mut out = String::new();
        push_count_display(&mut out, self);
        out
    }
}

impl Regex {
    /// Renders the canonical tree back to pattern syntax, escaping what the
    /// context requires. Meant for debugging and test oracles, not for
    /// round-tripping.
    pub fn to_display_string(&self) -> (s: String)
        ensures
            s@ == spec_display(self@),
    {
        let mut out = String::new();
        push_display(self, &mut out);
        out
    }
}

} // verus!
