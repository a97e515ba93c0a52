//! The algebraic laws of the simplifier: the identities it is built to
//! enforce, and the idempotence that keeps repeated differentiation from
//! growing trees.

use vstd::multiset::Multiset;
use vstd::prelude::*;

use crate::derivatives::{
    class_key, insert_sorted, lemma_simp_wsize, normalize_range, normalize_ranges, simp,
    simp_class, sort_ranges, wsize, CharRange, SpecRegex,
};

verus! {

/// Union with the empty language is dropped: `simplify(r | ∅) == simplify(r)`.
pub proof fn lemma_simplify_or_empty(r: SpecRegex)
    ensures
        simp(SpecRegex::Or(Box::new(r), Box::new(SpecRegex::Empty))) == simp(r),
{
    assert(simp(SpecRegex::Empty) == SpecRegex::Empty);
}

/// Concatenation with the empty string is dropped:
/// `simplify(r ε) == simplify(r)`.
pub proof fn lemma_simplify_concat_epsilon(r: SpecRegex)
    ensures
        simp(SpecRegex::Concat(Box::new(r), Box::new(SpecRegex::Epsilon))) == simp(r),
{
    assert(simp(SpecRegex::Epsilon) == SpecRegex::Epsilon);
}

/// Union is idempotent: `simplify(r | r) == simplify(r)`.
pub proof fn lemma_simplify_or_idempotent(r: SpecRegex)
    ensures
        simp(SpecRegex::Or(Box::new(r), Box::new(r))) == simp(r),
{
}

/// Star is idempotent: `simplify((r*)*) == simplify(r*)`. The two trees
/// only agree when `r` is not itself `Empty` or `Epsilon`: for those, the
/// inner star collapses to `Epsilon` and the outer star is left around it.
pub proof fn lemma_simplify_star_star(r: SpecRegex)
    requires
        !(r matches SpecRegex::Empty),
        !(r matches SpecRegex::Epsilon),
    ensures
        simp(SpecRegex::ZeroOrMore(Box::new(SpecRegex::ZeroOrMore(Box::new(r))))) == simp(
            SpecRegex::ZeroOrMore(Box::new(r)),
        ),
{
}

/// The inputs on which simplification reaches a fixed point in one pass:
/// every star body that simplifies away to `Empty` or `Epsilon` already is
/// `Empty` or `Epsilon` syntactically. The collapse rule for a star
/// inspects the body before simplification, so on other inputs (e.g. a
/// star of `Concat(Empty, Literal)`) it fires one pass late.
pub open spec fn star_bodies_apparent(r: SpecRegex) -> bool
    decreases r,
{
    match r {
        SpecRegex::Empty => true,
        SpecRegex::Epsilon => true,
        SpecRegex::Literal(_) => true,
        SpecRegex::Concat(l, r2) => star_bodies_apparent(*l) && star_bodies_apparent(*r2),
        SpecRegex::Or(l, r2) => star_bodies_apparent(*l) && star_bodies_apparent(*r2),
        SpecRegex::ZeroOrOne(inner) => star_bodies_apparent(*inner),
        SpecRegex::ZeroOrMore(inner) => ((simp(*inner) == SpecRegex::Empty || simp(*inner)
            == SpecRegex::Epsilon) ==> (*inner == SpecRegex::Empty || *inner
            == SpecRegex::Epsilon)) && star_bodies_apparent(*inner),
        SpecRegex::OneOrMore(inner) => star_bodies_apparent(*inner),
        SpecRegex::Class(_) => true,
        SpecRegex::Count(inner, _) => star_bodies_apparent(*inner),
    }
}

/// Every entry of a normalized class is unchanged by another degenerate-
/// range conversion.
spec fn entries_normalized(s: Seq<CharRange>) -> bool {
    forall|i: int| 0 <= i < s.len() ==> normalize_range(s[i]) == #[trigger] s[i]
}

/// Sorted by start character.
spec fn ranges_sorted(s: Seq<CharRange>) -> bool {
    forall|a: int, b: int|
        0 <= a < b < s.len() ==> class_key(#[trigger] s[a]) <= class_key(#[trigger] s[b])
}

/// Prepending one entry inserts exactly it into the class's multiset.
proof fn lemma_cons_multiset(x: CharRange, s: Seq<CharRange>)
    ensures
        (seq![x] + s).to_multiset() == s.to_multiset().insert(x),
{
    broadcast use vstd::seq_lib::group_to_multiset_ensures;
    broadcast use vstd::multiset::group_multiset_axioms;

    vstd::seq_lib::lemma_multiset_commutative(seq![x], s);
    assert(seq![x] =~= Seq::<CharRange>::empty().push(x));
    assert(Seq::<CharRange>::empty().push(x).to_multiset() =~= Seq::<
        CharRange,
    >::empty().to_multiset().insert(x));
    assert(Seq::<CharRange>::empty().to_multiset() =~= Multiset::<CharRange>::empty());
    assert(Multiset::<CharRange>::empty().insert(x).add(s.to_multiset()) =~= s.to_multiset()
        .insert(x));
}

/// Inserting keeps a class sorted and adds exactly the new entry.
proof fn lemma_insert_sorted_props(x: CharRange, s: Seq<CharRange>)
    ensures
        insert_sorted(x, s).to_multiset() == s.to_multiset().insert(x),
        ranges_sorted(s) ==> ranges_sorted(insert_sorted(x, s)),
        insert_sorted(x, s).len() == s.len() + 1,
    decreases s.len(),
{
    broadcast use vstd::seq_lib::group_to_multiset_ensures;

    let out = insert_sorted(x, s);
    if s.len() == 0 {
        assert(out =~= seq![x] + s);
        lemma_cons_multiset(x, s);
    } else if class_key(x) <= class_key(s[0]) {
        assert(out =~= seq![x] + s);
        lemma_cons_multiset(x, s);
        if ranges_sorted(s) {
            assert forall|a: int, b: int| 0 <= a < b < out.len() implies class_key(
                #[trigger] out[a],
            ) <= class_key(#[trigger] out[b]) by {
                if a == 0 {
                    assert(out[b] == s[b - 1]);
                    if b > 1 {
                        assert(class_key(s[0]) <= class_key(s[b - 1]));
                    }
                } else {
                    assert(out[a] == s[a - 1] && out[b] == s[b - 1]);
                }
            }
        }
    } else {
        lemma_insert_sorted_props(x, s.drop_first());
        let rest = insert_sorted(x, s.drop_first());
        assert(out =~= seq![s[0]] + rest);
        lemma_cons_multiset(s[0], rest);
        assert(s =~= seq![s[0]] + s.drop_first());
        lemma_cons_multiset(s[0], s.drop_first());
        assert(s.drop_first().to_multiset().insert(x).insert(s[0]) =~= s.drop_first()
            .to_multiset().insert(s[0]).insert(x));
        assert(out.to_multiset() =~= s.to_multiset().insert(x));
        if ranges_sorted(s) {
            assert(ranges_sorted(s.drop_first())) by {
                assert(forall|a: int, b: int|
                    0 <= a < b < s.drop_first().len() ==> s.drop_first()[a] == s[a + 1]
                        && s.drop_first()[b] == s[b + 1]);
            }
            assert(ranges_sorted(rest));
            // every entry of the tail insert is either x or an entry of the
            // tail, so it is bounded below by the head's key
            assert forall|b: int| 0 <= b < rest.len() implies class_key(s[0]) <= class_key(
                #[trigger] rest[b],
            ) by {
                assert(rest.to_multiset().count(rest[b]) > 0);
                if rest[b] != x {
                    assert(s.drop_first().to_multiset().count(rest[b]) > 0);
                    assert(s.drop_first().contains(rest[b]));
                    let k = choose|k: int|
                        0 <= k < s.drop_first().len() && s.drop_first()[k] == rest[b];
                    assert(s[k + 1] == rest[b]);
                }
            }
            assert forall|a: int, b: int| 0 <= a < b < out.len() implies class_key(
                #[trigger] out[a],
            ) <= class_key(#[trigger] out[b]) by {
                if a > 0 {
                    assert(out[a] == rest[a - 1] && out[b] == rest[b - 1]);
                } else {
                    assert(out[b] == rest[b - 1]);
                }
            }
        }
    }
}

/// Sorting is a permutation and leaves the class sorted.
proof fn lemma_sort_ranges_props(s: Seq<CharRange>)
    ensures
        sort_ranges(s).to_multiset() == s.to_multiset(),
        ranges_sorted(sort_ranges(s)),
        sort_ranges(s).len() == s.len(),
    decreases s.len(),
{
    broadcast use vstd::seq_lib::group_to_multiset_ensures;

    if s.len() == 0 {
        assert(sort_ranges(s) =~= Seq::<CharRange>::empty());
    } else {
        lemma_sort_ranges_props(s.drop_first());
        lemma_insert_sorted_props(s[0], sort_ranges(s.drop_first()));
        assert(s =~= seq![s[0]] + s.drop_first());
        lemma_cons_multiset(s[0], s.drop_first());
        assert(sort_ranges(s).to_multiset() =~= s.to_multiset());
    }
}

/// Sorting an already sorted class changes nothing.
proof fn lemma_sort_of_sorted(s: Seq<CharRange>)
    requires
        ranges_sorted(s),
    ensures
        sort_ranges(s) == s,
    decreases s.len(),
{
    if s.len() == 0 {
        assert(sort_ranges(s) =~= s);
    } else {
        assert(ranges_sorted(s.drop_first())) by {
            assert(forall|a: int, b: int|
                0 <= a < b < s.drop_first().len() ==> s.drop_first()[a] == s[a + 1]
                    && s.drop_first()[b] == s[b + 1]);
        }
        lemma_sort_of_sorted(s.drop_first());
        let rest = s.drop_first();
        if rest.len() == 0 {
            assert(insert_sorted(s[0], rest) =~= seq![s[0]]);
            assert(seq![s[0]] =~= s);
        } else {
            assert(class_key(s[0]) <= class_key(rest[0]));
            assert(insert_sorted(s[0], rest) =~= seq![s[0]] + rest);
            assert(seq![s[0]] + rest =~= s);
        }
    }
}

/// Every entry of a permutation of a normalized class is normalized.
proof fn lemma_permutation_normalized(s1: Seq<CharRange>, s2: Seq<CharRange>)
    requires
        s1.to_multiset() == s2.to_multiset(),
        entries_normalized(s1),
    ensures
        entries_normalized(s2),
{
    broadcast use vstd::seq_lib::group_to_multiset_ensures;

    assert forall|i: int| 0 <= i < s2.len() implies normalize_range(s2[i]) == #[trigger] s2[i] by {
        assert(s2.to_multiset().count(s2[i]) > 0);
        assert(s1.contains(s2[i]));
        let k = choose|k: int| 0 <= k < s1.len() && s1[k] == s2[i];
        assert(normalize_range(s1[k]) == s1[k]);
    }
}

/// Simplification reaches a fixed point in one pass, on trees whose star
/// bodies do not collapse late (`star_bodies_apparent`). A second
/// simplification then changes nothing: `simplify(simplify(r)) ==
/// simplify(r)`.
pub proof fn lemma_simplify_idempotent(r: SpecRegex)
    requires
        star_bodies_apparent(r),
    ensures
        simp(simp(r)) == simp(r),
    decreases wsize(r),
{
    match r {
        SpecRegex::Empty => {},
        SpecRegex::Epsilon => {},
        SpecRegex::Literal(_) => {},
        SpecRegex::Concat(l, r2) => {
            lemma_simplify_idempotent(*l);
            lemma_simplify_idempotent(*r2);
        },
        SpecRegex::Or(l, r2) => {
            lemma_simplify_idempotent(*l);
            lemma_simplify_idempotent(*r2);
        },
        SpecRegex::ZeroOrOne(inner) => {
            lemma_simplify_idempotent(*inner);
        },
        SpecRegex::ZeroOrMore(inner) => {
            lemma_simplify_idempotent(*inner);
        },
        SpecRegex::OneOrMore(inner) => {
            lemma_simplify_idempotent(*inner);
        },
        SpecRegex::Class(ranges) => {
            lemma_simp_class_fixpoint(ranges);
        },
        SpecRegex::Count(inner, c) => {
            lemma_simplify_idempotent(*inner);
            lemma_simp_wsize(*inner);
        },
    }
}

/// A canonicalized class is already canonical.
proof fn lemma_simp_class_fixpoint(ranges: Seq<CharRange>)
    ensures
        simp(simp_class(ranges)) == simp_class(ranges),
{
    let conv = normalize_ranges(ranges);
    assert(entries_normalized(conv)) by {
        assert(forall|i: int|
            0 <= i < conv.len() ==> #[trigger] conv[i] == normalize_range(ranges[i]));
        assert(forall|x: CharRange| normalize_range(normalize_range(x)) == normalize_range(x));
    }
    if conv.len() == 1 && conv[0] matches CharRange::Single(_) {
        // collapses to a literal, which is trivially canonical
    } else {
        let sorted = sort_ranges(conv);
        lemma_sort_ranges_props(conv);
        lemma_permutation_normalized(conv, sorted);
        assert(simp_class(ranges) == SpecRegex::Class(sorted));
        // a second pass converts nothing, finds the same shape, and sorts a
        // sorted class
        let conv2 = normalize_ranges(sorted);
        assert(conv2 =~= sorted);
        lemma_sort_of_sorted(sorted);
        if conv.len() == 1 {
            assert(conv.drop_first().len() == 0);
            assert(sort_ranges(conv.drop_first()) =~= Seq::<CharRange>::empty());
            assert(sort_ranges(conv) =~= seq![conv[0]]);
            assert(sorted[0] == conv[0]);
        }
    }
}

/// No two entries share a start character.
pub open spec fn distinct_keys(s: Seq<CharRange>) -> bool {
    forall|a: int, b: int|
        0 <= a < b < s.len() ==> class_key(#[trigger] s[a]) != class_key(#[trigger] s[b])
}

/// A permutation of a class with pairwise distinct start characters also
/// has pairwise distinct start characters.
proof fn lemma_permutation_distinct_keys(s1: Seq<CharRange>, s2: Seq<CharRange>)
    requires
        s1.to_multiset() == s2.to_multiset(),
        distinct_keys(s1),
    ensures
        distinct_keys(s2),
{
    broadcast use vstd::seq_lib::group_to_multiset_ensures;
    broadcast use vstd::multiset::group_multiset_axioms;

    assert(s1.no_duplicates()) by {
        assert forall|i: int, j: int| 0 <= i < j < s1.len() implies s1[i] != s1[j] by {
            assert(class_key(s1[i]) != class_key(s1[j]));
        }
    }
    s1.lemma_multiset_has_no_duplicates();
    s2.lemma_multiset_has_no_duplicates_conv();
    assert forall|a: int, b: int| 0 <= a < b < s2.len() implies class_key(#[trigger] s2[a])
        != class_key(#[trigger] s2[b]) by {
        assert(s2[a] != s2[b]);
        assert(s1.contains(s2[a])) by {
            assert(s2.to_multiset().count(s2[a]) > 0);
        }
        assert(s1.contains(s2[b])) by {
            assert(s2.to_multiset().count(s2[b]) > 0);
        }
        let ka = choose|k: int| 0 <= k < s1.len() && s1[k] == s2[a];
        let kb = choose|k: int| 0 <= k < s1.len() && s1[k] == s2[b];
        assert(ka != kb);
        if ka < kb {
            assert(class_key(s1[ka]) != class_key(s1[kb]));
        } else {
            assert(class_key(s1[kb]) != class_key(s1[ka]));
        }
    }
}

/// Two key-sorted classes with the same entries and pairwise distinct keys
/// are the same sequence.
proof fn lemma_sorted_unique(s1: Seq<CharRange>, s2: Seq<CharRange>)
    requires
        ranges_sorted(s1),
        ranges_sorted(s2),
        s1.to_multiset() == s2.to_multiset(),
        distinct_keys(s1),
    ensures
        s1 == s2,
    decreases s1.len(),
{
    broadcast use vstd::seq_lib::group_to_multiset_ensures;
    broadcast use vstd::multiset::group_multiset_axioms;

    if s1.len() == 0 {
        assert(s2.len() == 0);
        assert(s1 =~= s2);
    } else {
        assert(s2.len() == s1.len()) by {
            assert(s1.to_multiset().len() == s1.len());
            assert(s2.to_multiset().len() == s2.len());
        }
        assert(s1.contains(s2[0])) by {
            assert(s2.to_multiset().count(s2[0]) > 0);
        }
        assert(s2.contains(s1[0])) by {
            assert(s1.to_multiset().count(s1[0]) > 0);
        }
        let k1 = choose|k: int| 0 <= k < s1.len() && s1[k] == s2[0];
        let k2 = choose|k: int| 0 <= k < s2.len() && s2[k] == s1[0];
        assert(class_key(s1[0]) <= class_key(s1[k1]));
        assert(class_key(s2[0]) <= class_key(s2[k2]));
        assert(class_key(s1[0]) == class_key(s2[0]));
        assert(k1 == 0);
        assert(s1[0] == s2[0]);
        let t1 = s1.drop_first();
        let t2 = s2.drop_first();
        assert(s1 =~= seq![s1[0]] + t1);
        assert(s2 =~= seq![s2[0]] + t2);
        lemma_cons_multiset(s1[0], t1);
        lemma_cons_multiset(s2[0], t2);
        assert(t1.to_multiset() =~= t2.to_multiset()) by {
            assert(t1.to_multiset().insert(s1[0]).remove(s1[0]) =~= t1.to_multiset());
            assert(t2.to_multiset().insert(s1[0]).remove(s1[0]) =~= t2.to_multiset());
        }
        assert(ranges_sorted(t1) && distinct_keys(t1)) by {
            assert(forall|a: int, b: int|
                0 <= a < b < t1.len() ==> t1[a] == s1[a + 1] && t1[b] == s1[b + 1]);
        }
        assert(ranges_sorted(t2)) by {
            assert(forall|a: int, b: int|
                0 <= a < b < t2.len() ==> t2[a] == s2[a + 1] && t2[b] == s2[b + 1]);
        }
        lemma_sorted_unique(t1, t2);
        assert(s1 =~= s2);
    }
}

/// Class canonicalization: two classes whose entries are the same up to
/// order (after degenerate-range conversion), with pairwise distinct start
/// characters, simplify to the same canonical tree.
pub proof fn lemma_class_canonicalization(rs1: Seq<CharRange>, rs2: Seq<CharRange>)
    requires
        normalize_ranges(rs1).to_multiset() == normalize_ranges(rs2).to_multiset(),
        distinct_keys(normalize_ranges(rs1)),
    ensures
        simp(SpecRegex::Class(rs1)) == simp(SpecRegex::Class(rs2)),
{
    broadcast use vstd::seq_lib::group_to_multiset_ensures;
    broadcast use vstd::multiset::group_multiset_axioms;

    let c1 = normalize_ranges(rs1);
    let c2 = normalize_ranges(rs2);
    assert(c1.len() == c2.len()) by {
        assert(c1.to_multiset().len() == c2.to_multiset().len());
    }
    lemma_sort_ranges_props(c1);
    lemma_sort_ranges_props(c2);
    lemma_permutation_distinct_keys(c1, sort_ranges(c1));
    assert(sort_ranges(c1).to_multiset() =~= sort_ranges(c2).to_multiset());
    lemma_sorted_unique(sort_ranges(c1), sort_ranges(c2));
    if c1.len() == 1 {
        assert(c1.contains(c2[0])) by {
            assert(c2.to_multiset().count(c2[0]) > 0);
        }
        assert(c1[0] == c2[0]);
    }
}

} // verus!
