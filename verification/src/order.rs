//! Sequences that hold each element once, in the order of first insertion.

use vstd::prelude::*;

verus! {

/// The sequence after `a` was inserted: unchanged if it held `a` already,
/// with `a` at the end otherwise.
pub open spec fn insert_once<A>(s: Seq<A>, a: A) -> Seq<A> {
    if s.contains(a) {
        s
    } else {
        s.push(a)
    }
}

/// The sequence after the elements of `t` were inserted one by one.
pub open spec fn union_order<A>(s: Seq<A>, t: Seq<A>) -> Seq<A>
    decreases t.len(),
{
    if t.len() == 0 {
        s
    } else {
        insert_once(union_order(s, t.drop_last()), t.last())
    }
}

/// A sequence with one more element holds what it held and that element.
pub proof fn lemma_contains_push<A>(s: Seq<A>, a: A, x: A)
    ensures
        s.push(a).contains(x) <==> s.contains(x) || x == a,
{
    if s.push(a).contains(x) {
        let i = choose|i: int| 0 <= i < s.push(a).len() && s.push(a)[i] == x;
        if i < s.len() {
            assert(s[i] == x);
        }
    }
    if s.contains(x) {
        let i = choose|i: int| 0 <= i < s.len() && s[i] == x;
        assert(s.push(a)[i] == x);
    }
    if x == a {
        assert(s.push(a)[s.len() as int] == a);
    }
}

/// A sequence without repetitions stays so with a new element.
pub proof fn lemma_no_duplicates_push<A>(s: Seq<A>, a: A)
    requires
        s.no_duplicates(),
        !s.contains(a),
    ensures
        s.push(a).no_duplicates(),
{
    assert forall|i: int, j: int| 0 <= i < s.push(a).len() && 0 <= j < s.push(a).len() && i
        != j implies s.push(a)[i] != s.push(a)[j] by {
        if i < s.len() && j < s.len() {
        } else if i < s.len() {
            assert(s.contains(s[i]));
        } else {
            assert(s.contains(s[j]));
        }
    }
}

/// The set of a sequence with one more element is the set of the sequence
/// with that element inserted.
pub proof fn lemma_push_to_set<A>(s: Seq<A>, a: A)
    ensures
        s.push(a).to_set() == s.to_set().insert(a),
{
    assert forall|x: A| s.push(a).to_set().contains(x) <==> s.to_set().insert(a).contains(x) by {
        lemma_contains_push(s, a, x);
    }
    assert(s.push(a).to_set() =~= s.to_set().insert(a));
}

/// The union in order with a single element inserts that element once.
pub proof fn lemma_union_order_single<A>(s: Seq<A>, a: A)
    ensures
        union_order(s, seq![a]) == insert_once(s, a),
{
    assert(seq![a].drop_last() =~= Seq::<A>::empty());
    assert(union_order(s, Seq::<A>::empty()) == s);
}

/// Inserting once keeps a sequence free of repetitions.
pub proof fn lemma_insert_once_no_duplicates<A>(s: Seq<A>, a: A)
    requires
        s.no_duplicates(),
    ensures
        insert_once(s, a).no_duplicates(),
{
    if !s.contains(a) {
        lemma_no_duplicates_push(s, a);
    }
}

/// The union in order of a sequence without repetitions has none.
pub proof fn lemma_union_order_no_duplicates<A>(s: Seq<A>, t: Seq<A>)
    requires
        s.no_duplicates(),
    ensures
        union_order(s, t).no_duplicates(),
    decreases t.len(),
{
    if t.len() > 0 {
        lemma_union_order_no_duplicates(s, t.drop_last());
        lemma_insert_once_no_duplicates(union_order(s, t.drop_last()), t.last());
    }
}

} // verus!
