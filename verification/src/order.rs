//! The order of texts, and sorting by an order.

use vstd::prelude::*;
use vstd::relations::*;
use vstd::seq_lib::*;

use crate::text::{chars_of, texts};

verus! {

/// Lexicographic order: at the first character in which two texts differ the
/// smaller code point comes first, and a text comes before its extensions.
pub open spec fn text_le(left: Seq<char>, right: Seq<char>) -> bool
    decreases left.len(),
{
    if left.len() == 0 {
        true
    } else if right.len() == 0 {
        false
    } else if left[0] == right[0] {
        text_le(left.drop_first(), right.drop_first())
    } else {
        left[0] < right[0]
    }
}

/// The lexicographic order as a relation.
pub open spec fn text_order() -> spec_fn(Seq<char>, Seq<char>) -> bool {
    |left: Seq<char>, right: Seq<char>| text_le(left, right)
}

proof fn lemma_text_le_reflexive(a: Seq<char>)
    ensures
        text_le(a, a),
    decreases a.len(),
{
    if a.len() > 0 {
        lemma_text_le_reflexive(a.drop_first());
    }
}

proof fn lemma_text_le_antisymmetric(a: Seq<char>, b: Seq<char>)
    requires
        text_le(a, b),
        text_le(b, a),
    ensures
        a == b,
    decreases a.len(),
{
    if a.len() > 0 && b.len() > 0 {
        lemma_text_le_antisymmetric(a.drop_first(), b.drop_first());
        assert(a =~= seq![a[0]] + a.drop_first());
        assert(b =~= seq![b[0]] + b.drop_first());
    } else {
        assert(a =~= b);
    }
}

proof fn lemma_text_le_transitive(a: Seq<char>, b: Seq<char>, c: Seq<char>)
    requires
        text_le(a, b),
        text_le(b, c),
    ensures
        text_le(a, c),
    decreases a.len(),
{
    if a.len() > 0 && b.len() > 0 && c.len() > 0 && a[0] == b[0] && b[0] == c[0] {
        lemma_text_le_transitive(a.drop_first(), b.drop_first(), c.drop_first());
    }
}

proof fn lemma_text_le_total(a: Seq<char>, b: Seq<char>)
    ensures
        text_le(a, b) || text_le(b, a),
    decreases a.len(),
{
    if a.len() > 0 && b.len() > 0 && a[0] == b[0] {
        lemma_text_le_total(a.drop_first(), b.drop_first());
    }
}

/// The lexicographic order is total.
pub proof fn text_order_is_total()
    ensures
        total_ordering(text_order()),
{
    let r = text_order();
    assert forall|a: Seq<char>| #[trigger] r(a, a) by {
        lemma_text_le_reflexive(a);
    }
    assert forall|a: Seq<char>, b: Seq<char>| #[trigger] r(a, b) && #[trigger] r(b, a) implies a
        == b by {
        lemma_text_le_antisymmetric(a, b);
    }
    assert forall|a: Seq<char>, b: Seq<char>, c: Seq<char>| #[trigger]
        r(a, b) && #[trigger] r(b, c) implies r(a, c) by {
        lemma_text_le_transitive(a, b, c);
    }
    assert forall|a: Seq<char>, b: Seq<char>| #[trigger] r(a, b) || #[trigger] r(b, a) by {
        lemma_text_le_total(a, b);
    }
}

/// Whether `left` comes no later than `right` in lexicographic order.
pub fn text_at_most(left: &str, right: &str) -> (yes: bool)
    ensures
        yes == text_le(left@, right@),
{
    let a = chars_of(left);
    let b = chars_of(right);
    let mut i: usize = 0;
    assert(a@.skip(0) =~= a@);
    assert(b@.skip(0) =~= b@);
    while i < a.len() && i < b.len()
        invariant
            a@ == left@,
            b@ == right@,
            i <= a@.len(),
            i <= b@.len(),
            text_le(a@, b@) == text_le(a@.skip(i as int), b@.skip(i as int)),
        decreases a@.len() - i,
    {
        if a[i] != b[i] {
            return a[i] < b[i];
        }
        assert(a@.skip(i as int).drop_first() =~= a@.skip(i + 1));
        assert(b@.skip(i as int).drop_first() =~= b@.skip(i + 1));
        i = i + 1;
    }
    i == a.len()
}

proof fn lemma_set_to_seq_has_no_duplicates(set: Set<Seq<char>>)
    requires
        set.finite(),
    ensures
        set.to_seq().no_duplicates(),
        set.to_seq().to_set() == set,
    decreases set.len(),
{
    set.lemma_to_seq_to_set_id();
    if set.len() > 0 {
        let x = set.choose();
        let rest = set.remove(x);
        lemma_set_to_seq_has_no_duplicates(rest);
        let all = set.to_seq();
        assert(all =~= seq![x] + rest.to_seq());
        assert(!rest.to_seq().contains(x)) by {
            assert(!rest.to_seq().to_set().contains(x));
        }
        assert forall|i: int, j: int| 0 <= i < j < all.len() implies all[i] != all[j] by {
            assert(all[j] == rest.to_seq()[j - 1]);
            if i > 0 {
                assert(all[i] == rest.to_seq()[i - 1]);
            }
        }
    }
}

proof fn lemma_same_set_same_multiset(a: Seq<Seq<char>>, b: Seq<Seq<char>>)
    requires
        a.no_duplicates(),
        b.no_duplicates(),
        a.to_set() == b.to_set(),
    ensures
        a.to_multiset() == b.to_multiset(),
{
    broadcast use group_to_multiset_ensures;

    a.lemma_multiset_has_no_duplicates();
    b.lemma_multiset_has_no_duplicates();
    assert forall|x: Seq<char>| a.to_multiset().count(x) == b.to_multiset().count(x) by {
        assert(a.contains(x) == a.to_set().contains(x));
        assert(b.contains(x) == b.to_set().contains(x));
        if a.contains(x) {
            assert(a.to_multiset().contains(x) && b.to_multiset().contains(x));
        } else {
            assert(!a.to_multiset().contains(x) && !b.to_multiset().contains(x));
        }
    }
    assert(a.to_multiset() =~= b.to_multiset());
}

/// Texts that are in order and all different are the listing of their set in
/// that order.
pub(crate) proof fn lemma_listing(list: Seq<Seq<char>>, leq: spec_fn(Seq<char>, Seq<char>) -> bool)
    requires
        total_ordering(leq),
        list.no_duplicates(),
        sorted_by(list, leq),
    ensures
        list == list.to_set().to_sorted_seq(leq),
{
    let set = list.to_set();
    seq_to_set_is_finite(list);
    lemma_set_to_seq_has_no_duplicates(set);
    lemma_same_set_same_multiset(list, set.to_seq());
    set.to_seq().lemma_sort_by_ensures(leq);
    lemma_sorted_unique(list, set.to_sorted_seq(leq), leq);
}

/// The listing of a finite set in a total order is in that order, names each
/// element once, and names nothing else.
pub(crate) proof fn lemma_sorted_listing(
    set: Set<Seq<char>>,
    leq: spec_fn(Seq<char>, Seq<char>) -> bool,
)
    requires
        total_ordering(leq),
        set.finite(),
    ensures
        sorted_by(set.to_sorted_seq(leq), leq),
        set.to_sorted_seq(leq).no_duplicates(),
        set.to_sorted_seq(leq).to_set() == set,
{
    broadcast use group_to_multiset_ensures;

    let list = set.to_sorted_seq(leq);
    lemma_set_to_seq_has_no_duplicates(set);
    set.to_seq().lemma_sort_by_ensures(leq);
    set.to_seq().lemma_multiset_has_no_duplicates();
    list.lemma_multiset_has_no_duplicates_conv();
    assert forall|x: Seq<char>| list.to_set().contains(x) == set.contains(x) by {
        assert(list.to_multiset().count(x) == set.to_seq().to_multiset().count(x));
        assert(list.contains(x) == set.to_seq().contains(x));
        assert(set.to_seq().to_set().contains(x) == set.to_seq().contains(x));
    }
    assert(list.to_set() =~= set);
}

/// Sorting keeps the texts of a list, with their number.
pub(crate) proof fn lemma_sort_keeps(list: Seq<Seq<char>>, leq: spec_fn(Seq<char>, Seq<char>) -> bool)
    requires
        total_ordering(leq),
    ensures
        sorted_by(list.sort_by(leq), leq),
        list.sort_by(leq).to_multiset() == list.to_multiset(),
        list.sort_by(leq).len() == list.len(),
        list.sort_by(leq).to_set() == list.to_set(),
        list.no_duplicates() ==> list.sort_by(leq).no_duplicates(),
{
    broadcast use group_to_multiset_ensures;

    let sorted = list.sort_by(leq);
    list.lemma_sort_by_ensures(leq);
    list.to_multiset_ensures();
    sorted.to_multiset_ensures();
    assert forall|x: Seq<char>| sorted.to_set().contains(x) == list.to_set().contains(x) by {
        assert(sorted.to_multiset().count(x) == list.to_multiset().count(x));
        assert(sorted.contains(x) == list.contains(x));
    }
    assert(sorted.to_set() =~= list.to_set());
    if list.no_duplicates() {
        list.lemma_multiset_has_no_duplicates();
        sorted.lemma_multiset_has_no_duplicates_conv();
    }
}

/// Sorts texts by a total order that `at_most` decides.
pub(crate) fn sort_by_order<F: Fn(&String, &String) -> bool>(
    list: &Vec<String>,
    at_most: F,
    order: Ghost<spec_fn(Seq<char>, Seq<char>) -> bool>,
) -> (sorted: Vec<String>)
    requires
        total_ordering(order@),
        forall|a: &String, b: &String| #[trigger] at_most.requires((a, b)),
        forall|a: &String, b: &String, yes: bool| #[trigger]
            at_most.ensures((a, b), yes) ==> yes == (order@)(a@, b@),
    ensures
        texts(sorted@) == texts(list@).sort_by(order@),
{
    let mut sorted: Vec<String> = Vec::new();
    let mut i: usize = 0;
    let ghost leq = order@;
    assert(texts(sorted@) =~= texts(list@).take(0));
    while i < list.len()
        invariant
            i <= list@.len(),
            leq == order@,
            total_ordering(leq),
            forall|a: &String, b: &String| #[trigger] at_most.requires((a, b)),
            forall|a: &String, b: &String, yes: bool| #[trigger]
                at_most.ensures((a, b), yes) ==> yes == leq(a@, b@),
            sorted_by(texts(sorted@), leq),
            texts(sorted@).to_multiset() == texts(list@).take(i as int).to_multiset(),
        decreases list@.len() - i,
    {
        let item = list[i].clone();
        let mut at: usize = 0;
        while at < sorted.len() && at_most(&sorted[at], &item)
            invariant
                at <= sorted@.len(),
                forall|a: &String, b: &String| #[trigger] at_most.requires((a, b)),
                forall|a: &String, b: &String, yes: bool| #[trigger]
                    at_most.ensures((a, b), yes) ==> yes == leq(a@, b@),
                forall|k: int| 0 <= k < at ==> leq(texts(sorted@)[k], item@),
            ensures
                at <= sorted@.len(),
                forall|k: int| 0 <= k < at ==> leq(texts(sorted@)[k], item@),
                at < sorted@.len() ==> !leq(texts(sorted@)[at as int], item@),
            decreases sorted@.len() - at,
        {
            at = at + 1;
        }
        let ghost before = texts(sorted@);
        sorted.insert(at, item);
        proof {
            let after = texts(sorted@);
            assert(after =~= before.insert(at as int, item@));
            assert forall|p: int, q: int| 0 <= p < q < after.len() implies #[trigger] leq(
                after[p],
                after[q],
            ) by {
                if q < at {
                    assert(leq(before[p], before[q]));
                } else if q == at {
                    assert(leq(before[p], item@));
                } else if p < at {
                    assert(leq(before[p], before[q - 1]));
                } else {
                    assert(leq(item@, before[at as int]));
                    if at < q - 1 {
                        assert(leq(before[at as int], before[q - 1]));
                    }
                    assert(leq(item@, before[q - 1]));
                    if p > at {
                        assert(leq(before[p - 1], before[q - 1]));
                    }
                }
            }
            to_multiset_insert(before, at as int, item@);
            to_multiset_build(texts(list@).take(i as int), item@);
            assert(texts(list@).take(i + 1) =~= texts(list@).take(i as int).push(item@));
        }
        i = i + 1;
    }
    proof {
        assert(texts(list@).take(list@.len() as int) =~= texts(list@));
        texts(list@).lemma_sort_by_ensures(leq);
        lemma_sorted_unique(texts(sorted@), texts(list@).sort_by(leq), leq);
    }
    sorted
}

/// Sorts texts in lexicographic order.
pub fn sort_texts(list: &Vec<String>) -> (sorted: Vec<String>)
    ensures
        texts(sorted@) == texts(list@).sort_by(text_order()),
{
    proof {
        text_order_is_total();
    }
    let at_most = |a: &String, b: &String| -> (yes: bool)
        ensures
            yes == text_le(a@, b@),
    {
        text_at_most(a.as_str(), b.as_str())
    };
    sort_by_order(list, at_most, Ghost(text_order()))
}

/// Texts are ordered by the first character in which they differ, and a text comes before its
/// extensions.
pub proof fn smaller_characters_come_first(
    shared: Seq<char>,
    a: char,
    b: char,
    left: Seq<char>,
    right: Seq<char>,
)
    requires
        a < b,
    ensures
        text_le(shared + seq![a] + left, shared + seq![b] + right),
        !text_le(shared + seq![b] + right, shared + seq![a] + left),
        text_le(shared, shared + left),
        left.len() > 0 ==> !text_le(shared + left, shared),
    decreases shared.len(),
{
    let low = shared + seq![a] + left;
    let high = shared + seq![b] + right;
    let longer = shared + left;
    if shared.len() > 0 {
        let rest = shared.drop_first();
        smaller_characters_come_first(rest, a, b, left, right);
        assert(low.drop_first() =~= rest + seq![a] + left);
        assert(high.drop_first() =~= rest + seq![b] + right);
        assert(longer.drop_first() =~= rest + left);
        assert(low[0] == high[0]);
    } else {
        assert(low[0] == a);
        assert(high[0] == b);
    }
}

} // verus!
