//! Fuzzy search: texts within an edit distance of a query, best match first.

use vstd::prelude::*;
use vstd::relations::*;
use vstd::string::*;

use crate::order::{
    lemma_listing, lemma_sort_keeps, lemma_sorted_listing, sort_by_order, sort_texts, text_at_most,
    text_le, text_order, text_order_is_total,
};
use crate::text::{chars_of, has_prefix, starts_with, texts};

verus! {

/// The state limit of an automaton built for a search.
pub const AUTOCOMPLETE_STATE_LIMIT: usize = 10_000;

/// The edit distance of two texts: the least number of characters to insert,
/// delete or substitute that turns one into the other.
pub open spec fn distance(left: Seq<char>, right: Seq<char>) -> nat
    decreases left.len() + right.len(),
{
    if left.len() == 0 {
        right.len()
    } else if right.len() == 0 {
        left.len()
    } else {
        let deleted = distance(left.drop_last(), right) + 1;
        let inserted = distance(left, right.drop_last()) + 1;
        let kept = distance(left.drop_last(), right.drop_last());
        let substituted = if left.last() == right.last() {
            kept
        } else {
            kept + 1
        };
        if substituted <= deleted && substituted <= inserted {
            substituted
        } else if deleted <= inserted {
            deleted
        } else {
            inserted
        }
    }
}

/// The distance is no more than the longer of the two texts, and no less than
/// the difference of their lengths.
pub proof fn distance_is_bounded_by_length(left: Seq<char>, right: Seq<char>)
    ensures
        distance(left, right) <= left.len() || distance(left, right) <= right.len(),
        left.len() <= right.len() + distance(left, right),
        right.len() <= left.len() + distance(left, right),
    decreases left.len() + right.len(),
{
    if left.len() > 0 && right.len() > 0 {
        distance_is_bounded_by_length(left.drop_last(), right);
        distance_is_bounded_by_length(left, right.drop_last());
        distance_is_bounded_by_length(left.drop_last(), right.drop_last());
    }
}

/// Only equal texts have no distance.
pub proof fn distance_is_zero_for_equal_texts_only(left: Seq<char>, right: Seq<char>)
    ensures
        distance(left, right) == 0 <==> left == right,
    decreases left.len() + right.len(),
{
    if left.len() == 0 || right.len() == 0 {
        assert(left.len() == right.len() ==> left =~= right);
    } else {
        distance_is_zero_for_equal_texts_only(left.drop_last(), right.drop_last());
        assert(left =~= left.drop_last().push(left.last()));
        assert(right =~= right.drop_last().push(right.last()));
    }
}

/// The distance is the same in both directions.
pub proof fn distance_is_symmetric(left: Seq<char>, right: Seq<char>)
    ensures
        distance(left, right) == distance(right, left),
    decreases left.len() + right.len(),
{
    if left.len() > 0 && right.len() > 0 {
        distance_is_symmetric(left.drop_last(), right);
        distance_is_symmetric(left, right.drop_last());
        distance_is_symmetric(left.drop_last(), right.drop_last());
    }
}

/// The way over a third text is no shorter.
pub proof fn distance_obeys_the_triangle_inequality(
    left: Seq<char>,
    middle: Seq<char>,
    right: Seq<char>,
)
    ensures
        distance(left, right) <= distance(left, middle) + distance(middle, right),
    decreases left.len() + middle.len() + right.len(),
{
    if left.len() == 0 || middle.len() == 0 || right.len() == 0 {
        distance_is_bounded_by_length(left, middle);
        distance_is_bounded_by_length(middle, right);
        distance_is_bounded_by_length(left, right);
    } else {
        let (a, b, c) = (left.drop_last(), middle.drop_last(), right.drop_last());
        distance_obeys_the_triangle_inequality(a, middle, right);
        distance_obeys_the_triangle_inequality(left, middle, c);
        distance_obeys_the_triangle_inequality(left, b, right);
        distance_obeys_the_triangle_inequality(left, b, c);
        distance_obeys_the_triangle_inequality(a, b, right);
        distance_obeys_the_triangle_inequality(a, b, c);
    }
}

/// A change of one character.
pub enum Edit {
    Insert { at: int, ch: char },
    Delete { at: int },
    Substitute { at: int, ch: char },
}

impl Edit {
    /// Whether the place of the change is in a text.
    pub open spec fn fits(self, text: Seq<char>) -> bool {
        match self {
            Edit::Insert { at, .. } => 0 <= at <= text.len(),
            Edit::Delete { at } => 0 <= at < text.len(),
            Edit::Substitute { at, .. } => 0 <= at < text.len(),
        }
    }

    /// The text after the change.
    pub open spec fn applied(self, text: Seq<char>) -> Seq<char> {
        match self {
            Edit::Insert { at, ch } => text.insert(at, ch),
            Edit::Delete { at } => text.remove(at),
            Edit::Substitute { at, ch } => text.update(at, ch),
        }
    }
}

/// Whether so many changes of one character, or fewer, turn a text into another.
pub open spec fn turns_into(left: Seq<char>, right: Seq<char>, edits: nat) -> bool
    decreases edits,
{
    left == right || edits > 0 && exists|edit: Edit|
        edit.fits(left) && turns_into(#[trigger] edit.applied(left), right, (edits - 1) as nat)
}

proof fn lemma_edit_is_near(edit: Edit, text: Seq<char>)
    requires
        edit.fits(text),
    ensures
        distance(text, edit.applied(text)) <= 1,
    decreases text.len(),
{
    let next = edit.applied(text);
    distance_is_zero_for_equal_texts_only(text, text);
    let at = match edit {
        Edit::Insert { at, .. } => at,
        Edit::Delete { at } => at,
        Edit::Substitute { at, .. } => at,
    };
    let rest = text.drop_last();
    if edit is Insert && at == text.len() {
        assert(next.drop_last() =~= text);
    } else if edit is Insert || at < text.len() - 1 {
        lemma_edit_is_near(edit, rest);
        assert(next.drop_last() =~= edit.applied(rest));
        assert(next.last() == text.last());
    } else {
        distance_is_zero_for_equal_texts_only(rest, rest);
        if edit is Delete {
            assert(next =~= rest);
        } else {
            assert(next.drop_last() =~= rest);
        }
    }
}

proof fn lemma_edit_towards(left: Seq<char>, right: Seq<char>) -> (edit: Edit)
    requires
        left != right,
    ensures
        edit.fits(left),
        distance(edit.applied(left), right) < distance(left, right),
    decreases left.len() + right.len(),
{
    distance_is_zero_for_equal_texts_only(left, right);
    let (a, b) = (left.drop_last(), right.drop_last());
    if left.len() == 0 {
        let edit = Edit::Insert { at: 0, ch: right.last() };
        assert(edit.applied(left).drop_last() =~= left);
        assert(distance(left, b) == b.len());
        edit
    } else if right.len() == 0 {
        let edit = Edit::Delete { at: left.len() - 1 };
        assert(edit.applied(left) =~= a);
        edit
    } else if left.last() == right.last() && distance(left, right) == distance(a, b) {
        assert(a != b) by {
            assert(left =~= a.push(left.last()));
            assert(right =~= b.push(right.last()));
        }
        let edit = lemma_edit_towards(a, b);
        assert(edit.applied(left) =~= edit.applied(a).push(left.last()));
        assert(edit.applied(left).drop_last() =~= edit.applied(a));
        edit
    } else if distance(left, right) == distance(a, right) + 1 {
        let edit = Edit::Delete { at: left.len() - 1 };
        assert(edit.applied(left) =~= a);
        edit
    } else if distance(left, right) == distance(left, b) + 1 {
        let edit = Edit::Insert { at: left.len() as int, ch: right.last() };
        assert(edit.applied(left).drop_last() =~= left);
        edit
    } else {
        let edit = Edit::Substitute { at: left.len() - 1, ch: right.last() };
        assert(edit.applied(left).drop_last() =~= a);
        edit
    }
}

/// The distance is the least number of characters to insert, delete or substitute
/// that turns one text into the other.
pub proof fn distance_is_the_least_number_of_edits(
    left: Seq<char>,
    right: Seq<char>,
    edits: nat,
)
    ensures
        turns_into(left, right, edits) <==> distance(left, right) <= edits,
    decreases edits,
{
    distance_is_zero_for_equal_texts_only(left, right);
    if left != right && edits > 0 {
        if turns_into(left, right, edits) {
            let edit = choose|edit: Edit|
                edit.fits(left) && turns_into(
                    #[trigger] edit.applied(left),
                    right,
                    (edits - 1) as nat,
                );
            lemma_edit_is_near(edit, left);
            distance_is_the_least_number_of_edits(
                edit.applied(left),
                right,
                (edits - 1) as nat,
            );
            distance_obeys_the_triangle_inequality(left, edit.applied(left), right);
        }
        if distance(left, right) <= edits {
            let edit = lemma_edit_towards(left, right);
            distance_is_the_least_number_of_edits(
                edit.applied(left),
                right,
                (edits - 1) as nat,
            );
            assert(turns_into(edit.applied(left), right, (edits - 1) as nat));
        }
    }
}

/// The edit distance of two texts, row by row.
pub fn edit_distance(left: &str, right: &str) -> (edits: usize)
    ensures
        edits == distance(left@, right@),
{
    let left = chars_of(left);
    let right = chars_of(right);
    let height: usize = left.len();
    let width: usize = right.len();
    let mut prev: Vec<usize> = Vec::new();
    let mut at: usize = 0;
    while at < width
        invariant
            at <= width == right@.len(),
            prev@.len() == at,
            forall|j: int|
                0 <= j < at ==> #[trigger] prev@[j] == distance(
                    left@.take(0),
                    right@.take(j),
                ),
        decreases width - at,
    {
        prev.push(at);
        at = at + 1;
    }
    prev.push(width);
    let rows: usize = prev.len();
    let mut i: usize = 0;
    while i < height
        invariant
            i <= height == left@.len(),
            width == right@.len(),
            rows == width + 1,
            prev@.len() == rows,
            forall|j: int|
                0 <= j <= width ==> #[trigger] prev@[j] == distance(
                    left@.take(i as int),
                    right@.take(j),
                ),
        decreases height - i,
    {
        let mut curr: Vec<usize> = Vec::new();
        curr.push(i + 1);
        assert(curr@[0] == distance(left@.take(i + 1), right@.take(0)));
        let mut j: usize = 0;
        while j < width
            invariant
                i < height == left@.len(),
                j <= width == right@.len(),
                rows == width + 1,
                prev@.len() == rows,
                curr@.len() == j + 1,
                forall|k: int|
                    0 <= k <= width ==> #[trigger] prev@[k] == distance(
                        left@.take(i as int),
                        right@.take(k),
                    ),
                forall|k: int|
                    0 <= k <= j ==> #[trigger] curr@[k] == distance(
                        left@.take(i + 1),
                        right@.take(k),
                    ),
            decreases width - j,
        {
            let above: usize = prev[j + 1];
            let before: usize = curr[j];
            let corner: usize = prev[j];
            proof {
                let a = left@.take(i + 1);
                let b = right@.take(j + 1);
                assert(a.drop_last() =~= left@.take(i as int));
                assert(b.drop_last() =~= right@.take(j as int));
                distance_is_bounded_by_length(a.drop_last(), b);
                distance_is_bounded_by_length(a, b);
                assert(above == distance(a.drop_last(), b));
                assert(before == distance(a, b.drop_last()));
                assert(corner == distance(a.drop_last(), b.drop_last()));
            }
            let step: usize = if above <= before {
                above + 1
            } else {
                before + 1
            };
            let best: usize = if left[i] == right[j] {
                if corner <= step {
                    corner
                } else {
                    step
                }
            } else if corner < step {
                corner + 1
            } else {
                step
            };
            curr.push(best);
            j = j + 1;
        }
        prev = curr;
        i = i + 1;
    }
    assert(left@.take(left@.len() as int) =~= left@);
    assert(right@.take(right@.len() as int) =~= right@);
    prev[width]
}

/// The keys of a set, in order. A set that the library builds holds texts
/// only.
pub uninterp spec fn set_keys(set: fst::Set<Vec<u8>>) -> Seq<Seq<char>>;

/// Whether an automaton for the texts within `edits` of `query` has at most
/// `state_limit` states.
pub uninterp spec fn automaton_fits(query: Seq<char>, edits: u32, state_limit: usize) -> bool;

/// Whether the automaton for the texts within `edits` of `query` accepts
/// `key`.
pub uninterp spec fn automaton_accepts(query: Seq<char>, edits: u32, key: Seq<char>) -> bool;

/// An ordered set of byte strings, from the `fst` crate.
#[verifier::external_type_specification]
#[verifier::external_body]
#[verifier::reject_recursive_types(D)]
pub struct ExFstSet<D>(fst::Set<D>);

/// What the `fst` crate reports when a set cannot be built.
#[verifier::external_type_specification]
#[verifier::external_body]
pub struct ExFstError(fst::Error);

/// A set of texts. `TextSet::build` is the only way to make one, so that every
/// key is a text.
struct TextSet {
    set: fst::Set<Vec<u8>>,
}

impl TextSet {
    /// The texts of the set, in order.
    spec fn keys(self) -> Seq<Seq<char>> {
        set_keys(self.set)
    }

    /// `fst::Set::from_iter` takes keys in byte order, which for UTF-8 is the
    /// order of the texts, and fails only where a key is smaller than the one
    /// before it. A repeated key is kept once.
    #[verifier::external_body]
    fn build(keys: &Vec<String>) -> (built: Result<TextSet, fst::Error>)
        ensures
            built is Ok <==> sorted_by(texts(keys@), text_order()),
            built matches Ok(set) ==> set_keys(set.set) == texts(keys@).to_set().to_sorted_seq(
                text_order(),
            ),
    {
        fst::Set::from_iter(keys.iter()).map(|set| TextSet { set })
    }

    /// `fst::automaton::Levenshtein::new_with_limit` builds the automaton of
    /// the texts within `edits` of `query`, or fails where that takes more than
    /// `state_limit` states; `fst::Set::search` hands out, in order, the keys
    /// that the automaton accepts. An accepted key is within the distance. A
    /// key within the distance is accepted where the query or the key is ASCII:
    /// the automaton takes bytes, and a character of several bytes in the query
    /// hides others that start with the same byte.
    #[verifier::external_body]
    fn search(&self, query: &str, edits: u32, state_limit: usize) -> (found: Option<Vec<String>>)
        requires
            edits < u32::MAX,
        ensures
            found is Some <==> automaton_fits(query@, edits, state_limit),
            found matches Some(found) ==> texts(found@) == set_keys(self.set).filter(
                |key: Seq<char>| automaton_accepts(query@, edits, key),
            ),
            found matches Some(found) ==> forall|i: int|
                0 <= i < found@.len() ==> distance(query@, #[trigger] found@[i]@) <= edits,
            found matches Some(found) ==> forall|i: int|
                0 <= i < set_keys(self.set).len() && (is_ascii_text(query@) || is_ascii_text(
                    set_keys(self.set)[i],
                )) && distance(query@, #[trigger] set_keys(self.set)[i]) <= edits ==> texts(
                    found@,
                ).contains(set_keys(self.set)[i]),
    {
        match fst::automaton::Levenshtein::new_with_limit(query, edits, state_limit) {
            Ok(automaton) => fst::IntoStreamer::into_stream(self.set.search(&automaton))
                .into_strs()
                .ok(),
            Err(_) => None,
        }
    }
}

/// Whether all characters of a text are ASCII.
pub open spec fn is_ascii_text(text: Seq<char>) -> bool {
    forall|i: int| 0 <= i < text.len() ==> #[trigger] text[i] < '\u{80}'
}

/// The distance up to which a text matches a query: six more than the query
/// has characters.
pub open spec fn match_limit(query: Seq<char>) -> u32 {
    if query.len() + 6 < u32::MAX {
        (query.len() + 6) as u32
    } else {
        (u32::MAX - 1) as u32
    }
}

/// The order of matches: those that start with the query come first, then the
/// nearer ones, then by text.
pub open spec fn rank_le(query: Seq<char>, left: Seq<char>, right: Seq<char>) -> bool {
    if has_prefix(left, query) != has_prefix(right, query) {
        has_prefix(left, query)
    } else if distance(query, left) != distance(query, right) {
        distance(query, left) < distance(query, right)
    } else {
        text_le(left, right)
    }
}

/// The order of matches as a relation.
pub open spec fn rank_order(query: Seq<char>) -> spec_fn(Seq<char>, Seq<char>) -> bool {
    |left: Seq<char>, right: Seq<char>| rank_le(query, left, right)
}

/// The order of matches is total: two different texts never rank the same.
pub proof fn rank_order_is_total(query: Seq<char>)
    ensures
        total_ordering(rank_order(query)),
{
    text_order_is_total();
    let t = text_order();
    let r = rank_order(query);
    assert forall|a: Seq<char>| #[trigger] r(a, a) by {
        assert(t(a, a));
    }
    assert forall|a: Seq<char>, b: Seq<char>| #[trigger] r(a, b) && #[trigger] r(b, a) implies a
        == b by {
        assert(t(a, b) && t(b, a));
    }
    assert forall|a: Seq<char>, b: Seq<char>, c: Seq<char>| #[trigger]
        r(a, b) && #[trigger] r(b, c) implies r(a, c) by {
        if t(a, b) && t(b, c) {
            assert(t(a, c));
        }
    }
    assert forall|a: Seq<char>, b: Seq<char>| #[trigger] r(a, b) || #[trigger] r(b, a) by {
        assert(t(a, b) || t(b, a));
    }
}

/// The texts that the search for `query` accepts.
pub open spec fn accepted(query: Seq<char>, candidates: Seq<Seq<char>>) -> Set<Seq<char>> {
    candidates.to_set().filter(
        |key: Seq<char>| automaton_accepts(query, match_limit(query), key),
    )
}

/// The texts within the match limit of `query`.
pub open spec fn near(query: Seq<char>, candidates: Seq<Seq<char>>) -> Set<Seq<char>> {
    candidates.to_set().filter(|key: Seq<char>| distance(query, key) <= match_limit(query))
}

/// Whether a search is sure to find a text that is near: the query or the text is
/// ASCII.
pub open spec fn surely_found(query: Seq<char>, text: Seq<char>) -> bool {
    is_ascii_text(query) || is_ascii_text(text)
}

/// Whether a search accepts near texts only, and all of them that it is sure to find.
pub open spec fn finds_near(query: Seq<char>, candidates: Seq<Seq<char>>) -> bool {
    &&& accepted(query, candidates).subset_of(near(query, candidates))
    &&& forall|text: Seq<char>| #[trigger]
        near(query, candidates).contains(text) && surely_found(query, text) ==> accepted(
            query,
            candidates,
        ).contains(text)
    &&& (forall|i: int|
        0 <= i < candidates.len() ==> surely_found(query, #[trigger] candidates[i]))
        ==> accepted(query, candidates) == near(query, candidates)
}

/// Whether the automaton for `query` can be built.
pub open spec fn searchable(query: Seq<char>) -> bool {
    automaton_fits(query, match_limit(query), AUTOCOMPLETE_STATE_LIMIT)
}

/// The distance up to which a text matches a query.
fn limit_for(query: &str) -> (edits: u32)
    ensures
        edits == match_limit(query@),
{
    let chars: usize = chars_of(query).len();
    if chars < 4294967289 {
        chars as u32 + 6
    } else {
        4294967294
    }
}

/// Puts matches in their order.
pub fn rank_matches(query: &str, matches: &Vec<String>) -> (ranked: Vec<String>)
    ensures
        texts(ranked@) == texts(matches@).sort_by(rank_order(query@)),
{
    proof {
        rank_order_is_total(query@);
    }
    let at_most = |a: &String, b: &String| -> (yes: bool)
        ensures
            yes == rank_le(query@, a@, b@),
    {
        let a_first = starts_with(a.as_str(), query);
        let b_first = starts_with(b.as_str(), query);
        if a_first != b_first {
            a_first
        } else {
            let a_edits: usize = edit_distance(query, a.as_str());
            let b_edits: usize = edit_distance(query, b.as_str());
            if a_edits != b_edits {
                a_edits < b_edits
            } else {
                text_at_most(a.as_str(), b.as_str())
            }
        }
    };
    sort_by_order(matches, at_most, Ghost(rank_order(query@)))
}

proof fn lemma_filtered_listing(keys: Seq<Seq<char>>, pred: spec_fn(Seq<char>) -> bool)
    requires
        keys.no_duplicates(),
    ensures
        keys.filter(pred).no_duplicates(),
        keys.filter(pred).to_set() == keys.to_set().filter(pred),
    decreases keys.len(),
{
    reveal(Seq::filter);
    let kept = keys.filter(pred);
    if keys.len() > 0 {
        let rest = keys.drop_last();
        lemma_filtered_listing(rest, pred);
        let before = rest.filter(pred);
        assert(!before.contains(keys.last())) by {
            if before.contains(keys.last()) {
                assert(before.to_set().contains(keys.last()));
                assert(rest.to_set().contains(keys.last()));
                assert(rest.contains(keys.last()));
            }
        }
        assert(kept == if pred(keys.last()) { before.push(keys.last()) } else { before });
        assert(keys =~= rest.push(keys.last()));
        assert forall|x: Seq<char>| kept.to_set().contains(x) == keys.to_set().filter(
            pred,
        ).contains(x) by {
            vstd::seq_lib::lemma_seq_contains_after_push(rest, keys.last(), x);
            vstd::seq_lib::lemma_seq_contains_after_push(before, keys.last(), x);
            assert(before.to_set().contains(x) == before.contains(x));
            assert(rest.to_set().contains(x) == rest.contains(x));
        }
        assert(kept.to_set() =~= keys.to_set().filter(pred));
    } else {
        assert(kept.to_set() =~= keys.to_set().filter(pred));
    }
}

/// Searches `candidates` for `query`: the accepted texts, each once, best match
/// first; `None` where no automaton can be built.
pub fn search_texts(query: &str, candidates: &Vec<String>) -> (ranked: Option<Vec<String>>)
    ensures
        ranked is Some <==> searchable(query@),
        ranked matches Some(ranked) ==> texts(ranked@) == accepted(
            query@,
            texts(candidates@),
        ).to_sorted_seq(rank_order(query@)),
        ranked is Some ==> finds_near(query@, texts(candidates@)),
{
    let sorted = sort_texts(candidates);
    proof {
        text_order_is_total();
        rank_order_is_total(query@);
        lemma_sort_keeps(texts(candidates@), text_order());
    }
    let set = match TextSet::build(&sorted) {
        Ok(set) => set,
        Err(_) => return None,
    };
    let edits = limit_for(query);
    let found = match set.search(query, edits, AUTOCOMPLETE_STATE_LIMIT) {
        Some(found) => found,
        None => return None,
    };
    let ranked = rank_matches(query, &found);
    proof {
        let all = texts(candidates@);
        let keys = set.keys();
        let pred = |key: Seq<char>| automaton_accepts(query@, edits, key);
        vstd::seq_lib::seq_to_set_is_finite(all);
        lemma_sorted_listing(all.to_set(), text_order());
        lemma_filtered_listing(keys, pred);
        assert(texts(found@).to_set() == accepted(query@, all));
        lemma_sort_keeps(texts(found@), rank_order(query@));
        lemma_listing(texts(ranked@), rank_order(query@));
        assert forall|key: Seq<char>| accepted(query@, all).contains(key) implies near(
            query@,
            all,
        ).contains(key) by {
            assert(texts(found@).to_set().contains(key));
            let i = choose|i: int| 0 <= i < found@.len() && texts(found@)[i] == key;
            assert(found@[i]@ == key);
        }
        assert forall|key: Seq<char>| #[trigger]
            near(query@, all).contains(key) && surely_found(query@, key) implies accepted(
            query@,
            all,
        ).contains(key) by {
            assert(keys.to_set().contains(key));
            let i = choose|i: int| 0 <= i < keys.len() && keys[i] == key;
            assert(texts(found@).contains(key));
            assert(texts(found@).to_set().contains(key));
        }
        if forall|i: int| 0 <= i < all.len() ==> surely_found(query@, #[trigger] all[i]) {
            assert forall|key: Seq<char>| near(query@, all).contains(key) implies accepted(
                query@,
                all,
            ).contains(key) by {
                assert(all.to_set().contains(key));
                let i = choose|i: int| 0 <= i < all.len() && all[i] == key;
                assert(surely_found(query@, all[i]));
            }
            assert(accepted(query@, all) =~= near(query@, all));
        }
    }
    Some(ranked)
}

/// Every text that is no more than six characters longer than the query is near it, and no text is
/// near that is longer than twice the query and six characters.
pub proof fn texts_of_like_length_are_near(query: Seq<char>, candidates: Seq<Seq<char>>, i: int)
    requires
        0 <= i < candidates.len(),
        query.len() + 6 < u32::MAX,
    ensures
        candidates[i].len() <= query.len() + 6 ==> near(query, candidates).contains(candidates[i]),
        candidates[i].len() > 2 * query.len() + 6 ==> !near(query, candidates).contains(
            candidates[i],
        ),
{
    distance_is_bounded_by_length(query, candidates[i]);
    assert(candidates.to_set().contains(candidates[i]));
}

} // verus!
