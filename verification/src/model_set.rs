//! Sets of model ids.

use vstd::prelude::*;
use vstd::string::*;

use crate::text::{copied_texts, same_text, texts};

verus! {

/// A set of model ids.
#[derive(Debug)]
pub struct ModelSet {
    ids: Vec<String>,
}

impl View for ModelSet {
    type V = Set<Seq<char>>;

    closed spec fn view(&self) -> Set<Seq<char>> {
        texts(self.ids@).to_set()
    }
}

impl Clone for ModelSet {
    fn clone(&self) -> (copy: Self)
        ensures
            copy@ == self@,
            self.wf() ==> copy.wf(),
    {
        ModelSet { ids: copied_texts(&self.ids) }
    }
}

impl ModelSet {
    /// No id is held twice.
    pub closed spec fn wf(&self) -> bool {
        texts(self.ids@).no_duplicates()
    }

    /// The empty set.
    pub fn new() -> (set: Self)
        ensures
            set.wf(),
            set@ == Set::<Seq<char>>::empty(),
    {
        let set = ModelSet { ids: Vec::new() };
        assert(texts(set.ids@).to_set() =~= Set::<Seq<char>>::empty());
        set
    }

    /// The set of one id.
    pub fn of(id: &str) -> (set: Self)
        ensures
            set.wf(),
            set@ == Set::<Seq<char>>::empty().insert(id@),
    {
        let mut set = ModelSet::new();
        let _ = set.insert(id);
        set
    }

    /// Where an id stands in the list, if it does.
    fn position(&self, id: &str) -> (at: Option<usize>)
        ensures
            at matches Some(at) ==> at < self.ids@.len() && self.ids@[at as int]@ == id@,
            at is None ==> !self@.contains(id@),
    {
        let mut at: usize = 0;
        while at < self.ids.len()
            invariant
                at <= self.ids@.len(),
                forall|k: int| 0 <= k < at ==> #[trigger] self.ids@[k]@ != id@,
            decreases self.ids@.len() - at,
        {
            if same_text(self.ids[at].as_str(), id) {
                return Some(at);
            }
            at = at + 1;
        }
        assert forall|k: int| 0 <= k < texts(self.ids@).len() implies texts(self.ids@)[k]
            != id@ by {
            assert(self.ids@[k]@ != id@);
        }
        None
    }

    /// Whether the set holds an id.
    pub fn contains(&self, id: &str) -> (yes: bool)
        ensures
            yes == self@.contains(id@),
    {
        match self.position(id) {
            Some(at) => {
                assert(texts(self.ids@)[at as int] == id@);
                true
            },
            None => false,
        }
    }

    /// Puts an id into the set; says whether it was new.
    pub fn insert(&mut self, id: &str) -> (added: bool)
        requires
            old(self).wf(),
        ensures
            final(self).wf(),
            final(self)@ == old(self)@.insert(id@),
            added == !old(self)@.contains(id@),
    {
        if self.contains(id) {
            assert(self@.insert(id@) =~= self@);
            return false;
        }
        let ghost before = texts(self.ids@);
        self.ids.push(id.to_string());
        proof {
            let after = texts(self.ids@);
            assert(after =~= before.push(id@));
            assert(!before.contains(id@)) by {
                assert(!before.to_set().contains(id@));
            }
            assert forall|x: Seq<char>| after.to_set().contains(x) == before.to_set().insert(
                id@,
            ).contains(x) by {
                vstd::seq_lib::lemma_seq_contains_after_push(before, id@, x);
            }
            assert(after.to_set() =~= before.to_set().insert(id@));
        }
        true
    }

    /// Takes an id out of the set; says whether it was there.
    pub fn remove(&mut self, id: &str) -> (removed: bool)
        requires
            old(self).wf(),
        ensures
            final(self).wf(),
            final(self)@ == old(self)@.remove(id@),
            removed == old(self)@.contains(id@),
    {
        match self.position(id) {
            None => {
                assert(self@.remove(id@) =~= self@);
                false
            },
            Some(at) => {
                let ghost before = texts(self.ids@);
                let _ = self.ids.remove(at);
                proof {
                    let after = texts(self.ids@);
                    assert(after =~= before.remove(at as int));
                    assert(before[at as int] == id@);
                    assert forall|x: Seq<char>| after.to_set().contains(x)
                        == before.to_set().remove(id@).contains(x) by {
                        if after.contains(x) {
                            let i = choose|i: int| 0 <= i < after.len() && after[i] == x;
                            let j = if i < at { i } else { i + 1 };
                            assert(before[j] == x);
                        }
                        if before.contains(x) && x != id@ {
                            let j = choose|j: int| 0 <= j < before.len() && before[j] == x;
                            let i = if j < at { j } else { j - 1 };
                            assert(after[i] == x);
                        }
                    }
                    assert(after.to_set() =~= before.to_set().remove(id@));
                }
                true
            },
        }
    }
}

} // verus!
