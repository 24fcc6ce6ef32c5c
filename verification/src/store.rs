//! Finished results, waiting to be taken.
use crate::protocol::{FinalResult, FinalResultView};
use crate::text::same_text;
use vstd::prelude::*;

verus! {

/// A result with its owner and the moment at which it expires, in nanoseconds.
#[derive(Debug)]
pub struct StoredResult {
    pub owner: String,
    pub value: FinalResult,
    pub expires_at: u128,
}

/// The content of a [`StoredResult`].
#[verifier::ext_equal]
pub struct StoredView {
    pub owner: Seq<char>,
    pub value: FinalResultView,
    pub expires_at: u128,
}

impl View for StoredResult {
    type V = StoredView;

    open spec fn view(&self) -> StoredView {
        StoredView { owner: self.owner@, value: self.value@, expires_at: self.expires_at }
    }
}

/// Results by session.
#[derive(Debug)]
pub struct ResultTable {
    ids: Vec<String>,
    items: Vec<StoredResult>,
}

/// `ids[i]` is `id`.
spec fn stands_for(ids: Seq<String>, i: int, id: Seq<char>) -> bool {
    0 <= i < ids.len() && ids[i]@ == id
}

impl View for ResultTable {
    type V = Map<Seq<char>, StoredView>;

    closed spec fn view(&self) -> Map<Seq<char>, StoredView> {
        Map::new(
            |id: Seq<char>| exists|i: int| #[trigger] stands_for(self.ids@, i, id),
            |id: Seq<char>| self.items@[choose|i: int| #[trigger] stands_for(self.ids@, i, id)]@,
        )
    }
}

impl ResultTable {
    /// Every session has at most one result.
    pub closed spec fn wf(&self) -> bool {
        &&& self.ids@.len() == self.items@.len()
        &&& forall|i: int, j: int|
            0 <= i < j < self.ids@.len() ==> #[trigger] self.ids@[i]@ != #[trigger] self.ids@[j]@
    }

    proof fn lemma_at(&self, i: int)
        requires
            self.wf(),
            0 <= i < self.ids@.len(),
        ensures
            self@.contains_key(self.ids@[i]@),
            self@[self.ids@[i]@] == self.items@[i]@,
    {
        assert(stands_for(self.ids@, i, self.ids@[i]@));
        let j = choose|j: int| #[trigger] stands_for(self.ids@, j, self.ids@[i]@);
        assert(stands_for(self.ids@, j, self.ids@[i]@));
        assert(i == j);
    }

    proof fn lemma_key(&self, id: Seq<char>) -> (i: int)
        requires
            self.wf(),
            self@.contains_key(id),
        ensures
            stands_for(self.ids@, i, id),
            self@[id] == self.items@[i]@,
    {
        let i = choose|i: int| #[trigger] stands_for(self.ids@, i, id);
        assert(stands_for(self.ids@, i, id));
        self.lemma_at(i);
        i
    }

    /// No results.
    pub fn new() -> (r: ResultTable)
        ensures
            r.wf(),
            r@ == Map::<Seq<char>, StoredView>::empty(),
    {
        let r = ResultTable { ids: Vec::new(), items: Vec::new() };
        assert(r@ =~= Map::<Seq<char>, StoredView>::empty());
        r
    }

    fn position(&self, id: &str) -> (r: Option<usize>)
        requires
            self.wf(),
        ensures
            match r {
                Some(i) => stands_for(self.ids@, i as int, id@),
                None => !self@.contains_key(id@),
            },
    {
        let mut i: usize = 0;
        while i < self.ids.len()
            invariant
                i <= self.ids.len(),
                forall|j: int| 0 <= j < i ==> !#[trigger] stands_for(self.ids@, j, id@),
            decreases self.ids.len() - i,
        {
            if same_text(self.ids[i].as_str(), id) {
                return Some(i);
            }
            i += 1;
        }
        None
    }

    /// The result of a session.
    pub fn get(&self, id: &str) -> (r: Option<&StoredResult>)
        requires
            self.wf(),
        ensures
            match r {
                Some(item) => self@.contains_key(id@) && self@[id@] == item@,
                None => !self@.contains_key(id@),
            },
    {
        match self.position(id) {
            Some(i) => {
                proof {
                    self.lemma_at(i as int);
                }
                Some(&self.items[i])
            },
            None => None,
        }
    }

    fn remove_at(&mut self, i: usize) -> (r: StoredResult)
        requires
            old(self).wf(),
            i < old(self).ids@.len(),
        ensures
            final(self).wf(),
            final(self).ids@ == old(self).ids@.remove(i as int),
            final(self).items@ == old(self).items@.remove(i as int),
            final(self)@ == old(self)@.remove(old(self).ids@[i as int]@),
            r == old(self).items@[i as int],
    {
        let ghost before = *self;
        let ghost id = self.ids@[i as int]@;
        self.ids.remove(i);
        let item = self.items.remove(i);
        proof {
            assert forall|key: Seq<char>| #[trigger] self@.dom().contains(key) implies before@.remove(
                id,
            ).dom().contains(key) && self@[key] == before@.remove(id)[key] by {
                let j = self.lemma_key(key);
                if j < i {
                    assert(before.ids@[j]@ == key);
                    before.lemma_at(j);
                } else {
                    assert(before.ids@[j + 1]@ == key);
                    before.lemma_at(j + 1);
                }
            }
            assert forall|key: Seq<char>| #[trigger] before@.remove(id).dom().contains(
                key,
            ) implies self@.dom().contains(key) by {
                let j = before.lemma_key(key);
                if j < i {
                    self.lemma_at(j);
                } else {
                    assert(self.ids@[j - 1]@ == key);
                    self.lemma_at(j - 1);
                }
            }
            assert(self@ =~= before@.remove(id));
        }
        item
    }

    /// Takes the result of a session out.
    pub fn remove(&mut self, id: &str) -> (r: Option<StoredResult>)
        requires
            old(self).wf(),
        ensures
            final(self).wf(),
            final(self)@ == old(self)@.remove(id@),
            match r {
                Some(item) => old(self)@.contains_key(id@) && old(self)@[id@] == item@,
                None => !old(self)@.contains_key(id@),
            },
    {
        match self.position(id) {
            Some(i) => {
                proof {
                    self.lemma_at(i as int);
                }
                Some(self.remove_at(i))
            },
            None => {
                assert(self@.remove(id@) =~= self@);
                None
            },
        }
    }

    /// Adds the result of a session, in place of one that is there.
    pub fn insert(&mut self, id: String, item: StoredResult)
        requires
            old(self).wf(),
        ensures
            final(self).wf(),
            final(self)@ == old(self)@.insert(id@, item@),
    {
        let ghost start = self@;
        self.remove(id.as_str());
        let ghost before = *self;
        let ghost added = item@;
        proof {
            assert forall|j: int| 0 <= j < before.ids@.len() implies before.ids@[j]@ != id@ by {
                before.lemma_at(j);
            }
        }
        self.ids.push(id);
        self.items.push(item);
        proof {
            let last = before.ids@.len() as int;
            self.lemma_at(last);
            assert forall|key: Seq<char>| #[trigger] self@.dom().contains(key) implies start.insert(
                id@,
                added,
            ).dom().contains(key) && self@[key] == start.insert(id@, added)[key] by {
                let j = self.lemma_key(key);
                if j < last {
                    before.lemma_at(j);
                }
            }
            assert forall|key: Seq<char>| #[trigger] start.insert(id@, added).dom().contains(
                key,
            ) implies self@.dom().contains(key) by {
                if key != id@ {
                    let j = before.lemma_key(key);
                    self.lemma_at(j);
                }
            }
            assert(self@ =~= start.insert(id@, added));
        }
    }

    /// Drops what has expired at `now`.
    pub fn retain_unexpired(&mut self, now: u64)
        requires
            old(self).wf(),
        ensures
            final(self).wf(),
            final(self)@ == unexpired(old(self)@, now),
    {
        let ghost start = self@;
        let mut i: usize = self.ids.len();
        while i > 0
            invariant
                self.wf(),
                i <= self.ids@.len(),
                self.ids@.len() == self.items@.len(),
                unexpired(self@, now) == unexpired(start, now),
                forall|j: int|
                    i <= j < self.items@.len() ==> (#[trigger] self.items@[j]).expires_at > now,
            decreases i,
        {
            i -= 1;
            if self.items[i].expires_at <= now as u128 {
                let ghost before = self@;
                proof {
                    self.lemma_at(i as int);
                }
                self.remove_at(i);
                assert(unexpired(self@, now) =~= unexpired(before, now));
            }
        }
        proof {
            assert forall|id: Seq<char>| #[trigger] self@.dom().contains(
                id,
            ) implies self@[id].expires_at > now by {
                let j = self.lemma_key(id);
                assert(self.items@[j].expires_at > now);
            }
            assert(unexpired(self@, now) =~= self@);
        }
    }
}

/// The results that have not expired at `now`.
pub open spec fn unexpired(results: Map<Seq<char>, StoredView>, now: u64) -> Map<
    Seq<char>,
    StoredView,
> {
    results.restrict(
        Set::new(|id: Seq<char>| results.contains_key(id) && results[id].expires_at > now),
    )
}

} // verus!
