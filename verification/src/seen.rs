//! The set of identifiers a scan has already reported.
use vstd::prelude::*;

use crate::text::{insert_sorted_unique, strictly_sorted, vec_contains_str, views};

verus! {

/// Identifiers seen so far, kept sorted without duplicates.
#[derive(Debug)]
pub struct SeenIds {
    ids: Vec<String>,
}

impl SeenIds {
    #[verifier::type_invariant]
    spec fn sorted(self) -> bool {
        strictly_sorted(views(self.ids@))
    }

    /// The identifiers seen.
    pub closed spec fn set(self) -> Set<Seq<char>> {
        views(self.ids@).to_set()
    }

    /// Nothing seen yet.
    pub fn new() -> (r: SeenIds)
        ensures
            r.set() == Set::<Seq<char>>::empty(),
    {
        let r = SeenIds { ids: Vec::new() };
        assert(views(r.ids@).to_set() =~= Set::<Seq<char>>::empty());
        r
    }

    /// Whether `id` was seen.
    pub fn contains(&self, id: &str) -> (r: bool)
        ensures
            r == self.set().contains(id@),
    {
        vec_contains_str(&self.ids, id)
    }

    /// Forgets `id`.
    pub fn remove(&mut self, id: &str)
        ensures
            final(self).set() == old(self).set().remove(id@),
    {
        proof {
            use_type_invariant(&*self);
        }
        let mut i: usize = 0;
        while i < self.ids.len() && !crate::text::str_eq(self.ids[i].as_str(), id)
            invariant
                i <= self.ids@.len(),
                forall|k: int| 0 <= k < i ==> #[trigger] self.ids@[k]@ != id@,
            decreases self.ids@.len() - i,
        {
            i = i + 1;
        }
        if i == self.ids.len() {
            assert(views(self.ids@).to_set().remove(id@) =~= views(self.ids@).to_set()) by {
                assert forall|k: int| 0 <= k < views(self.ids@).len() implies views(self.ids@)[k] != id@ by {
                    assert(views(self.ids@)[k] == self.ids@[k]@);
                }
            }
            return;
        }
        let mut ids: Vec<String> = Vec::new();
        std::mem::swap(&mut ids, &mut self.ids);
        let ghost before = views(ids@);
        proof {
            assert(before[i as int] == id@);
        }
        ids.remove(i);
        proof {
            let after = views(ids@);
            assert(after =~= before.remove(i as int));
            assert(strictly_sorted(after)) by {
                assert forall|a: int, b: int| 0 <= a < b < after.len() implies crate::text::seq_lt(
                    #[trigger] after[a],
                    #[trigger] after[b],
                ) by {
                    let a2 = if a < i { a } else { a + 1 };
                    let b2 = if b < i { b } else { b + 1 };
                    assert(after[a] == before[a2] && after[b] == before[b2]);
                }
            }
            assert(after.to_set() =~= before.to_set().remove(id@)) by {
                assert forall|e: Seq<char>| after.to_set().contains(e) implies before.to_set().remove(id@).contains(e) by {
                    let k = choose|k: int| 0 <= k < after.len() && after[k] == e;
                    let k2 = if k < i { k } else { k + 1 };
                    assert(before[k2] == e);
                    if e == id@ {
                        if k2 < i {
                            assert(crate::text::seq_lt(before[k2], before[i as int]));
                        } else {
                            assert(crate::text::seq_lt(before[i as int], before[k2]));
                        }
                        crate::text::lemma_seq_lt_irreflexive(e);
                    }
                }
                assert forall|e: Seq<char>| before.to_set().remove(id@).contains(e) implies after.to_set().contains(e) by {
                    let k = choose|k: int| 0 <= k < before.len() && before[k] == e;
                    if k < i {
                        assert(after[k] == e);
                    } else {
                        assert(k != i);
                        assert(after[k - 1] == e);
                    }
                }
            }
        }
        self.ids = ids;
    }

    /// Whether nothing was seen.
    pub fn is_empty(&self) -> (r: bool)
        ensures
            r == (self.set() == Set::<Seq<char>>::empty()),
    {
        let r = self.ids.len() == 0;
        proof {
            if r {
                assert(views(self.ids@).to_set() =~= Set::<Seq<char>>::empty());
            } else {
                assert(views(self.ids@).to_set().contains(views(self.ids@)[0]));
            }
        }
        r
    }

    /// Hands out every identifier and forgets them.
    pub fn drain(&mut self) -> (r: Vec<String>)
        ensures
            views(r@).to_set() == old(self).set(),
            final(self).set() == Set::<Seq<char>>::empty(),
    {
        let mut ids: Vec<String> = Vec::new();
        std::mem::swap(&mut ids, &mut self.ids);
        assert(views(self.ids@).to_set() =~= Set::<Seq<char>>::empty());
        ids
    }

    /// Records `id`; whether it was new.
    pub fn insert(&mut self, id: String) -> (r: bool)
        ensures
            r == !old(self).set().contains(id@),
            final(self).set() == old(self).set().insert(id@),
    {
        proof {
            use_type_invariant(&*self);
        }
        let present = self.contains(id.as_str());
        let mut ids: Vec<String> = Vec::new();
        std::mem::swap(&mut ids, &mut self.ids);
        insert_sorted_unique(&mut ids, id);
        self.ids = ids;
        !present
    }
}

/// The running totals of a parts or engine scan: files looked at, and the
/// part identifiers reported.
#[derive(Debug)]
pub struct PartCounter {
    scanned: usize,
    seen: SeenIds,
}

impl PartCounter {
    /// Files looked at.
    pub closed spec fn spec_scanned(self) -> nat {
        self.scanned as nat
    }

    /// Identifiers reported.
    pub closed spec fn spec_seen(self) -> Set<Seq<char>> {
        self.seen.set()
    }

    /// Nothing scanned yet.
    pub fn new() -> (r: PartCounter)
        ensures
            r.spec_scanned() == 0,
            r.spec_seen() == Set::<Seq<char>>::empty(),
    {
        PartCounter { scanned: 0, seen: SeenIds::new() }
    }

    /// Files looked at.
    pub fn scanned(&self) -> (r: usize)
        ensures
            r == self.spec_scanned(),
    {
        self.scanned
    }

    /// Counts one more file; whether a progress report is due (every
    /// `every` files).
    pub fn next_file(&mut self, every: usize) -> (r: bool)
        requires
            old(self).spec_scanned() < usize::MAX,
            every > 0,
        ensures
            final(self).spec_scanned() == old(self).spec_scanned() + 1,
            final(self).spec_seen() == old(self).spec_seen(),
            r == (final(self).spec_scanned() % (every as nat) == 0),
    {
        self.scanned = self.scanned + 1;
        self.scanned % every == 0
    }

    /// Records a part; whether it was not reported before.
    pub fn first_sighting(&mut self, id: String) -> (r: bool)
        ensures
            r == !old(self).spec_seen().contains(id@),
            final(self).spec_seen() == old(self).spec_seen().insert(id@),
            final(self).spec_scanned() == old(self).spec_scanned(),
    {
        self.seen.insert(id)
    }
}

} // verus!
