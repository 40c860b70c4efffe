//! An ordered map from slot names to part ids (a sorted association list).
use vstd::prelude::*;

use crate::text::{lemma_seq_lt_irreflexive, lemma_seq_lt_total, lemma_seq_lt_transitive, seq_lt, str_eq, str_lt};

verus! {

/// The (key, value) views of a list of string pairs.
pub open spec fn pair_views(es: Seq<(String, String)>) -> Seq<(Seq<char>, Seq<char>)> {
    es.map_values(|e: (String, String)| (e.0@, e.1@))
}

/// Keys strictly increasing.
pub open spec fn keys_sorted(ps: Seq<(Seq<char>, Seq<char>)>) -> bool {
    forall|i: int, j: int| 0 <= i < j < ps.len() ==> seq_lt(#[trigger] ps[i].0, #[trigger] ps[j].0)
}

/// Whether `k` is one of the keys.
pub open spec fn has_key(ps: Seq<(Seq<char>, Seq<char>)>, k: Seq<char>) -> bool {
    exists|i: int| 0 <= i < ps.len() && ps[i].0 == k
}

/// The value stored under `k` (at its first occurrence).
pub open spec fn lookup(ps: Seq<(Seq<char>, Seq<char>)>, k: Seq<char>) -> Option<Seq<char>>
    decreases ps.len(),
{
    if ps.len() == 0 {
        None
    } else if ps[0].0 == k {
        Some(ps[0].1)
    } else {
        lookup(ps.drop_first(), k)
    }
}

/// The map of a key-sorted list.
pub open spec fn pairs_map(ps: Seq<(Seq<char>, Seq<char>)>) -> Map<Seq<char>, Seq<char>> {
    Map::new(|k: Seq<char>| has_key(ps, k), |k: Seq<char>| lookup(ps, k)->0)
}

/// In a key-sorted list, the value of the key at position `i` is the value there.
pub proof fn lemma_lookup_at(ps: Seq<(Seq<char>, Seq<char>)>, n: int)
    requires
        keys_sorted(ps),
        0 <= n < ps.len(),
    ensures
        lookup(ps, ps[n].0) == Some(ps[n].1),
        pairs_map(ps).contains_key(ps[n].0),
        pairs_map(ps)[ps[n].0] == ps[n].1,
    decreases n,
{
    let k = ps[n].0;
    assert(has_key(ps, k));
    if n > 0 {
        assert(seq_lt(ps[0].0, ps[n].0));
        lemma_seq_lt_irreflexive(k);
        let t = ps.drop_first();
        assert(keys_sorted(t)) by {
            assert forall|a: int, b: int| 0 <= a < b < t.len() implies seq_lt(
                #[trigger] t[a].0,
                #[trigger] t[b].0,
            ) by {
                assert(seq_lt(ps[a + 1].0, ps[b + 1].0));
            }
        }
        lemma_lookup_at(t, n - 1);
        assert(t[n - 1] == ps[n]);
    }
}

/// A map from slot names to part ids, kept sorted by slot name.
#[derive(Debug)]
pub struct SlotMap {
    entries: Vec<(String, String)>,
}

impl SlotMap {
    #[verifier::type_invariant]
    spec fn sorted(self) -> bool {
        keys_sorted(pair_views(self.entries@))
    }

    /// The entries in key order.
    pub closed spec fn pairs(self) -> Seq<(Seq<char>, Seq<char>)> {
        pair_views(self.entries@)
    }

    /// The map.
    pub open spec fn map(self) -> Map<Seq<char>, Seq<char>> {
        pairs_map(self.pairs())
    }

    /// The keys, in increasing order.
    pub open spec fn keys(self) -> Seq<Seq<char>> {
        self.pairs().map_values(|p: (Seq<char>, Seq<char>)| p.0)
    }

    /// Brings into scope that the entries are sorted by key.
    pub fn reveal_sorted(&self)
        ensures
            keys_sorted(self.pairs()),
    {
        proof {
            use_type_invariant(self);
        }
    }

    /// An empty map.
    pub fn new() -> (m: SlotMap)
        ensures
            m.pairs() == Seq::<(Seq<char>, Seq<char>)>::empty(),
            m.map() == Map::<Seq<char>, Seq<char>>::empty(),
    {
        let m = SlotMap { entries: Vec::new() };
        assert(m.pairs() =~= Seq::<(Seq<char>, Seq<char>)>::empty());
        assert(m.map() =~= Map::<Seq<char>, Seq<char>>::empty());
        m
    }

    /// The number of entries.
    pub fn len(&self) -> (n: usize)
        ensures
            n == self.pairs().len(),
    {
        self.entries.len()
    }

    /// The key and value at position `i` (in key order).
    pub fn entry_at(&self, i: usize) -> (r: (&String, &String))
        requires
            i < self.pairs().len(),
        ensures
            (r.0@, r.1@) == self.pairs()[i as int],
    {
        let e = &self.entries[i];
        (&e.0, &e.1)
    }

    /// The value stored under `key`.
    pub fn get(&self, key: &str) -> (r: Option<&String>)
        ensures
            match r {
                Some(v) => self.map().contains_key(key@) && self.map()[key@] == v@,
                None => !self.map().contains_key(key@),
            },
    {
        proof {
            use_type_invariant(self);
        }
        let mut i: usize = 0;
        while i < self.entries.len()
            invariant
                i <= self.entries@.len(),
                keys_sorted(self.pairs()),
                forall|k: int| 0 <= k < i ==> #[trigger] self.pairs()[k].0 != key@,
            decreases self.entries@.len() - i,
        {
            if str_eq(self.entries[i].0.as_str(), key) {
                proof {
                    lemma_lookup_at(self.pairs(), i as int);
                }
                return Some(&self.entries[i].1);
            }
            i = i + 1;
        }
        None
    }

    /// Whether `key` is present.
    pub fn contains_key(&self, key: &str) -> (r: bool)
        ensures
            r == self.map().contains_key(key@),
    {
        self.get(key).is_some()
    }

    /// Sets `key` to `value`.
    pub fn insert(&mut self, key: String, value: String)
        ensures
            final(self).map() == old(self).map().insert(key@, value@),
    {
        proof {
            use_type_invariant(&*self);
        }
        let ghost old_ps = self.pairs();
        let mut es: Vec<(String, String)> = Vec::new();
        std::mem::swap(&mut es, &mut self.entries);
        assert(pair_views(es@) == old_ps);
        let mut i: usize = 0;
        while i < es.len() && str_lt(es[i].0.as_str(), key.as_str())
            invariant
                i <= es@.len(),
                old_ps == pair_views(es@),
                keys_sorted(old_ps),
                forall|k: int| 0 <= k < i ==> seq_lt(#[trigger] old_ps[k].0, key@),
            decreases es@.len() - i,
        {
            i = i + 1;
        }
        let ghost kv = key@;
        let ghost vv = value@;
        if i < es.len() && str_eq(es[i].0.as_str(), key.as_str()) {
            let ghost new_ps = old_ps.update(i as int, (kv, vv));
            proof {
                assert forall|a: int, b: int| 0 <= a < b < new_ps.len() implies seq_lt(
                    #[trigger] new_ps[a].0,
                    #[trigger] new_ps[b].0,
                ) by {
                    assert(seq_lt(old_ps[a].0, old_ps[b].0));
                }
            }
            es.set(i, (key, value));
            proof {
                assert(pair_views(es@) =~= new_ps);
                lemma_map_update(old_ps, new_ps, i as int);
            }
        } else {
            let ghost new_ps = old_ps.insert(i as int, (kv, vv));
            proof {
                if i < old_ps.len() {
                    lemma_seq_lt_total(old_ps[i as int].0, kv);
                }
                assert forall|a: int, b: int| 0 <= a < b < new_ps.len() implies seq_lt(
                    #[trigger] new_ps[a].0,
                    #[trigger] new_ps[b].0,
                ) by {
                    if a < i && b == i {
                    } else if a < i && b > i {
                        assert(seq_lt(old_ps[a].0, old_ps[b - 1].0));
                    } else if a == i && b > i {
                        if b - 1 > i {
                            assert(seq_lt(old_ps[i as int].0, old_ps[b - 1].0));
                            lemma_seq_lt_transitive(kv, old_ps[i as int].0, old_ps[b - 1].0);
                        }
                    } else if a > i {
                        assert(seq_lt(old_ps[a - 1].0, old_ps[b - 1].0));
                    } else {
                        assert(seq_lt(old_ps[a].0, old_ps[b].0));
                    }
                }
            }
            es.insert(i, (key, value));
            proof {
                assert(pair_views(es@) =~= new_ps);
                lemma_map_insert(old_ps, new_ps, i as int);
            }
        }
        self.entries = es;
    }

    /// Removes every entry.
    pub fn clear(&mut self)
        ensures
            final(self).map() == Map::<Seq<char>, Seq<char>>::empty(),
            final(self).pairs() == Seq::<(Seq<char>, Seq<char>)>::empty(),
    {
        self.entries = Vec::new();
        assert(self.pairs() =~= Seq::<(Seq<char>, Seq<char>)>::empty());
        assert(self.map() =~= Map::<Seq<char>, Seq<char>>::empty());
    }

    /// A copy of the map.
    pub fn copy(&self) -> (r: SlotMap)
        ensures
            r.pairs() == self.pairs(),
            r.map() == self.map(),
    {
        proof {
            use_type_invariant(self);
        }
        let mut out: Vec<(String, String)> = Vec::new();
        let mut i: usize = 0;
        while i < self.entries.len()
            invariant
                i <= self.entries@.len(),
                pair_views(out@) == self.pairs().take(i as int),
            decreases self.entries@.len() - i,
        {
            let e = &self.entries[i];
            let a = e.0.clone();
            let b = e.1.clone();
            let ghost before = out@;
            out.push((a, b));
            proof {
                assert(self.pairs()[i as int] == (a@, b@));
                assert(pair_views(out@) =~= pair_views(before).push((a@, b@)));
                assert(self.pairs().take(i + 1) =~= self.pairs().take(i as int).push((a@, b@)));
            }
            i = i + 1;
        }
        assert(self.pairs().take(self.pairs().len() as int) =~= self.pairs());
        SlotMap { entries: out }
    }
}

proof fn lemma_map_update(
    old_ps: Seq<(Seq<char>, Seq<char>)>,
    new_ps: Seq<(Seq<char>, Seq<char>)>,
    i: int,
)
    requires
        keys_sorted(old_ps),
        keys_sorted(new_ps),
        0 <= i < old_ps.len(),
        new_ps == old_ps.update(i, (old_ps[i].0, new_ps[i].1)),
    ensures
        pairs_map(new_ps) == pairs_map(old_ps).insert(old_ps[i].0, new_ps[i].1),
{
    let k = old_ps[i].0;
    assert forall|x: Seq<char>| #[trigger] pairs_map(new_ps).contains_key(x) == pairs_map(
        old_ps,
    ).insert(k, new_ps[i].1).contains_key(x) by {
        if has_key(new_ps, x) {
            let j = choose|j: int| 0 <= j < new_ps.len() && new_ps[j].0 == x;
            assert(old_ps[j].0 == x);
        }
        if has_key(old_ps, x) {
            let j = choose|j: int| 0 <= j < old_ps.len() && old_ps[j].0 == x;
            assert(new_ps[j].0 == x);
        }
    }
    assert forall|x: Seq<char>| pairs_map(new_ps).contains_key(x) implies #[trigger] pairs_map(
        new_ps,
    )[x] == pairs_map(old_ps).insert(k, new_ps[i].1)[x] by {
        let j = choose|j: int| 0 <= j < new_ps.len() && new_ps[j].0 == x;
        lemma_lookup_at(new_ps, j);
        if j != i {
            lemma_lookup_at(old_ps, j);
            assert(new_ps[j] == old_ps[j]);
            if j < i {
                assert(seq_lt(old_ps[j].0, old_ps[i].0));
            } else {
                assert(seq_lt(old_ps[i].0, old_ps[j].0));
            }
            lemma_seq_lt_irreflexive(x);
        }
    }
    assert(pairs_map(new_ps) =~= pairs_map(old_ps).insert(k, new_ps[i].1));
}

proof fn lemma_map_insert(
    old_ps: Seq<(Seq<char>, Seq<char>)>,
    new_ps: Seq<(Seq<char>, Seq<char>)>,
    i: int,
)
    requires
        keys_sorted(old_ps),
        keys_sorted(new_ps),
        0 <= i <= old_ps.len(),
        new_ps == old_ps.insert(i, new_ps[i]),
    ensures
        pairs_map(new_ps) == pairs_map(old_ps).insert(new_ps[i].0, new_ps[i].1),
{
    let k = new_ps[i].0;
    let v = new_ps[i].1;
    assert forall|x: Seq<char>| #[trigger] pairs_map(new_ps).contains_key(x) == pairs_map(
        old_ps,
    ).insert(k, v).contains_key(x) by {
        if has_key(new_ps, x) {
            let j = choose|j: int| 0 <= j < new_ps.len() && new_ps[j].0 == x;
            if j < i {
                assert(old_ps[j].0 == x);
            } else if j > i {
                assert(old_ps[j - 1].0 == x);
            }
        }
        if has_key(old_ps, x) {
            let j = choose|j: int| 0 <= j < old_ps.len() && old_ps[j].0 == x;
            if j < i {
                assert(new_ps[j].0 == x);
            } else {
                assert(new_ps[j + 1].0 == x);
            }
        }
    }
    assert forall|x: Seq<char>| pairs_map(new_ps).contains_key(x) implies #[trigger] pairs_map(
        new_ps,
    )[x] == pairs_map(old_ps).insert(k, v)[x] by {
        let j = choose|j: int| 0 <= j < new_ps.len() && new_ps[j].0 == x;
        lemma_lookup_at(new_ps, j);
        if j < i {
            lemma_lookup_at(old_ps, j);
            assert(new_ps[j] == old_ps[j]);
            assert(seq_lt(new_ps[j].0, new_ps[i].0));
            lemma_seq_lt_irreflexive(x);
        } else if j > i {
            lemma_lookup_at(old_ps, j - 1);
            assert(new_ps[j] == old_ps[j - 1]);
            assert(seq_lt(new_ps[i].0, new_ps[j].0));
            lemma_seq_lt_irreflexive(x);
        }
    }
    assert(pairs_map(new_ps) =~= pairs_map(old_ps).insert(k, v));
}

/// Extending a key-sorted prefix by one entry adds that entry to its map.
pub proof fn lemma_pairs_map_take(ps: Seq<(Seq<char>, Seq<char>)>, i: int)
    requires
        keys_sorted(ps),
        0 <= i < ps.len(),
    ensures
        pairs_map(ps.take(i + 1)) == pairs_map(ps.take(i)).insert(ps[i].0, ps[i].1),
{
    let a = ps.take(i);
    let b = ps.take(i + 1);
    assert(keys_sorted(a)) by {
        assert forall|x: int, y: int| 0 <= x < y < a.len() implies seq_lt(#[trigger] a[x].0, #[trigger] a[y].0) by {
            assert(a[x] == ps[x] && a[y] == ps[y]);
        }
    }
    assert(keys_sorted(b)) by {
        assert forall|x: int, y: int| 0 <= x < y < b.len() implies seq_lt(#[trigger] b[x].0, #[trigger] b[y].0) by {
            assert(b[x] == ps[x] && b[y] == ps[y]);
        }
    }
    let m = pairs_map(a).insert(ps[i].0, ps[i].1);
    assert forall|k: Seq<char>| #[trigger] pairs_map(b).contains_key(k) == m.contains_key(k) by {
        if has_key(b, k) {
            let j = choose|j: int| 0 <= j < b.len() && b[j].0 == k;
            if j < i {
                assert(a[j].0 == k);
            }
        }
        if has_key(a, k) {
            let j = choose|j: int| 0 <= j < a.len() && a[j].0 == k;
            assert(b[j].0 == k);
        }
        if k == ps[i].0 {
            assert(b[i].0 == k);
        }
    }
    assert forall|k: Seq<char>| pairs_map(b).contains_key(k) implies #[trigger] pairs_map(b)[k] == m[k] by {
        let j = choose|j: int| 0 <= j < b.len() && b[j].0 == k;
        lemma_lookup_at(b, j);
        if j < i {
            assert(a[j] == b[j]);
            lemma_lookup_at(a, j);
            assert(seq_lt(b[j].0, b[i].0));
            lemma_seq_lt_irreflexive(k);
        } else {
            assert(b[j] == ps[i]);
        }
    }
    assert(pairs_map(b) =~= m);
}

} // verus!
