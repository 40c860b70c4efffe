//! Laws of the parts index's id table.
use vstd::prelude::*;

use crate::parts::{id_table, key_pos, PartView};

verus! {

proof fn lemma_id_table_keys(ps: Seq<PartView>)
    ensures
        forall|a: int, b: int|
            0 <= a < b < id_table(ps).len() ==> (#[trigger] id_table(ps)[a]).0 != (#[trigger] id_table(ps)[b]).0,
        forall|m: int|
            0 <= m < ps.len() ==> exists|i: int|
                0 <= i < id_table(ps).len() && (#[trigger] id_table(ps)[i]).0 == (#[trigger] ps[m]).id,
    decreases ps.len(),
{
    if ps.len() > 0 {
        let d = ps.drop_last();
        lemma_id_table_keys(d);
        let g = id_table(d);
        let p = ps.last();
        let k = key_pos(g, p.id);
        crate::parts::lemma_key_pos(g, p.id);
        let t = id_table(ps);
        assert forall|a: int, b: int| 0 <= a < b < t.len() implies (#[trigger] t[a]).0 != (#[trigger] t[b]).0 by {
            if b < g.len() {
                assert(t[a].0 == g[a].0 && t[b].0 == g[b].0);
            } else {
                assert(t[a].0 == g[a].0);
            }
        }
        assert forall|m: int| 0 <= m < ps.len() implies exists|i: int|
            0 <= i < t.len() && (#[trigger] t[i]).0 == (#[trigger] ps[m]).id by {
            if m == ps.len() - 1 {
                assert(t[k].0 == p.id);
            } else {
                assert(ps[m] == d[m]);
                let j = choose|j: int| 0 <= j < g.len() && (#[trigger] g[j]).0 == (#[trigger] d[m]).id;
                assert(t[j].0 == g[j].0);
            }
        }
    }
}

/// Whether `ps[m]` is the last of `ps` with its id.
pub open spec fn last_of_its_id(ps: Seq<PartView>, m: int) -> bool {
    0 <= m < ps.len() && forall|n: int| m < n < ps.len() ==> (#[trigger] ps[n]).id != ps[m].id
}

proof fn lemma_id_table_values(ps: Seq<PartView>)
    ensures
        forall|i: int|
            0 <= i < id_table(ps).len() ==> exists|m: int|
                last_of_its_id(ps, m) && ps[m] == (#[trigger] id_table(ps)[i]).1 && ps[m].id == id_table(ps)[i].0,
    decreases ps.len(),
{
    if ps.len() > 0 {
        let d = ps.drop_last();
        lemma_id_table_values(d);
        lemma_id_table_keys(d);
        let g = id_table(d);
        let p = ps.last();
        let k = key_pos(g, p.id);
        crate::parts::lemma_key_pos(g, p.id);
        let t = id_table(ps);
        let last = ps.len() - 1;
        assert forall|i: int| 0 <= i < t.len() implies exists|m: int|
            last_of_its_id(ps, m) && ps[m] == (#[trigger] t[i]).1 && ps[m].id == t[i].0 by {
            if i == k || i == g.len() {
                assert(t[i] == (p.id, p));
                assert(ps[last] == p);
                assert(last_of_its_id(ps, last));
            } else {
                assert(t[i] == g[i]);
                let m = choose|m: int| last_of_its_id(d, m) && d[m] == (#[trigger] g[i]).1 && d[m].id == g[i].0;
                assert(ps[m] == d[m]);
                if k < g.len() {
                    if i < k {
                        assert(g[i].0 != g[k].0);
                    } else {
                        assert(g[k].0 != g[i].0);
                    }
                }
                assert(g[i].0 != p.id);
                assert(0 <= m < d.len());
                assert forall|n: int| m < n < ps.len() implies (#[trigger] ps[n]).id != ps[m].id by {
                    if n < last {
                        assert(0 <= n < d.len());
                        assert(d[n].id != d[m].id);
                        assert(ps[n] == d[n]);
                    }
                }
                assert(last_of_its_id(ps, m));
            }
        }
    }
}

/// The id table of an index built from some parts lists each id once,
/// every part's id among them, and under each id the last of the parts
/// given that has it.
pub proof fn law_index_ids(ps: Seq<PartView>)
    ensures
        forall|a: int, b: int|
            0 <= a < b < id_table(ps).len() ==> (#[trigger] id_table(ps)[a]).0 != (#[trigger] id_table(ps)[b]).0,
        forall|m: int|
            0 <= m < ps.len() ==> id_table(ps).map_values(|e: (Seq<char>, PartView)| e.0).contains(
                (#[trigger] ps[m]).id,
            ),
        forall|i: int|
            0 <= i < id_table(ps).len() ==> exists|m: int|
                last_of_its_id(ps, m) && ps[m] == (#[trigger] id_table(ps)[i]).1 && ps[m].id == id_table(ps)[i].0,
{
    lemma_id_table_keys(ps);
    lemma_id_table_values(ps);
    let t = id_table(ps);
    let ks = t.map_values(|e: (Seq<char>, PartView)| e.0);
    assert forall|m: int| 0 <= m < ps.len() implies ks.contains((#[trigger] ps[m]).id) by {
        let i = choose|i: int| 0 <= i < t.len() && (#[trigger] t[i]).0 == (#[trigger] ps[m]).id;
        assert(ks[i] == ps[m].id);
    }
}

} // verus!
