//! The rank bookkeeping of Reciprocal Rank Fusion.
//!
//! Given ordered result lists (rank 1 = best), each document scores
//! `Σ_lists [d ∈ list] * 1 / (k + rank_list(d))`: one contribution per
//! list, at the document's first (best) rank in it. The scores are floating
//! point; what is decided exactly here is which documents take part and at
//! which ranks, in the order the contributions are summed.

use vstd::prelude::*;

use crate::grounding::{dedup_spec, lemma_dedup};
use crate::text::{chars_eq, chars_of, list_contains, string_from, views};

verus! {

/// The 1-based rank of the first occurrence of `id` in `list`, as a
/// sequence of one rank, or none when `id` does not occur.
pub open spec fn ranks_in(list: Seq<Seq<char>>, id: Seq<char>) -> Seq<nat>
    decreases list.len(),
{
    if list.len() == 0 {
        seq![]
    } else {
        let before = ranks_in(list.drop_last(), id);
        if before.len() == 0 && list.last() == id {
            seq![list.len()]
        } else {
            before
        }
    }
}

/// The ranks of `id` in every list of `lists`, list after list.
pub open spec fn ranks_across(lists: Seq<Seq<Seq<char>>>, id: Seq<char>) -> Seq<nat>
    decreases lists.len(),
{
    if lists.len() == 0 {
        seq![]
    } else {
        ranks_across(lists.drop_last(), id) + ranks_in(lists.last(), id)
    }
}

/// All the identifiers of `lists`, list after list.
pub open spec fn all_entries(lists: Seq<Seq<Seq<char>>>) -> Seq<Seq<char>>
    decreases lists.len(),
{
    if lists.len() == 0 {
        seq![]
    } else {
        all_entries(lists.drop_last()) + lists.last()
    }
}

proof fn lemma_ranks_in(list: Seq<Seq<char>>, id: Seq<char>)
    ensures
        ranks_in(list, id).len() > 0 <==> list.contains(id),
        ranks_in(list, id).len() <= 1,
        forall|i: int|
            0 <= i < ranks_in(list, id).len() ==> 1 <= #[trigger] ranks_in(list, id)[i] <= list.len()
                && list[ranks_in(list, id)[i] - 1] == id && forall|j: int|
                0 <= j < ranks_in(list, id)[i] - 1 ==> list[j] != id,
    decreases list.len(),
{
    if list.len() > 0 {
        let p = list.drop_last();
        lemma_ranks_in(p, id);
        if p.contains(id) {
            let k = choose|k: int| 0 <= k < p.len() && p[k] == id;
            assert(list[k] == id);
        }
        if list.contains(id) && list.last() != id {
            let k = choose|k: int| 0 <= k < list.len() && list[k] == id;
            assert(k < list.len() - 1);
            assert(p[k] == id);
        }
        if list.last() == id {
            assert(list[list.len() - 1] == id);
        }
        let r = ranks_in(list, id);
        assert forall|i: int| 0 <= i < r.len() implies 1 <= #[trigger] r[i] <= list.len() && list[r[i]
            - 1] == id && forall|j: int| 0 <= j < r[i] - 1 ==> list[j] != id by {
            if ranks_in(p, id).len() > 0 {
                assert(r[i] == ranks_in(p, id)[i]);
                assert(list[r[i] - 1] == p[r[i] - 1]);
                assert forall|j: int| 0 <= j < r[i] - 1 implies list[j] != id by {
                    assert(list[j] == p[j]);
                }
            } else {
                assert forall|j: int| 0 <= j < r[i] - 1 implies list[j] != id by {
                    assert(list[j] == p[j]);
                    if p[j] == id {
                        assert(p.contains(id));
                    }
                }
            }
        }
    }
}

proof fn lemma_ranks_across(lists: Seq<Seq<Seq<char>>>, id: Seq<char>)
    ensures
        ranks_across(lists, id).len() > 0 <==> all_entries(lists).contains(id),
    decreases lists.len(),
{
    if lists.len() > 0 {
        let p = lists.drop_last();
        lemma_ranks_across(p, id);
        lemma_ranks_in(lists.last(), id);
        let e = all_entries(p);
        let l = lists.last();
        if e.contains(id) {
            let k = choose|k: int| 0 <= k < e.len() && e[k] == id;
            assert((e + l)[k] == id);
        }
        if l.contains(id) {
            let k = choose|k: int| 0 <= k < l.len() && l[k] == id;
            assert((e + l)[e.len() + k] == id);
        }
        if (e + l).contains(id) {
            let k = choose|k: int| 0 <= k < (e + l).len() && (e + l)[k] == id;
            if k < e.len() {
                assert(e[k] == id);
            } else {
                assert(l[k - e.len()] == id);
            }
        }
    }
}

/// A document takes part in the fusion exactly when it occurs in some
/// list; each list contributes at most one rank for it, and that rank is
/// its first occurrence in the list.
pub proof fn lemma_fusion_covers_every_entry(lists: Seq<Seq<Seq<char>>>, id: Seq<char>)
    ensures
        dedup_spec(all_entries(lists)).contains(id) <==> ranks_across(lists, id).len() > 0,
        forall|j: int| 0 <= j < lists.len() ==> (#[trigger] ranks_in(lists[j], id)).len() <= 1,
        forall|j: int, i: int|
            0 <= j < lists.len() && 0 <= i < ranks_in(lists[j], id).len() ==> 1
                <= #[trigger] ranks_in(lists[j], id)[i] <= lists[j].len() && lists[j][ranks_in(
                lists[j],
                id,
            )[i] - 1] == id && forall|k: int|
                0 <= k < ranks_in(lists[j], id)[i] - 1 ==> lists[j][k] != id,
{
    lemma_dedup(all_entries(lists));
    lemma_ranks_across(lists, id);
    assert forall|j: int| 0 <= j < lists.len() implies (#[trigger] ranks_in(lists[j], id)).len()
        <= 1 by {
        lemma_ranks_in(lists[j], id);
    }
    assert forall|j: int, i: int|
        0 <= j < lists.len() && 0 <= i < ranks_in(lists[j], id).len() implies 1
            <= #[trigger] ranks_in(lists[j], id)[i] <= lists[j].len() && lists[j][ranks_in(
            lists[j],
            id,
        )[i] - 1] == id && forall|k: int|
            0 <= k < ranks_in(lists[j], id)[i] - 1 ==> lists[j][k] != id by {
        lemma_ranks_in(lists[j], id);
    }
}

/// The views of the identifier lists in `lists`.
pub open spec fn list_views(lists: Seq<Vec<String>>) -> Seq<Seq<Seq<char>>> {
    lists.map_values(|l: Vec<String>| views(l@))
}

/// One fused document: its identifier and the ranks it holds, in the order
/// in which their contributions are summed.
#[derive(Debug, Clone)]
pub struct RankedId {
    /// The document (chunk) identifier.
    pub id: String,
    /// 1-based ranks, list after list.
    pub ranks: Vec<usize>,
}

/// The ranks of `id` in `lists`.
fn ranks_of(lists: &[Vec<String>], id: &[char]) -> (r: Vec<usize>)
    ensures
        r@.map_values(|x: usize| x as nat) == ranks_across(list_views(lists@), id@),
{
    let ghost lv = list_views(lists@);
    let mut out: Vec<usize> = Vec::new();
    let count = lists.len();
    let mut a: usize = 0;
    while a < count
        invariant
            count == lists@.len(),
            lv == list_views(lists@),
            a <= count,
            out@.map_values(|x: usize| x as nat) == ranks_across(lv.take(a as int), id@),
        decreases count - a,
    {
        let list = &lists[a];
        let ghost lview = views(list@);
        assert(lv[a as int] == lview);
        let n = list.len();
        let mut p: usize = 0;
        let mut found = false;
        while p < n
            invariant
                n == list@.len(),
                lview == views(list@),
                p <= n,
                found == (ranks_in(lview.take(p as int), id@).len() > 0),
                out@.map_values(|x: usize| x as nat) == ranks_across(lv.take(a as int), id@)
                    + ranks_in(lview.take(p as int), id@),
            decreases n - p,
        {
            assert(lview.take(p + 1).drop_last() =~= lview.take(p as int));
            assert(lview.take(p + 1).last() == list@[p as int]@);
            let ghost before = out@;
            if !found && chars_eq(chars_of(list[p].as_str()).as_slice(), id) {
                found = true;
                out.push(p + 1);
                assert(out@.map_values(|x: usize| x as nat) =~= before.map_values(
                    |x: usize| x as nat,
                ).push((p + 1) as nat));
            }
            p += 1;
        }
        assert(lview.take(n as int) =~= lview);
        assert(lv.take(a + 1).drop_last() =~= lv.take(a as int));
        a += 1;
    }
    assert(lv.take(count as int) =~= lv);
    out
}

/// The documents of `lists` in first-seen order, each once, with the ranks
/// it holds in every list, list after list.
pub fn rrf_ranks(lists: &[Vec<String>]) -> (r: Vec<RankedId>)
    ensures
        r@.map_values(|e: RankedId| e.id@) == dedup_spec(all_entries(list_views(lists@))),
        forall|i: int|
            0 <= i < r@.len() ==> (#[trigger] r@[i]).ranks@.map_values(|x: usize| x as nat)
                == ranks_across(list_views(lists@), r@[i].id@),
{
    let ghost lv = list_views(lists@);
    let mut ids: Vec<Vec<char>> = Vec::new();
    let count = lists.len();
    let mut a: usize = 0;
    while a < count
        invariant
            count == lists@.len(),
            lv == list_views(lists@),
            a <= count,
            crate::chunk::cviews(ids@) == dedup_spec(all_entries(lv.take(a as int))),
        decreases count - a,
    {
        let list = &lists[a];
        let ghost lview = views(list@);
        assert(lv[a as int] == lview);
        let n = list.len();
        let mut p: usize = 0;
        while p < n
            invariant
                n == list@.len(),
                lview == views(list@),
                p <= n,
                crate::chunk::cviews(ids@) == dedup_spec(
                    all_entries(lv.take(a as int)) + lview.take(p as int),
                ),
            decreases n - p,
        {
            let ghost seen = all_entries(lv.take(a as int)) + lview.take(p as int);
            let item = chars_of(list[p].as_str());
            assert(seen.push(item@) =~= all_entries(lv.take(a as int)) + lview.take(p + 1));
            if !list_contains(&ids, item.as_slice()) {
                let ghost before = crate::chunk::cviews(ids@);
                ids.push(item);
                assert(crate::chunk::cviews(ids@) =~= before.push(seen.push(item@).last()));
            }
            assert(seen.push(item@).drop_last() =~= seen);
            p += 1;
        }
        assert(lview.take(n as int) =~= lview);
        assert(lv.take(a + 1).drop_last() =~= lv.take(a as int));
        assert(all_entries(lv.take(a + 1)) == all_entries(lv.take(a as int)) + lview);
        a += 1;
    }
    assert(lv.take(count as int) =~= lv);
    let m = ids.len();
    let mut out: Vec<RankedId> = Vec::new();
    let mut j: usize = 0;
    while j < m
        invariant
            m == ids@.len(),
            lv == list_views(lists@),
            crate::chunk::cviews(ids@) == dedup_spec(all_entries(lv)),
            j <= m,
            out@.map_values(|e: RankedId| e.id@) == crate::chunk::cviews(ids@).take(j as int),
            forall|i: int|
                0 <= i < out@.len() ==> (#[trigger] out@[i]).ranks@.map_values(|x: usize| x as nat)
                    == ranks_across(lv, out@[i].id@),
        decreases m - j,
    {
        let id = ids[j].as_slice();
        let ranks = ranks_of(lists, id);
        let ghost before = out@;
        out.push(RankedId { id: string_from(id), ranks });
        assert(out@.map_values(|e: RankedId| e.id@) =~= before.map_values(|e: RankedId| e.id@).push(
            id@,
        ));
        assert(crate::chunk::cviews(ids@).take(j + 1) =~= crate::chunk::cviews(ids@).take(
            j as int,
        ).push(id@));
        j += 1;
    }
    assert(crate::chunk::cviews(ids@).take(m as int) =~= crate::chunk::cviews(ids@));
    out
}

} // verus!
