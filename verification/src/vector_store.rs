//! The in-process vector store: chunk records with their vectors, one entry
//! per chunk identifier. Scoring the vectors against a query is the
//! caller's (floating-point) work; what is kept, replaced, and counted is
//! decided here.

use vstd::prelude::*;

use crate::chunk::ChunkRecord;
use crate::grounding::{dedup_spec, lemma_dedup};
use crate::text::{chars_eq, chars_of};

verus! {

/// The position of the first entry of `entries` whose chunk identifier is
/// `id`, if any.
pub open spec fn find_id<V>(entries: Seq<(V, ChunkRecord)>, id: Seq<char>) -> Option<int>
    decreases entries.len(),
{
    if entries.len() == 0 {
        None
    } else {
        match find_id(entries.drop_last(), id) {
            Some(i) => Some(i),
            None => if entries.last().1.chunk_id@ == id {
                Some(entries.len() - 1)
            } else {
                None
            },
        }
    }
}

/// `entries` after writing `vector` for `chunk`: the entry with the same
/// chunk identifier is replaced in place, or the pair is appended.
pub open spec fn upsert_one<V>(entries: Seq<(V, ChunkRecord)>, chunk: ChunkRecord, vector: V) -> Seq<
    (V, ChunkRecord),
> {
    match find_id(entries, chunk.chunk_id@) {
        Some(i) => entries.update(i, (vector, chunk)),
        None => entries.push((vector, chunk)),
    }
}

/// `entries` after writing every item of `items`, in order.
pub open spec fn upserted<V>(entries: Seq<(V, ChunkRecord)>, items: Seq<(ChunkRecord, V)>) -> Seq<
    (V, ChunkRecord),
>
    decreases items.len(),
{
    if items.len() == 0 {
        entries
    } else {
        let before = upserted(entries, items.drop_last());
        upsert_one(before, items.last().0, items.last().1)
    }
}

/// No two entries share a chunk identifier.
pub open spec fn ids_distinct<V>(entries: Seq<(V, ChunkRecord)>) -> bool {
    forall|i: int, j: int|
        0 <= i < j < entries.len() ==> (#[trigger] entries[i]).1.chunk_id@ != (
        #[trigger] entries[j]).1.chunk_id@
}

/// Brute-force in-process store of vectors keyed by chunk identifier.
pub struct MemoryVectorStore<V> {
    entries: Vec<(V, ChunkRecord)>,
}

impl<V> MemoryVectorStore<V> {
    /// The stored entries, in insertion order.
    pub closed spec fn stored(&self) -> Seq<(V, ChunkRecord)> {
        self.entries@
    }

    /// Creates an empty store.
    pub fn new() -> (s: Self)
        ensures
            s.stored() == Seq::<(V, ChunkRecord)>::empty(),
    {
        MemoryVectorStore { entries: Vec::new() }
    }

    /// Backend name used in logs.
    pub fn name(&self) -> (s: &'static str)
        ensures
            s@ == "memory"@,
    {
        "memory"
    }

    /// Number of vectors currently stored.
    pub fn count(&self) -> (n: usize)
        ensures
            n == self.stored().len(),
    {
        self.entries.len()
    }

    /// The stored entries, for scoring.
    pub fn entries(&self) -> (e: &Vec<(V, ChunkRecord)>)
        ensures
            e@ == self.stored(),
    {
        &self.entries
    }

    /// Position of the entry for `id`.
    fn position_of(&self, id: &[char]) -> (r: Option<usize>)
        ensures
            r matches Some(i) ==> find_id(self.stored(), id@) == Some(i as int) && i < self.stored().len(),
            r is None ==> find_id(self.stored(), id@) is None,
    {
        let n = self.entries.len();
        let mut k: usize = 0;
        while k < n
            invariant
                n == self.entries@.len(),
                k <= n,
                find_id(self.entries@.take(k as int), id@) is None,
            decreases n - k,
        {
            let ghost prefix = self.entries@.take(k + 1);
            assert(prefix.drop_last() =~= self.entries@.take(k as int));
            let here = chars_of(self.entries[k].1.chunk_id.as_str());
            if chars_eq(here.as_slice(), id) {
                proof {
                    lemma_find_id_prefix(self.entries@, k as int + 1, id@);
                }
                assert(k < self.entries@.len());
                return Some(k);
            }
            k += 1;
        }
        assert(self.entries@.take(n as int) =~= self.entries@);
        None
    }

    /// Writes each `(chunk, vector)` pair in order: an entry with the same
    /// chunk identifier is replaced, otherwise the pair is appended.
    pub fn upsert(&mut self, chunks: Vec<(ChunkRecord, V)>)
        ensures
            final(self).stored() == upserted(old(self).stored(), chunks@),
    {
        let ghost start = self.entries@;
        let ghost items = chunks@;
        for item in it: chunks.into_iter()
            invariant
                it.seq() == items,
                self.entries@ == upserted(start, it.seq().take(it.index() as int)),
        {
            let ghost done = it.seq().take(it.index() as int);
            assert(it.seq().take(it.index() + 1).drop_last() =~= done);
            assert(it.seq().take(it.index() + 1).last() == item);
            let (chunk, vector) = item;
            let id = chars_of(chunk.chunk_id.as_str());
            match self.position_of(id.as_slice()) {
                Some(i) => {
                    self.entries.set(i, (vector, chunk));
                },
                None => {
                    self.entries.push((vector, chunk));
                },
            }
        }
        assert(items.take(items.len() as int) =~= items);
    }
}

proof fn lemma_find_id_spec<V>(entries: Seq<(V, ChunkRecord)>, id: Seq<char>)
    ensures
        match find_id(entries, id) {
            Some(i) => 0 <= i < entries.len() && entries[i].1.chunk_id@ == id && forall|j: int|
                0 <= j < i ==> (#[trigger] entries[j]).1.chunk_id@ != id,
            None => forall|j: int| 0 <= j < entries.len() ==> (#[trigger] entries[j]).1.chunk_id@ != id,
        },
    decreases entries.len(),
{
    if entries.len() > 0 {
        let p = entries.drop_last();
        lemma_find_id_spec(p, id);
        assert forall|j: int| 0 <= j < p.len() implies p[j] == entries[j] by {}
    }
}

proof fn lemma_find_id_same_ids<V>(e1: Seq<(V, ChunkRecord)>, e2: Seq<(V, ChunkRecord)>, id: Seq<char>)
    requires
        e1.len() == e2.len(),
        forall|j: int| 0 <= j < e1.len() ==> (#[trigger] e1[j]).1.chunk_id@ == e2[j].1.chunk_id@,
    ensures
        find_id(e1, id) == find_id(e2, id),
    decreases e1.len(),
{
    if e1.len() > 0 {
        assert forall|j: int| 0 <= j < e1.len() - 1 implies (#[trigger] e1.drop_last()[j]).1.chunk_id@
            == e2.drop_last()[j].1.chunk_id@ by {
            assert(e1.drop_last()[j] == e1[j]);
            assert(e2.drop_last()[j] == e2[j]);
        }
        lemma_find_id_same_ids(e1.drop_last(), e2.drop_last(), id);
        assert(e1.last().1.chunk_id@ == e2.last().1.chunk_id@) by {
            assert(e1.last() == e1[e1.len() - 1]);
            assert(e2.last() == e2[e2.len() - 1]);
        }
    }
}

/// Writing a vector for a chunk keeps chunk identifiers distinct; a read of
/// that chunk's identifier gives back the pair just written; every other
/// identifier reads as before; and the store grows by one exactly when the
/// identifier is new.
pub proof fn lemma_upsert_one_laws<V>(
    entries: Seq<(V, ChunkRecord)>,
    chunk: ChunkRecord,
    vector: V,
    other: Seq<char>,
)
    requires
        ids_distinct(entries),
    ensures
        ids_distinct(upsert_one(entries, chunk, vector)),
        find_id(upsert_one(entries, chunk, vector), chunk.chunk_id@) matches Some(i)
            && upsert_one(entries, chunk, vector)[i] == (vector, chunk),
        other != chunk.chunk_id@ ==> match find_id(entries, other) {
            Some(i) => find_id(upsert_one(entries, chunk, vector), other) == Some(i)
                && upsert_one(entries, chunk, vector)[i] == entries[i],
            None => find_id(upsert_one(entries, chunk, vector), other) is None,
        },
        upsert_one(entries, chunk, vector).len() == entries.len() + if find_id(
            entries,
            chunk.chunk_id@,
        ) is None {
            1int
        } else {
            0int
        },
{
    let id = chunk.chunk_id@;
    let after = upsert_one(entries, chunk, vector);
    lemma_find_id_spec(entries, id);
    lemma_find_id_spec(entries, other);
    lemma_find_id_spec(after, id);
    lemma_find_id_spec(after, other);
    match find_id(entries, id) {
        Some(i) => {
            assert forall|j: int| 0 <= j < after.len() implies (#[trigger] after[j]).1.chunk_id@
                == entries[j].1.chunk_id@ by {}
            assert(after[i].1.chunk_id@ == id);
            lemma_find_id_same_ids(after, entries, other);
        },
        None => {
            assert forall|j: int| 0 <= j < entries.len() implies #[trigger] after[j] == entries[j] by {}
            assert(after[entries.len() as int].1.chunk_id@ == id);
            assert(after.drop_last() =~= entries);
        },
    }
    if let Some(k) = find_id(after, id) {
        assert(after[k].1.chunk_id@ == id);
    }
}

/// Writing any sequence of pairs keeps chunk identifiers distinct.
pub proof fn lemma_upserted_ids_distinct<V>(entries: Seq<(V, ChunkRecord)>, items: Seq<(ChunkRecord, V)>)
    requires
        ids_distinct(entries),
    ensures
        ids_distinct(upserted(entries, items)),
    decreases items.len(),
{
    if items.len() > 0 {
        lemma_upserted_ids_distinct(entries, items.drop_last());
        lemma_upsert_one_laws(
            upserted(entries, items.drop_last()),
            items.last().0,
            items.last().1,
            items.last().0.chunk_id@,
        );
    }
}

/// The chunk identifiers of `entries`, in order.
pub open spec fn ids_of<V>(entries: Seq<(V, ChunkRecord)>) -> Seq<Seq<char>> {
    entries.map_values(|e: (V, ChunkRecord)| e.1.chunk_id@)
}

/// The chunk identifiers of `items`, in order.
pub open spec fn item_ids<V>(items: Seq<(ChunkRecord, V)>) -> Seq<Seq<char>> {
    items.map_values(|i: (ChunkRecord, V)| i.0.chunk_id@)
}

proof fn lemma_upsert_one_ids<V>(entries: Seq<(V, ChunkRecord)>, chunk: ChunkRecord, vector: V)
    ensures
        ids_of(upsert_one(entries, chunk, vector)) == if ids_of(entries).contains(chunk.chunk_id@) {
            ids_of(entries)
        } else {
            ids_of(entries).push(chunk.chunk_id@)
        },
{
    let id = chunk.chunk_id@;
    lemma_find_id_spec(entries, id);
    let after = upsert_one(entries, chunk, vector);
    match find_id(entries, id) {
        Some(i) => {
            assert(ids_of(entries)[i] == id);
            assert(ids_of(entries).contains(id));
            assert(ids_of(after) =~= ids_of(entries));
        },
        None => {
            assert(!ids_of(entries).contains(id)) by {
                if ids_of(entries).contains(id) {
                    let j = choose|j: int| 0 <= j < ids_of(entries).len() && ids_of(entries)[j] == id;
                    assert(entries[j].1.chunk_id@ == id);
                }
            }
            assert(ids_of(after) =~= ids_of(entries).push(id));
        },
    }
}

/// Starting from an empty store, the identifiers after any series of
/// writes are the distinct identifiers written, in first-written order, so
/// the store counts exactly the distinct chunk identifiers ever written.
pub proof fn lemma_upserts_keep_distinct_ids<V>(items: Seq<(ChunkRecord, V)>)
    ensures
        ids_of(upserted(Seq::<(V, ChunkRecord)>::empty(), items)) == dedup_spec(item_ids(items)),
        upserted(Seq::<(V, ChunkRecord)>::empty(), items).len() == dedup_spec(item_ids(items)).len(),
        dedup_spec(item_ids(items)).no_duplicates(),
        forall|x: Seq<char>| dedup_spec(item_ids(items)).contains(x) <==> item_ids(items).contains(x),
    decreases items.len(),
{
    lemma_dedup(item_ids(items));
    if items.len() > 0 {
        let p = items.drop_last();
        lemma_upserts_keep_distinct_ids(p);
        assert(item_ids(items).drop_last() =~= item_ids(p));
        assert(item_ids(items).last() == items.last().0.chunk_id@);
        lemma_upsert_one_ids(upserted(Seq::<(V, ChunkRecord)>::empty(), p), items.last().0, items.last().1);
    }
}

/// Two calls of `upsert` write as one call with both batches, in order; so
/// any series of calls from an empty store is covered by
/// [`lemma_upserts_keep_distinct_ids`] over the batches joined.
pub proof fn lemma_upserted_batches<V>(
    entries: Seq<(V, ChunkRecord)>,
    first: Seq<(ChunkRecord, V)>,
    second: Seq<(ChunkRecord, V)>,
)
    ensures
        upserted(upserted(entries, first), second) == upserted(entries, first + second),
    decreases second.len(),
{
    if second.len() == 0 {
        assert(first + second =~= first);
    } else {
        lemma_upserted_batches(entries, first, second.drop_last());
        assert((first + second).drop_last() =~= first + second.drop_last());
        assert((first + second).last() == second.last());
    }
}

proof fn lemma_find_id_prefix<V>(entries: Seq<(V, ChunkRecord)>, k: int, id: Seq<char>)
    requires
        1 <= k <= entries.len(),
        find_id(entries.take(k - 1), id) is None,
        entries[k - 1].1.chunk_id@ == id,
    ensures
        find_id(entries, id) == Some(k - 1),
    decreases entries.len() - k,
{
    if k == entries.len() {
        assert(entries.drop_last() =~= entries.take(k - 1));
    } else {
        assert(entries.drop_last().take(k - 1) =~= entries.take(k - 1));
        assert(entries.drop_last()[k - 1] == entries[k - 1]);
        lemma_find_id_prefix(entries.drop_last(), k, id);
    }
}

} // verus!
