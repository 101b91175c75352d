//! Presentation-side bookkeeping: the chunk-entity map pairing each built
//! chunk with its mesh resource handle, column teardown that removes every
//! vertical slot's resource, and the delivery decision for drained change
//! records (interest gating, full rebuild, patch, or re-queue).

use vstd::prelude::*;
use crate::blocs::{chunk_pos_of, chunk_pos_of_exec, Blocs};
use crate::changes::{ChangeView, ChunkChanges};
use crate::load::LoadedCols;
use crate::pos::{spec_col_of_chunk, ChunkPos, ColPos, Y_CHUNKS};

verus! {

/// The built chunks as a map from chunk position to resource handle.
pub open spec fn ents_map(s: Seq<(ChunkPos, u64)>) -> Map<ChunkPos, u64>
    decreases s.len(),
{
    if s.len() == 0 {
        Map::empty()
    } else {
        ents_map(s.drop_last()).insert(s.last().0, s.last().1)
    }
}

/// No two entries share a chunk position.
pub open spec fn ent_keys_distinct(s: Seq<(ChunkPos, u64)>) -> bool {
    forall|i: int, j: int| 0 <= i < j < s.len() ==> (#[trigger] s[i]).0 != (#[trigger] s[j]).0
}

proof fn lemma_ents_map_contains(s: Seq<(ChunkPos, u64)>, k: ChunkPos)
    ensures
        ents_map(s).contains_key(k) <==> exists|i: int|
            0 <= i < s.len() && (#[trigger] s[i]).0 == k,
    decreases s.len(),
{
    if s.len() > 0 {
        let t = s.drop_last();
        lemma_ents_map_contains(t, k);
        if s.last().0 == k {
            assert(s[s.len() - 1].0 == k);
        } else if ents_map(s).contains_key(k) {
            let i = choose|i: int| 0 <= i < t.len() && (#[trigger] t[i]).0 == k;
            assert(s[i].0 == k);
        } else if exists|i: int| 0 <= i < s.len() && (#[trigger] s[i]).0 == k {
            let i = choose|i: int| 0 <= i < s.len() && (#[trigger] s[i]).0 == k;
            assert(i < s.len() - 1 && t[i].0 == k);
        }
    }
}

proof fn lemma_ents_map_index(s: Seq<(ChunkPos, u64)>, i: int)
    requires
        ent_keys_distinct(s),
        0 <= i < s.len(),
    ensures
        ents_map(s).contains_key(s[i].0),
        ents_map(s)[s[i].0] == s[i].1,
    decreases s.len(),
{
    if i < s.len() - 1 {
        let t = s.drop_last();
        lemma_ents_map_index(t, i);
        assert(s[i].0 != s.last().0);
    }
}

proof fn lemma_ents_map_remove(s: Seq<(ChunkPos, u64)>, j: int)
    requires
        ent_keys_distinct(s),
        0 <= j < s.len(),
    ensures
        ents_map(s.remove(j)) == ents_map(s).remove(s[j].0),
    decreases s.len(),
{
    let t = s.drop_last();
    if j == s.len() - 1 {
        assert(s.remove(j) =~= t);
        lemma_ents_map_contains(t, s[j].0);
        assert(!ents_map(t).contains_key(s[j].0)) by {
            if exists|i: int| 0 <= i < t.len() && (#[trigger] t[i]).0 == s[j].0 {
                let i = choose|i: int| 0 <= i < t.len() && (#[trigger] t[i]).0 == s[j].0;
                assert(s[i].0 == s[j].0);
            }
        }
        assert(ents_map(s.remove(j)) =~= ents_map(s).remove(s[j].0));
    } else {
        lemma_ents_map_remove(t, j);
        assert(s.remove(j).drop_last() =~= t.remove(j));
        assert(s.remove(j).last() == s.last());
        assert(s[j].0 != s.last().0);
        assert(ents_map(s.remove(j)) =~= ents_map(s).remove(s[j].0));
    }
}

/// The entity map and the handles taken out after tearing down the first
/// `n` vertical chunk slots of a column, bottom up: each slot that had a
/// resource loses exactly it, and its handle is collected.
pub open spec fn spec_unload(m: Map<ChunkPos, u64>, col: ColPos, n: int) -> (
    Map<ChunkPos, u64>,
    Seq<u64>,
)
    decreases n,
{
    if n <= 0 {
        (m, Seq::empty())
    } else {
        let p = spec_unload(m, col, n - 1);
        let k = chunk_pos_of(col, n - 1);
        if p.0.contains_key(k) {
            (p.0.remove(k), p.1.push(p.0[k]))
        } else {
            p
        }
    }
}

proof fn lemma_unload_steps(m: Map<ChunkPos, u64>, col: ColPos, n: int)
    requires
        0 <= n <= Y_CHUNKS,
    ensures
        forall|cy: int|
            0 <= cy < n ==> !spec_unload(m, col, n).0.contains_key(#[trigger] chunk_pos_of(col, cy)),
        forall|p: ChunkPos|
            !(spec_col_of_chunk(p) == col && 0 <= p.y < n) ==> (#[trigger] spec_unload(
                m,
                col,
                n,
            ).0.contains_key(p) <==> m.contains_key(p)) && (m.contains_key(p) ==> spec_unload(
                m,
                col,
                n,
            ).0[p] == m[p]),
        (forall|cy: int| 0 <= cy < n ==> m.contains_key(#[trigger] chunk_pos_of(col, cy)))
            ==> spec_unload(m, col, n).1.len() == n,
        spec_unload(m, col, n).1.len() <= n,
    decreases n,
{
    if n > 0 {
        lemma_unload_steps(m, col, n - 1);
        let k = chunk_pos_of(col, n - 1);
        assert(spec_col_of_chunk(k) == col && k.y == n - 1);
    }
}

/// Teardown completeness: unloading a column removes the presentation
/// resource of every one of its `Y_CHUNKS` vertical chunk slots, touches
/// no other chunk's resource, and — when every slot had a resource —
/// hands back exactly `Y_CHUNKS` handles, no more, no fewer.
pub proof fn lemma_unload_complete(m: Map<ChunkPos, u64>, col: ColPos)
    ensures
        forall|cy: int|
            0 <= cy < Y_CHUNKS ==> !spec_unload(m, col, Y_CHUNKS as int).0.contains_key(
                #[trigger] chunk_pos_of(col, cy),
            ),
        forall|p: ChunkPos|
            !(spec_col_of_chunk(p) == col && 0 <= p.y < Y_CHUNKS) ==> (#[trigger] spec_unload(
                m,
                col,
                Y_CHUNKS as int,
            ).0.contains_key(p) <==> m.contains_key(p)) && (m.contains_key(p) ==> spec_unload(
                m,
                col,
                Y_CHUNKS as int,
            ).0[p] == m[p]),
        (forall|cy: int| 0 <= cy < Y_CHUNKS ==> m.contains_key(#[trigger] chunk_pos_of(col, cy)))
            ==> spec_unload(m, col, Y_CHUNKS as int).1.len() == Y_CHUNKS,
        spec_unload(m, col, Y_CHUNKS as int).1.len() <= Y_CHUNKS,
{
    lemma_unload_steps(m, col, Y_CHUNKS as int);
}

/// The presentation-facing chunk-entity map: one mesh resource handle per
/// built chunk, kept in 1:1 correspondence with the chunks that were built
/// and not yet torn down.
pub struct ChunkEntities {
    entries: Vec<(ChunkPos, u64)>,
}

impl View for ChunkEntities {
    type V = Map<ChunkPos, u64>;

    closed spec fn view(&self) -> Map<ChunkPos, u64> {
        ents_map(self.entries@)
    }
}

impl ChunkEntities {
    /// At most one resource per chunk position.
    pub closed spec fn wf(self) -> bool {
        ent_keys_distinct(self.entries@)
    }

    /// An empty map: nothing built yet.
    pub fn new() -> (r: ChunkEntities)
        ensures
            r.wf(),
            r@ == Map::<ChunkPos, u64>::empty(),
    {
        ChunkEntities { entries: Vec::new() }
    }

    /// The resource handle of a chunk, when one was built.
    pub fn get(&self, chunk: ChunkPos) -> (r: Option<u64>)
        requires
            self.wf(),
        ensures
            r is Some <==> self@.contains_key(chunk),
            r matches Some(e) ==> e == self@[chunk],
    {
        proof {
            lemma_ents_map_contains(self.entries@, chunk);
        }
        let n = self.entries.len();
        let mut i: usize = 0;
        while i < n
            invariant
                self.wf(),
                n == self.entries@.len(),
                i <= n,
                forall|k: int| 0 <= k < i ==> (#[trigger] self.entries@[k]).0 != chunk,
            decreases n - i,
        {
            if self.entries[i].0 == chunk {
                proof {
                    lemma_ents_map_index(self.entries@, i as int);
                }
                return Some(self.entries[i].1);
            }
            i = i + 1;
        }
        proof {
            lemma_ents_map_contains(self.entries@, chunk);
        }
        None
    }

    /// Registers the freshly built resource of a chunk. A chunk never has
    /// two resources, so the chunk must not be present.
    pub fn insert(&mut self, chunk: ChunkPos, ent: u64)
        requires
            old(self).wf(),
            !old(self)@.contains_key(chunk),
        ensures
            final(self).wf(),
            final(self)@ == old(self)@.insert(chunk, ent),
    {
        proof {
            lemma_ents_map_contains(self.entries@, chunk);
        }
        self.entries.push((chunk, ent));
        proof {
            assert(self.entries@.drop_last() =~= old(self).entries@);
        }
    }

    /// Takes the resource of a chunk out of the map, when there is one.
    pub fn remove(&mut self, chunk: ChunkPos) -> (r: Option<u64>)
        requires
            old(self).wf(),
        ensures
            final(self).wf(),
            r is Some <==> old(self)@.contains_key(chunk),
            r matches Some(e) ==> e == old(self)@[chunk] && final(self)@ == old(self)@.remove(
                chunk,
            ),
            r is None ==> final(self)@ == old(self)@,
    {
        proof {
            lemma_ents_map_contains(self.entries@, chunk);
        }
        let n = self.entries.len();
        let mut i: usize = 0;
        while i < n
            invariant
                self.wf(),
                self.entries@ == old(self).entries@,
                n == self.entries@.len(),
                i <= n,
                forall|k: int| 0 <= k < i ==> (#[trigger] self.entries@[k]).0 != chunk,
            decreases n - i,
        {
            if self.entries[i].0 == chunk {
                proof {
                    lemma_ents_map_index(self.entries@, i as int);
                    lemma_ents_map_remove(self.entries@, i as int);
                }
                let e = self.entries.remove(i);
                return Some(e.1);
            }
            i = i + 1;
        }
        proof {
            lemma_ents_map_contains(self.entries@, chunk);
        }
        None
    }

    /// Column teardown: removes the resource of every vertical chunk slot
    /// of the column — exactly the fixed `Y_CHUNKS` slots — and returns
    /// the removed handles for despawning.
    pub fn on_col_unload(&mut self, col: ColPos) -> (removed: Vec<u64>)
        requires
            old(self).wf(),
        ensures
            final(self).wf(),
            final(self)@ == spec_unload(old(self)@, col, Y_CHUNKS as int).0,
            removed@ == spec_unload(old(self)@, col, Y_CHUNKS as int).1,
    {
        let mut removed: Vec<u64> = Vec::new();
        let mut cy: usize = 0;
        while cy < Y_CHUNKS
            invariant
                cy <= Y_CHUNKS,
                self.wf(),
                self@ == spec_unload(old(self)@, col, cy as int).0,
                removed@ == spec_unload(old(self)@, col, cy as int).1,
            decreases Y_CHUNKS - cy,
        {
            match self.remove(chunk_pos_of_exec(col, cy)) {
                Some(e) => removed.push(e),
                None => (),
            }
            cy = cy + 1;
        }
        removed
    }
}

/// What the presentation layer must do with one drained change record.
#[derive(Clone, Copy, PartialEq, Eq, Structural, Debug)]
pub enum ChangeAction {
    /// The chunk's column is outside the interest set: the record is
    /// discarded, never delivered. The store stays correct; the column
    /// gets a fresh full rebuild if it re-enters interest.
    Discard,
    /// Build the full mesh resource of a just-materialized chunk.
    Build,
    /// Patch the chunk's existing resource at the record's offsets.
    Patch,
    /// The resource is not ready yet: the record was re-queued, with the
    /// usual merge semantics, so none of its offsets is lost.
    Requeue,
}

/// Delivery decision for one drained record. A record of a column outside
/// the interest set is never delivered; a creation is built; an edit is
/// patched only when its resource is ready, and re-queued otherwise —
/// never silently dropped.
pub fn decide_change(in_interest: bool, change: &ChunkChanges, resource_ready: bool) -> (a:
    ChangeAction)
    ensures
        !in_interest ==> a == ChangeAction::Discard,
        (in_interest && (change matches ChunkChanges::Created)) ==> a == ChangeAction::Build,
        (in_interest && (change matches ChunkChanges::Edited(_)) && resource_ready) ==> a
            == ChangeAction::Patch,
        (in_interest && (change matches ChunkChanges::Edited(_)) && !resource_ready) ==> a
            == ChangeAction::Requeue,
{
    if !in_interest {
        ChangeAction::Discard
    } else {
        match change {
            ChunkChanges::Created => ChangeAction::Build,
            ChunkChanges::Edited(_) => {
                if resource_ready {
                    ChangeAction::Patch
                } else {
                    ChangeAction::Requeue
                }
            },
        }
    }
}

/// One presentation scheduling step: drains at most one record from the
/// store's change queue and decides its delivery. A record of a column
/// outside the interest set is discarded; an edit whose resource does not
/// exist yet is re-queued at once — merged as any edit would be, so the
/// queue afterwards still holds exactly what it held for that chunk — and
/// the caller is told what to do in the other cases.
pub fn process_bloc_changes(blocs: &mut Blocs, cols: &LoadedCols, ents: &ChunkEntities) -> (r:
    Option<(ChunkPos, ChunkChanges, ChangeAction)>)
    requires
        old(blocs).wf(),
        ents.wf(),
    ensures
        final(blocs).wf(),
        final(blocs)@ == old(blocs)@,
        r is None ==> old(blocs).changes@ == Map::<ChunkPos, ChangeView>::empty() && final(blocs).changes@ == old(blocs).changes@,
        r matches Some(e) ==> old(blocs).changes@.contains_key(e.0) && e.1@ == old(blocs).changes@[e.0],
        r matches Some(e) ==> e.2 == (if !cols.spec_interest(spec_col_of_chunk(e.0)) {
            ChangeAction::Discard
        } else if (e.1 matches ChunkChanges::Created) {
            ChangeAction::Build
        } else if ents@.contains_key(e.0) {
            ChangeAction::Patch
        } else {
            ChangeAction::Requeue
        }),
        r matches Some(e) ==> (e.2 == ChangeAction::Requeue ==> final(blocs).changes@ == old(blocs).changes@) && (e.2 != ChangeAction::Requeue ==> final(blocs).changes@ == old(blocs).changes@.remove(e.0)),
{
    let popped = blocs.changes.pop();
    match popped {
        None => None,
        Some((chunk, change)) => {
            let in_interest = cols.has_interest(chunk.to_col_pos());
            let ready = ents.get(chunk).is_some();
            let action = decide_change(in_interest, &change, ready);
            if matches!(action, ChangeAction::Requeue) {
                let ghost m0 = old(blocs).changes@;
                let copy = change.duplicate();
                blocs.changes.insert(chunk, change);
                proof {
                    assert(blocs.changes@ =~= m0);
                }
                return Some((chunk, copy, action));
            }
            Some((chunk, change, action))
        },
    }
}

} // verus!
