//! The change queue: at most one pending presentation-update record per
//! chunk position. Concurrent edits to one chunk merge into that single
//! record (union of offsets) instead of overwriting or dropping one; a full
//! rebuild absorbs every edit. Records drain one per step, oldest first.

use vstd::prelude::*;
use crate::pos::{ChunkPos, ChunkedPos};

verus! {

/// Pending presentation update for one chunk: `Created` asks for a full
/// rebuild of a just-materialized chunk, `Edited` for an incremental patch
/// at the given local offsets.
#[derive(Clone, Debug)]
pub enum ChunkChanges {
    Created,
    Edited(Vec<ChunkedPos>),
}

/// Ghost image of a pending record: the edited offsets are a set, since
/// their arrival order does not matter.
pub enum ChangeView {
    Created,
    Edited(Set<ChunkedPos>),
}

impl View for ChunkChanges {
    type V = ChangeView;

    open spec fn view(&self) -> ChangeView {
        match self {
            ChunkChanges::Created => ChangeView::Created,
            ChunkChanges::Edited(v) => ChangeView::Edited(v@.to_set()),
        }
    }
}

/// Merge of a newly recorded change into the record already pending for
/// the same chunk: a full rebuild absorbs everything, and two edit sets
/// merge into their union, so the merge is commutative and associative.
pub open spec fn spec_merge(cur: ChangeView, new: ChangeView) -> ChangeView {
    match (cur, new) {
        (ChangeView::Edited(a), ChangeView::Edited(b)) => ChangeView::Edited(a.union(b)),
        _ => ChangeView::Created,
    }
}

/// What recording a change does to the queue: merged into the pending
/// record of that chunk when one exists, entered fresh otherwise.
pub open spec fn spec_record(
    m: Map<ChunkPos, ChangeView>,
    c: ChunkPos,
    v: ChangeView,
) -> Map<ChunkPos, ChangeView> {
    if m.contains_key(c) {
        m.insert(c, spec_merge(m[c], v))
    } else {
        m.insert(c, v)
    }
}

/// Record merges are commutative and associative — for edits, union of
/// the offset sets — so concurrent writers to one chunk produce one
/// deterministic pending record whatever their arrival order.
pub proof fn lemma_merge_laws(a: ChangeView, b: ChangeView, c: ChangeView)
    ensures
        spec_merge(a, b) == spec_merge(b, a),
        spec_merge(spec_merge(a, b), c) == spec_merge(a, spec_merge(b, c)),
{
    match (a, b, c) {
        (ChangeView::Edited(x), ChangeView::Edited(y), ChangeView::Edited(z)) => {
            assert(x.union(y) =~= y.union(x));
            assert(x.union(y).union(z) =~= x.union(y.union(z)));
        },
        (ChangeView::Edited(x), ChangeView::Edited(y), _) => {
            assert(x.union(y) =~= y.union(x));
        },
        _ => (),
    }
}

/// Merge correctness: with nothing pending for chunk `c`, recording an
/// edit at `o1` and then an edit at `o2` leaves exactly one pending record
/// for `c`, an edit whose offset set is the union of both; and the two
/// arrival orders produce the same queue.
pub proof fn lemma_edit_merge(
    m: Map<ChunkPos, ChangeView>,
    c: ChunkPos,
    o1: ChunkedPos,
    o2: ChunkedPos,
)
    requires
        !m.contains_key(c),
    ensures
        spec_record(spec_record(m, c, ChangeView::Edited(set![o1])), c, ChangeView::Edited(set![o2]))
            == m.insert(c, ChangeView::Edited(set![o1, o2])),
        spec_record(spec_record(m, c, ChangeView::Edited(set![o1])), c, ChangeView::Edited(set![o2]))
            == spec_record(
            spec_record(m, c, ChangeView::Edited(set![o2])),
            c,
            ChangeView::Edited(set![o1]),
        ),
{
    assert(set![o1].union(set![o2]) =~= set![o1, o2]);
    assert(set![o2].union(set![o1]) =~= set![o1, o2]);
    assert(m.insert(c, ChangeView::Edited(set![o1])).insert(c, ChangeView::Edited(set![o1, o2]))
        =~= m.insert(c, ChangeView::Edited(set![o1, o2])));
    assert(m.insert(c, ChangeView::Edited(set![o2])).insert(c, ChangeView::Edited(set![o1, o2]))
        =~= m.insert(c, ChangeView::Edited(set![o1, o2])));
}

/// The pending records as a map keyed by chunk position.
pub open spec fn entries_map(s: Seq<(ChunkPos, ChunkChanges)>) -> Map<ChunkPos, ChangeView>
    decreases s.len(),
{
    if s.len() == 0 {
        Map::empty()
    } else {
        entries_map(s.drop_last()).insert(s.last().0, s.last().1@)
    }
}

/// No two entries share a chunk position.
pub open spec fn keys_distinct(s: Seq<(ChunkPos, ChunkChanges)>) -> bool {
    forall|i: int, j: int|
        0 <= i < j < s.len() ==> (#[trigger] s[i]).0 != (#[trigger] s[j]).0
}

proof fn lemma_entries_map_contains(s: Seq<(ChunkPos, ChunkChanges)>, k: ChunkPos)
    ensures
        entries_map(s).contains_key(k) <==> exists|i: int| 0 <= i < s.len() && (#[trigger] s[i]).0 == k,
    decreases s.len(),
{
    if s.len() > 0 {
        let t = s.drop_last();
        lemma_entries_map_contains(t, k);
        if s.last().0 == k {
            assert(s[s.len() - 1].0 == k);
        } else if entries_map(s).contains_key(k) {
            let i = choose|i: int| 0 <= i < t.len() && (#[trigger] t[i]).0 == k;
            assert(s[i].0 == k);
        } else if exists|i: int| 0 <= i < s.len() && (#[trigger] s[i]).0 == k {
            let i = choose|i: int| 0 <= i < s.len() && (#[trigger] s[i]).0 == k;
            assert(i < s.len() - 1 && t[i].0 == k);
        }
    }
}

proof fn lemma_entries_map_index(s: Seq<(ChunkPos, ChunkChanges)>, i: int)
    requires
        keys_distinct(s),
        0 <= i < s.len(),
    ensures
        entries_map(s).contains_key(s[i].0),
        entries_map(s)[s[i].0] == s[i].1@,
    decreases s.len(),
{
    if i < s.len() - 1 {
        let t = s.drop_last();
        lemma_entries_map_index(t, i);
        assert(s[i].0 != s.last().0);
    }
}

proof fn lemma_entries_map_update(s: Seq<(ChunkPos, ChunkChanges)>, i: int, v: ChunkChanges)
    requires
        keys_distinct(s),
        0 <= i < s.len(),
    ensures
        entries_map(s.update(i, (s[i].0, v))) == entries_map(s).insert(s[i].0, v@),
    decreases s.len(),
{
    let s2 = s.update(i, (s[i].0, v));
    if i == s.len() - 1 {
        assert(s2.drop_last() =~= s.drop_last());
        assert(entries_map(s2) =~= entries_map(s).insert(s[i].0, v@));
    } else {
        let t = s.drop_last();
        lemma_entries_map_update(t, i, v);
        assert(s2.drop_last() =~= t.update(i, (t[i].0, v)));
        assert(s2.last() == s.last());
        assert(s[i].0 != s.last().0);
        assert(entries_map(s2) =~= entries_map(s).insert(s[i].0, v@));
    }
}

proof fn lemma_entries_map_remove0(s: Seq<(ChunkPos, ChunkChanges)>)
    requires
        keys_distinct(s),
        s.len() > 0,
    ensures
        entries_map(s.remove(0)) == entries_map(s).remove(s[0].0),
    decreases s.len(),
{
    if s.len() == 1 {
        assert(s.remove(0).len() == 0);
        assert(entries_map(s.remove(0)) =~= entries_map(s).remove(s[0].0));
    } else {
        let t = s.drop_last();
        lemma_entries_map_remove0(t);
        assert(s.remove(0).drop_last() =~= t.remove(0));
        assert(s.remove(0).last() == s.last());
        assert(s[0].0 != s.last().0);
        assert(entries_map(s.remove(0)) =~= entries_map(s).remove(s[0].0));
    }
}

proof fn lemma_entries_map_remove_at(s: Seq<(ChunkPos, ChunkChanges)>, j: int)
    requires
        keys_distinct(s),
        0 <= j < s.len(),
    ensures
        entries_map(s.remove(j)) == entries_map(s).remove(s[j].0),
    decreases s.len(),
{
    let t = s.drop_last();
    if j == s.len() - 1 {
        assert(s.remove(j) =~= t);
        assert(!entries_map(t).contains_key(s[j].0)) by {
            lemma_entries_map_contains(t, s[j].0);
            if exists|i: int| 0 <= i < t.len() && (#[trigger] t[i]).0 == s[j].0 {
                let i = choose|i: int| 0 <= i < t.len() && (#[trigger] t[i]).0 == s[j].0;
                assert(s[i].0 == s[j].0);
            }
        }
        assert(entries_map(s.remove(j)) =~= entries_map(s).remove(s[j].0));
    } else {
        lemma_entries_map_remove_at(t, j);
        assert(s.remove(j).drop_last() =~= t.remove(j));
        assert(s.remove(j).last() == s.last());
        assert(s[j].0 != s.last().0);
        assert(entries_map(s.remove(j)) =~= entries_map(s).remove(s[j].0));
    }
}

/// The queue of pending records: one slot per chunk position, drained one
/// record per scheduling step, oldest first.
pub struct Changes {
    entries: Vec<(ChunkPos, ChunkChanges)>,
}

impl View for Changes {
    type V = Map<ChunkPos, ChangeView>;

    closed spec fn view(&self) -> Map<ChunkPos, ChangeView> {
        entries_map(self.entries@)
    }
}

/// Whether a vector of local offsets contains one offset.
fn offsets_contain(v: &Vec<ChunkedPos>, x: ChunkedPos) -> (r: bool)
    ensures
        r == v@.contains(x),
{
    let mut i: usize = 0;
    while i < v.len()
        invariant
            i <= v@.len(),
            forall|k: int| 0 <= k < i ==> v@[k] != x,
        decreases v@.len() - i,
    {
        let e = v[i];
        if e.0 == x.0 && e.1 == x.1 && e.2 == x.2 {
            return true;
        }
        i = i + 1;
    }
    false
}

/// Membership after appending one element: the element set grows by it.
proof fn lemma_to_set_push(s: Seq<ChunkedPos>, x: ChunkedPos)
    ensures
        s.push(x).to_set() == s.to_set().insert(x),
{
    assert forall|y: ChunkedPos| s.push(x).to_set().contains(y) implies s.to_set().insert(
        x,
    ).contains(y) by {
        let k = choose|k: int| 0 <= k < s.push(x).len() && s.push(x)[k] == y;
        if k < s.len() {
            assert(s[k] == y);
        }
    }
    assert forall|y: ChunkedPos| s.to_set().insert(x).contains(y) implies s.push(x).to_set().contains(
        y,
    ) by {
        if y == x {
            assert(s.push(x)[s.len() as int] == y);
        } else {
            let k = choose|k: int| 0 <= k < s.len() && s[k] == y;
            assert(s.push(x)[k] == y);
        }
    }
    assert(s.push(x).to_set() =~= s.to_set().insert(x));
}

/// Extends one offset list by another, keeping each offset once; the set
/// of offsets becomes the union of both.
fn merge_offsets(dst: &mut Vec<ChunkedPos>, src: &Vec<ChunkedPos>)
    ensures
        final(dst)@.to_set() == old(dst)@.to_set().union(src@.to_set()),
{
    let mut i: usize = 0;
    while i < src.len()
        invariant
            i <= src@.len(),
            dst@.to_set() == old(dst)@.to_set().union(src@.subrange(0, i as int).to_set()),
        decreases src@.len() - i,
    {
        let x = src[i];
        let ghost d0 = dst@;
        if !offsets_contain(dst, x) {
            dst.push(x);
            proof {
                assert(dst@ =~= d0.push(x));
                lemma_to_set_push(d0, x);
            }
        } else {
            proof {
                assert(d0.to_set().contains(x));
            }
        }
        proof {
            let sub = src@.subrange(0, i as int);
            assert(src@.subrange(0, i + 1) =~= sub.push(x));
            lemma_to_set_push(sub, x);
            assert(dst@.to_set() =~= old(dst)@.to_set().union(src@.subrange(0, i + 1).to_set()));
        }
        i = i + 1;
    }
    proof {
        assert(src@.subrange(0, src@.len() as int) =~= src@);
    }
}

/// A copy of an offset list.
fn copy_offsets(v: &Vec<ChunkedPos>) -> (r: Vec<ChunkedPos>)
    ensures
        r@ == v@,
{
    let mut out: Vec<ChunkedPos> = Vec::new();
    let mut i: usize = 0;
    while i < v.len()
        invariant
            i <= v@.len(),
            out@ == v@.subrange(0, i as int),
        decreases v@.len() - i,
    {
        out.push(v[i]);
        proof {
            assert(out@ =~= v@.subrange(0, i + 1));
        }
        i = i + 1;
    }
    proof {
        assert(v@.subrange(0, v@.len() as int) =~= v@);
    }
    out
}

impl Changes {
    /// The queue keeps at most one record per chunk position.
    pub closed spec fn wf(self) -> bool {
        keys_distinct(self.entries@)
    }

    /// An empty queue.
    pub fn new() -> (r: Changes)
        ensures
            r.wf(),
            r@ == Map::<ChunkPos, ChangeView>::empty(),
    {
        Changes { entries: Vec::new() }
    }

    /// Records a change for a chunk: merged into the record already
    /// pending for that chunk when there is one — re-queued records merge
    /// the same way, so no offset is ever lost — and entered fresh
    /// otherwise.
    pub fn insert(&mut self, chunk: ChunkPos, change: ChunkChanges)
        requires
            old(self).wf(),
        ensures
            final(self).wf(),
            final(self)@ == spec_record(old(self)@, chunk, change@),
    {
        proof {
            lemma_entries_map_contains(self.entries@, chunk);
        }
        let n = self.entries.len();
        let mut i: usize = 0;
        while i < n
            invariant
                self.entries@ == old(self).entries@,
                old(self).wf(),
                n == self.entries@.len(),
                i <= n,
                forall|k: int| 0 <= k < i ==> (#[trigger] self.entries@[k]).0 != chunk,
            decreases n - i,
        {
            if self.entries[i].0 == chunk {
                proof {
                    lemma_entries_map_index(self.entries@, i as int);
                }
                let ghost s0 = self.entries@;
                let merged: ChunkChanges = match (&self.entries[i].1, &change) {
                    (ChunkChanges::Edited(cur), ChunkChanges::Edited(new)) => {
                        let mut m = copy_offsets(cur);
                        merge_offsets(&mut m, new);
                        ChunkChanges::Edited(m)
                    },
                    _ => ChunkChanges::Created,
                };
                proof {
                    assert(merged@ == spec_merge(s0[i as int].1@, change@));
                }
                let key = self.entries[i].0;
                self.entries[i] = (key, merged);
                proof {
                    lemma_entries_map_update(s0, i as int, self.entries@[i as int].1);
                    assert(self.entries@ =~= s0.update(
                        i as int,
                        (s0[i as int].0, self.entries@[i as int].1),
                    ));
                }
                return ;
            }
            i = i + 1;
        }
        self.entries.push((chunk, change));
        proof {
            assert(self.entries@.drop_last() =~= old(self).entries@);
        }
    }

    /// Takes the oldest pending record out of the queue, none when the
    /// queue is empty.
    pub fn pop(&mut self) -> (r: Option<(ChunkPos, ChunkChanges)>)
        requires
            old(self).wf(),
        ensures
            final(self).wf(),
            r is None ==> old(self)@ == Map::<ChunkPos, ChangeView>::empty()
                && final(self)@ == old(self)@,
            r matches Some(e) ==> old(self)@.contains_key(e.0) && e.1@ == old(self)@[e.0]
                && final(self)@ == old(self)@.remove(e.0),
    {
        if self.entries.len() == 0 {
            return None;
        }
        proof {
            lemma_entries_map_index(self.entries@, 0);
            lemma_entries_map_remove0(self.entries@);
        }
        let e = self.entries.remove(0);
        Some(e)
    }

    /// Discards the pending record of a chunk, when there is one.
    pub fn remove(&mut self, chunk: ChunkPos)
        requires
            old(self).wf(),
        ensures
            final(self).wf(),
            final(self)@ == old(self)@.remove(chunk),
    {
        proof {
            lemma_entries_map_contains(self.entries@, chunk);
        }
        let n = self.entries.len();
        let mut i: usize = 0;
        while i < n
            invariant
                self.wf(),
                self.entries@ == old(self).entries@,
                n == self.entries@.len(),
                i <= n,
                forall|k: int| 0 <= k < i ==> (#[trigger] self.entries@[k]).0 != chunk,
            decreases n - i,
        {
            if self.entries[i].0 == chunk {
                proof {
                    lemma_entries_map_index(self.entries@, i as int);
                    lemma_entries_map_remove_at(self.entries@, i as int);
                }
                let _ = self.entries.remove(i);
                return ;
            }
            i = i + 1;
        }
        proof {
            lemma_entries_map_contains(self.entries@, chunk);
            assert(final(self)@ =~= old(self)@.remove(chunk));
        }
    }

    /// How many records are pending.
    pub fn len(&self) -> (r: usize)
        requires
            self.wf(),
        ensures
            r == 0 <==> self@ == Map::<ChunkPos, ChangeView>::empty(),
    {
        proof {
            if self.entries@.len() > 0 {
                lemma_entries_map_index(self.entries@, 0);
            }
        }
        self.entries.len()
    }
}

impl ChunkChanges {
    /// A copy of this record, same view.
    pub fn duplicate(&self) -> (r: ChunkChanges)
        ensures
            r@ == self@,
    {
        match self {
            ChunkChanges::Created => ChunkChanges::Created,
            ChunkChanges::Edited(v) => ChunkChanges::Edited(copy_offsets(v)),
        }
    }
}

} // verus!
