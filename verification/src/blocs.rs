//! The column/chunk store: sole owner of all block data of every realm.
//! Columns materialize on demand through a pluggable generator — at most
//! once per column, since a resident column is never generated again — and
//! every mutation records a change for the presentation layer in the store's
//! change queue.

use vstd::prelude::*;
use crate::block::Block;
use crate::changes::{spec_record, ChangeView, Changes, ChunkChanges};
use crate::chunk::{slot_base, spec_idx, spec_write_cell, BoundsError, Column, CHUNK_VOL};
use crate::pos::{
    chunk_of, local_of, spec_col_of_chunk, spec_to_chunked, BlocPos, ChunkPos, ChunkedPos, ColPos,
    Pos3d, CHUNK_S1, MAX_HEIGHT, Y_CHUNKS,
};

verus! {

/// What one column of the world holds: one optional chunk content per
/// vertical slot.
pub type ColumnView = Seq<Option<Seq<Block>>>;

/// A pluggable, deterministic per-column block producer, consulted once
/// when a column first materializes. `spec_gen` is the producer's output as
/// a function of the column position alone, so generation is deterministic
/// and concurrent generation of distinct columns cannot interfere.
pub trait Generator {
    /// Well-formedness of the producer's own static configuration.
    spec fn inv(&self) -> bool;

    /// The column this producer assigns to a column position.
    spec fn spec_gen(&self, col: ColPos) -> ColumnView;

    /// Produces the blocks of one column.
    fn gen(&self, col: ColPos) -> (r: Column)
        requires
            self.inv(),
        ensures
            r.wf(),
            r@ == self.spec_gen(col),
    ;
}

/// Chunk position of the slot at chunk height `cy` of a column.
pub open spec fn chunk_pos_of(col: ColPos, cy: int) -> ChunkPos {
    Pos3d { x: col.x, y: cy as i32, z: col.z, realm: col.realm }
}

/// A fine position the world can hold: its height lies inside the fixed
/// vertical extent. (x and z are unbounded.)
pub open spec fn in_extent(pos: BlocPos) -> bool {
    0 <= pos.y < MAX_HEIGHT
}

/// The columns as a map keyed by column position.
pub open spec fn cols_map(s: Seq<(ColPos, Column)>) -> Map<ColPos, ColumnView>
    decreases s.len(),
{
    if s.len() == 0 {
        Map::empty()
    } else {
        cols_map(s.drop_last()).insert(s.last().0, s.last().1@)
    }
}

/// No two entries share a column position.
pub open spec fn col_keys_distinct(s: Seq<(ColPos, Column)>) -> bool {
    forall|i: int, j: int| 0 <= i < j < s.len() ==> (#[trigger] s[i]).0 != (#[trigger] s[j]).0
}

proof fn lemma_cols_map_contains(s: Seq<(ColPos, Column)>, k: ColPos)
    ensures
        cols_map(s).contains_key(k) <==> exists|i: int|
            0 <= i < s.len() && (#[trigger] s[i]).0 == k,
    decreases s.len(),
{
    if s.len() > 0 {
        let t = s.drop_last();
        lemma_cols_map_contains(t, k);
        if s.last().0 == k {
            assert(s[s.len() - 1].0 == k);
        } else if cols_map(s).contains_key(k) {
            let i = choose|i: int| 0 <= i < t.len() && (#[trigger] t[i]).0 == k;
            assert(s[i].0 == k);
        } else if exists|i: int| 0 <= i < s.len() && (#[trigger] s[i]).0 == k {
            let i = choose|i: int| 0 <= i < s.len() && (#[trigger] s[i]).0 == k;
            assert(i < s.len() - 1 && t[i].0 == k);
        }
    }
}

proof fn lemma_cols_map_index(s: Seq<(ColPos, Column)>, i: int)
    requires
        col_keys_distinct(s),
        0 <= i < s.len(),
    ensures
        cols_map(s).contains_key(s[i].0),
        cols_map(s)[s[i].0] == s[i].1@,
    decreases s.len(),
{
    if i < s.len() - 1 {
        let t = s.drop_last();
        lemma_cols_map_index(t, i);
        assert(s[i].0 != s.last().0);
    }
}

proof fn lemma_cols_map_update(s: Seq<(ColPos, Column)>, i: int, v: Column)
    requires
        col_keys_distinct(s),
        0 <= i < s.len(),
    ensures
        cols_map(s.update(i, (s[i].0, v))) == cols_map(s).insert(s[i].0, v@),
    decreases s.len(),
{
    let s2 = s.update(i, (s[i].0, v));
    if i == s.len() - 1 {
        assert(s2.drop_last() =~= s.drop_last());
        assert(cols_map(s2) =~= cols_map(s).insert(s[i].0, v@));
    } else {
        let t = s.drop_last();
        lemma_cols_map_update(t, i, v);
        assert(s2.drop_last() =~= t.update(i, (t[i].0, v)));
        assert(s2.last() == s.last());
        assert(s[i].0 != s.last().0);
        assert(cols_map(s2) =~= cols_map(s).insert(s[i].0, v@));
    }
}

proof fn lemma_cols_map_remove_at(s: Seq<(ColPos, Column)>, j: int)
    requires
        col_keys_distinct(s),
        0 <= j < s.len(),
    ensures
        cols_map(s.remove(j)) == cols_map(s).remove(s[j].0),
    decreases s.len(),
{
    let t = s.drop_last();
    if j == s.len() - 1 {
        assert(s.remove(j) =~= t);
        assert(!cols_map(t).contains_key(s[j].0)) by {
            lemma_cols_map_contains(t, s[j].0);
            if exists|i: int| 0 <= i < t.len() && (#[trigger] t[i]).0 == s[j].0 {
                let i = choose|i: int| 0 <= i < t.len() && (#[trigger] t[i]).0 == s[j].0;
                assert(s[i].0 == s[j].0);
            }
        }
        assert(cols_map(s.remove(j)) =~= cols_map(s).remove(s[j].0));
    } else {
        lemma_cols_map_remove_at(t, j);
        assert(s.remove(j).drop_last() =~= t.remove(j));
        assert(s.remove(j).last() == s.last());
        assert(s[j].0 != s.last().0);
        assert(cols_map(s.remove(j)) =~= cols_map(s).remove(s[j].0));
    }
}

/// The change queue after discarding whatever was pending for the first
/// `n` chunk slots of a column.
pub open spec fn spec_discard_col(
    m: Map<ChunkPos, ChangeView>,
    col: ColPos,
    n: int,
) -> Map<ChunkPos, ChangeView>
    decreases n,
{
    if n <= 0 {
        m
    } else {
        spec_discard_col(m, col, n - 1).remove(chunk_pos_of(col, n - 1))
    }
}

/// The block the world holds at a fine position: none while the owning
/// column is not resident; inside a resident column an absent chunk slot
/// reads as air.
pub open spec fn spec_block_at(m: Map<ColPos, ColumnView>, pos: BlocPos) -> Option<Block> {
    let cpos = spec_to_chunked(pos).0;
    let l = spec_to_chunked(pos).1;
    let col = spec_col_of_chunk(cpos);
    if m.contains_key(col) {
        Some(
            slot_base(m[col][chunk_of(pos.y as int)])[spec_idx(
                l.0 as int,
                l.1 as int,
                l.2 as int,
            )],
        )
    } else {
        None
    }
}

/// The change queue after recording `Created` for every slot of a freshly
/// generated column that the generator materialized, bottom up.
pub open spec fn spec_mark_created(
    m: Map<ChunkPos, ChangeView>,
    col: ColPos,
    v: ColumnView,
    n: int,
) -> Map<ChunkPos, ChangeView>
    decreases n,
{
    if n <= 0 {
        m
    } else {
        let m1 = spec_mark_created(m, col, v, n - 1);
        if v[n - 1] is Some {
            spec_record(m1, chunk_pos_of(col, n - 1), ChangeView::Created)
        } else {
            m1
        }
    }
}

/// The store of all block data, one entry per resident column, plus the
/// change queue carrying its mutations to the presentation layer.
pub struct Blocs {
    /// Resident columns, keyed by column position.
    pub cols: Vec<(ColPos, Column)>,
    /// Pending presentation updates of this store's mutations.
    pub changes: Changes,
}

impl View for Blocs {
    type V = Map<ColPos, ColumnView>;

    open spec fn view(&self) -> Map<ColPos, ColumnView> {
        cols_map(self.cols@)
    }
}

impl Blocs {
    /// At most one entry per column position, every column well formed,
    /// and a well-formed change queue.
    pub open spec fn wf(self) -> bool {
        &&& col_keys_distinct(self.cols@)
        &&& forall|i: int| 0 <= i < self.cols@.len() ==> (#[trigger] self.cols@[i]).1.wf()
        &&& self.changes.wf()
    }

    /// Every resident column of a well-formed store has `Y_CHUNKS` slots,
    /// each absent or holding a full chunk.
    pub proof fn lemma_wf_cols(self, col: ColPos)
        requires
            self.wf(),
            self@.contains_key(col),
        ensures
            self@[col].len() == Y_CHUNKS,
            forall|cy: int|
                0 <= cy < Y_CHUNKS ==> (#[trigger] self@[col][cy] matches Some(s) ==> s.len()
                    == CHUNK_VOL),
    {
        lemma_cols_map_contains(self.cols@, col);
        let i = choose|i: int| 0 <= i < self.cols@.len() && (#[trigger] self.cols@[i]).0 == col;
        lemma_cols_map_index(self.cols@, i);
    }

    /// An empty store: no resident column, nothing pending.
    pub fn new() -> (r: Blocs)
        ensures
            r.wf(),
            r@ == Map::<ColPos, ColumnView>::empty(),
            r.changes@ == Map::<ChunkPos, ChangeView>::empty(),
    {
        Blocs { cols: Vec::new(), changes: Changes::new() }
    }

    /// Whether a column is resident.
    pub fn has_col(&self, col: ColPos) -> (r: bool)
        requires
            self.wf(),
        ensures
            r == self@.contains_key(col),
    {
        proof {
            lemma_cols_map_contains(self.cols@, col);
        }
        let n = self.cols.len();
        let mut i: usize = 0;
        while i < n
            invariant
                self.wf(),
                n == self.cols@.len(),
                i <= n,
                forall|k: int| 0 <= k < i ==> (#[trigger] self.cols@[k]).0 != col,
            decreases n - i,
        {
            if self.cols[i].0 == col {
                proof {
                    assert(self.cols@[i as int].0 == col);
                    lemma_cols_map_contains(self.cols@, col);
                }
                return true;
            }
            i = i + 1;
        }
        proof {
            lemma_cols_map_contains(self.cols@, col);
        }
        false
    }

    /// Index of a resident column's entry.
    fn col_index(&self, col: ColPos) -> (r: usize)
        requires
            self.wf(),
            self@.contains_key(col),
        ensures
            r < self.cols@.len(),
            self.cols@[r as int].0 == col,
            self.cols@[r as int].1@ == self@[col],
            self.cols@[r as int].1.wf(),
    {
        proof {
            lemma_cols_map_contains(self.cols@, col);
        }
        let n = self.cols.len();
        let mut i: usize = 0;
        while i < n
            invariant
                self.wf(),
                n == self.cols@.len(),
                i <= n,
                forall|k: int| 0 <= k < i ==> (#[trigger] self.cols@[k]).0 != col,
                exists|k: int| 0 <= k < n && (#[trigger] self.cols@[k]).0 == col,
            decreases n - i,
        {
            if self.cols[i].0 == col {
                proof {
                    lemma_cols_map_index(self.cols@, i as int);
                }
                return i;
            }
            i = i + 1;
        }
        proof {
            assert(false);
        }
        0
    }

    /// Makes a column resident: a column not yet resident is generated —
    /// exactly once, since from then on it is resident — and a `Created`
    /// record is entered for each chunk slot the generator materialized. A
    /// resident column is left untouched, so concurrent callers can never
    /// trigger duplicate generation.
    pub fn load_col<G: Generator>(&mut self, col: ColPos, generator: &G)
        requires
            old(self).wf(),
            generator.inv(),
        ensures
            final(self).wf(),
            old(self)@.contains_key(col) ==> final(self)@ == old(self)@ && final(self).changes@
                == old(self).changes@,
            !old(self)@.contains_key(col) ==> final(self)@ == old(self)@.insert(
                col,
                generator.spec_gen(col),
            ) && final(self).changes@ == spec_mark_created(
                old(self).changes@,
                col,
                generator.spec_gen(col),
                Y_CHUNKS as int,
            ),
            final(self)@.contains_key(col),
    {
        if self.has_col(col) {
            return ;
        }
        let data = generator.gen(col);
        let mut cy: usize = 0;
        while cy < Y_CHUNKS
            invariant
                cy <= Y_CHUNKS,
                data.wf(),
                data@ == generator.spec_gen(col),
                self.cols@ == old(self).cols@,
                old(self).wf(),
                !old(self)@.contains_key(col),
                self.changes.wf(),
                self.changes@ == spec_mark_created(
                    old(self).changes@,
                    col,
                    generator.spec_gen(col),
                    cy as int,
                ),
            decreases Y_CHUNKS - cy,
        {
            if data.has_chunk(cy) {
                self.changes.insert(chunk_pos_of_exec(col, cy), ChunkChanges::Created);
            }
            cy = cy + 1;
        }
        self.cols.push((col, data));
        proof {
            assert(self.cols@.drop_last() =~= old(self).cols@);
            lemma_cols_map_contains(old(self).cols@, col);
        }
    }
}

/// Chunk position of the slot at chunk height `cy` of a column.
pub fn chunk_pos_of_exec(col: ColPos, cy: usize) -> (r: ChunkPos)
    requires
        cy < Y_CHUNKS,
    ensures
        r == chunk_pos_of(col, cy as int),
{
    Pos3d { x: col.x, y: cy as i32, z: col.z, realm: col.realm }
}


/// Column owning a fine position.
pub open spec fn col_of_pos(pos: BlocPos) -> ColPos {
    spec_col_of_chunk(spec_to_chunked(pos).0)
}

/// The world after one write: the owning column's cell at `pos` becomes
/// `b` (materializing the owning chunk when absent), everything else is
/// unchanged.
pub open spec fn spec_world_write(
    m: Map<ColPos, ColumnView>,
    pos: BlocPos,
    b: Block,
) -> Map<ColPos, ColumnView> {
    m.insert(
        col_of_pos(pos),
        spec_write_cell(
            m[col_of_pos(pos)],
            local_of(pos.x as int),
            pos.y as int,
            local_of(pos.z as int),
            b,
        ),
    )
}

/// Write/read consistency: after a write of `b` at `pos`, the world holds
/// exactly `b` at `pos`.
pub proof fn lemma_write_read(m: Map<ColPos, ColumnView>, pos: BlocPos, b: Block)
    requires
        in_extent(pos),
        m.contains_key(col_of_pos(pos)),
        m[col_of_pos(pos)].len() == Y_CHUNKS,
        forall|cy: int|
            0 <= cy < Y_CHUNKS ==> (#[trigger] m[col_of_pos(pos)][cy] matches Some(s) ==> s.len()
                == CHUNK_VOL),
    ensures
        spec_block_at(spec_world_write(m, pos, b), pos) == Some(b),
{
    vstd::arithmetic::div_mod::lemma_fundamental_div_mod(pos.x as int, CHUNK_S1 as int);
    vstd::arithmetic::div_mod::lemma_fundamental_div_mod(pos.y as int, CHUNK_S1 as int);
    vstd::arithmetic::div_mod::lemma_fundamental_div_mod(pos.z as int, CHUNK_S1 as int);
    let cy = chunk_of(pos.y as int);
    assert(0 <= cy < Y_CHUNKS);
    let dx = local_of(pos.x as int);
    let dy = local_of(pos.y as int);
    let dz = local_of(pos.z as int);
    assert(0 <= spec_idx(dx, dy, dz) < CHUNK_VOL);
}

/// Frame rule of a write: every cell other than the written one — in the
/// same chunk, the same column, or any other column — reads as before.
pub proof fn lemma_write_frame(m: Map<ColPos, ColumnView>, pos: BlocPos, b: Block, q: BlocPos)
    requires
        in_extent(pos),
        in_extent(q),
        m.contains_key(col_of_pos(pos)),
        m[col_of_pos(pos)].len() == Y_CHUNKS,
        forall|cy: int|
            0 <= cy < Y_CHUNKS ==> (#[trigger] m[col_of_pos(pos)][cy] matches Some(s) ==> s.len()
                == CHUNK_VOL),
        q != pos,
    ensures
        spec_block_at(spec_world_write(m, pos, b), q) == spec_block_at(m, q),
{
    vstd::arithmetic::div_mod::lemma_fundamental_div_mod(pos.x as int, CHUNK_S1 as int);
    vstd::arithmetic::div_mod::lemma_fundamental_div_mod(pos.y as int, CHUNK_S1 as int);
    vstd::arithmetic::div_mod::lemma_fundamental_div_mod(pos.z as int, CHUNK_S1 as int);
    vstd::arithmetic::div_mod::lemma_fundamental_div_mod(q.x as int, CHUNK_S1 as int);
    vstd::arithmetic::div_mod::lemma_fundamental_div_mod(q.y as int, CHUNK_S1 as int);
    vstd::arithmetic::div_mod::lemma_fundamental_div_mod(q.z as int, CHUNK_S1 as int);
    if col_of_pos(q) == col_of_pos(pos) {
        let cyp = chunk_of(pos.y as int);
        let cyq = chunk_of(q.y as int);
        assert(0 <= cyp < Y_CHUNKS);
        assert(0 <= cyq < Y_CHUNKS);
        if cyq == cyp {
            assert(slot_base(m[col_of_pos(pos)][cyp]).len() == CHUNK_VOL);
            assert(0 <= spec_idx(
                local_of(q.x as int),
                local_of(q.y as int),
                local_of(q.z as int),
            ) < CHUNK_VOL);
            // Same chunk: the two cells cannot share a flat index, since
            // equal chunk coordinates and equal local offsets would make
            // the positions equal.
            assert(!(local_of(q.x as int) == local_of(pos.x as int) && local_of(q.y as int)
                == local_of(pos.y as int) && local_of(q.z as int) == local_of(pos.z as int)));
            assert(spec_idx(
                local_of(q.x as int),
                local_of(q.y as int),
                local_of(q.z as int),
            ) != spec_idx(local_of(pos.x as int), local_of(pos.y as int), local_of(pos.z as int)));
        }
    }
}

impl Blocs {
    /// The block at a fine position. When the owning column is not yet
    /// resident it first materializes through the generator — the entry
    /// map serializes this, so the column is generated at most once — and
    /// the read then resolves against the resident column, where an absent
    /// chunk slot reads as air. The store is never mutated by a read of a
    /// resident column.
    pub fn read<G: Generator>(&mut self, pos: BlocPos, generator: &G) -> (r: Block)
        requires
            old(self).wf(),
            generator.inv(),
            in_extent(pos),
        ensures
            final(self).wf(),
            old(self)@.contains_key(col_of_pos(pos)) ==> final(self)@ == old(self)@
                && final(self).changes@ == old(self).changes@,
            !old(self)@.contains_key(col_of_pos(pos)) ==> final(self)@ == old(self)@.insert(
                col_of_pos(pos),
                generator.spec_gen(col_of_pos(pos)),
            ) && final(self).changes@ == spec_mark_created(
                old(self).changes@,
                col_of_pos(pos),
                generator.spec_gen(col_of_pos(pos)),
                Y_CHUNKS as int,
            ),
            Some(r) == spec_block_at(final(self)@, pos),
    {
        let col = pos.to_col_pos();
        self.load_col(col, generator);
        let i = self.col_index(col);
        let (_cpos, l) = pos.to_chunked();
        let (cy_i, _dy) = crate::pos::chunked(pos.y);
        proof {
            vstd::arithmetic::div_mod::lemma_fundamental_div_mod(pos.y as int, CHUNK_S1 as int);
        }
        let cy: usize = cy_i as usize;
        let b = self.cols[i].1.get_bloc(cy, l);
        b
    }

    /// Sets the block at a fine position of a resident column: the cell
    /// changes to exactly `b`, every other cell of the world is unchanged,
    /// and exactly one record is merged into the change queue — `Created`
    /// when this write just materialized the owning chunk, otherwise
    /// `Edited` carrying this cell's local offset.
    pub fn write(&mut self, pos: BlocPos, b: Block)
        requires
            old(self).wf(),
            in_extent(pos),
            old(self)@.contains_key(col_of_pos(pos)),
        ensures
            final(self).wf(),
            final(self)@ == spec_world_write(old(self)@, pos, b),
            spec_block_at(final(self)@, pos) == Some(b),
            final(self).changes@ == spec_record(
                old(self).changes@,
                spec_to_chunked(pos).0,
                if old(self)@[col_of_pos(pos)][chunk_of(pos.y as int)] is None {
                    ChangeView::Created
                } else {
                    ChangeView::Edited(set![spec_to_chunked(pos).1])
                },
            ),
    {
        let col = pos.to_col_pos();
        let i = self.col_index(col);
        let (cpos, l) = pos.to_chunked();
        let (cy_i, _dy) = crate::pos::chunked(pos.y);
        proof {
            vstd::arithmetic::div_mod::lemma_fundamental_div_mod(pos.y as int, CHUNK_S1 as int);
        }
        let cy: usize = cy_i as usize;
        let ghost s0 = self.cols@;
        let c = &mut self.cols[i].1;
        let created = c.set_bloc(cy, l, b);
        proof {
            lemma_cols_map_update(s0, i as int, self.cols@[i as int].1);
            assert(self.cols@ =~= s0.update(i as int, (s0[i as int].0, self.cols@[i as int].1)));
        }
        let offs = singleton_offsets(l);
        if created {
            self.changes.insert(cpos, ChunkChanges::Created);
        } else {
            self.changes.insert(cpos, ChunkChanges::Edited(offs));
        }
        proof {
            lemma_write_read(old(self)@, pos, b);
        }
    }
}


/// An offset list holding exactly one local offset.
fn singleton_offsets(l: ChunkedPos) -> (r: Vec<ChunkedPos>)
    ensures
        r@.to_set() == set![l],
{
    let mut offs: Vec<ChunkedPos> = Vec::new();
    offs.push(l);
    proof {
        assert forall|y: ChunkedPos| offs@.to_set().contains(y) implies set![l].contains(y) by {
            let k = choose|k: int| 0 <= k < offs@.len() && offs@[k] == y;
        }
        assert(offs@[0] == l);
        assert(offs@.to_set() =~= set![l]);
    }
    offs
}

/// Store state — column content and change queue — after a vertical run of
/// single-cell writes at local (dx, dz) of one column, fine heights `lo`
/// to `hi` inclusive, bottom up: each write materializes the owning chunk
/// when needed and merges the matching record.
pub open spec fn spec_span_fold(
    v: ColumnView,
    m: Map<ChunkPos, ChangeView>,
    col: ColPos,
    dx: int,
    dz: int,
    lo: int,
    hi: int,
    b: Block,
) -> (ColumnView, Map<ChunkPos, ChangeView>)
    decreases hi + 1 - lo,
{
    if hi < lo {
        (v, m)
    } else {
        let p = spec_span_fold(v, m, col, dx, dz, lo, hi - 1, b);
        let cy = hi / (CHUNK_S1 as int);
        let rec = if p.0[cy] is None {
            ChangeView::Created
        } else {
            ChangeView::Edited(set![(dx as usize, (hi % (CHUNK_S1 as int)) as usize, dz as usize)])
        };
        (spec_write_cell(p.0, dx, hi, dz, b), spec_record(p.1, chunk_pos_of(col, cy), rec))
    }
}

impl Blocs {
    /// Bulk-writes a vertical run of `height` blocks at local (dx, dz) of
    /// a resident column, topmost cell at fine height `top`, going down;
    /// each touched chunk's record is merged into the change queue as a
    /// single-cell write would merge it. A run that would leave the world
    /// extent is rejected whole with a bounds error, and nothing changes.
    pub fn set_yrange(
        &mut self,
        col: ColPos,
        xz: (usize, usize),
        top: i32,
        height: usize,
        b: Block,
    ) -> (r: Result<(), BoundsError>)
        requires
            old(self).wf(),
            old(self)@.contains_key(col),
            xz.0 < CHUNK_S1 && xz.1 < CHUNK_S1,
        ensures
            final(self).wf(),
            r is Ok <==> (0 <= top < MAX_HEIGHT && height <= top + 1),
            r is Ok ==> ({
                let p = spec_span_fold(
                    old(self)@[col],
                    old(self).changes@,
                    col,
                    xz.0 as int,
                    xz.1 as int,
                    top + 1 - height,
                    top as int,
                    b,
                );
                final(self)@ == old(self)@.insert(col, p.0) && final(self).changes@ == p.1
            }),
            r is Err ==> final(self)@ == old(self)@ && final(self).changes@ == old(self).changes@,
    {
        if top < 0 || top >= MAX_HEIGHT as i32 || height > (top as usize) + 1 {
            return Err(BoundsError {});
        }
        let i = self.col_index(col);
        let lo: i32 = top + 1 - (height as i32);
        let mut y: i32 = lo;
        while y <= top
            invariant
                old(self).wf(),
                old(self)@.contains_key(col),
                self.wf(),
                0 <= lo <= y,
                y <= top + 1,
                top < MAX_HEIGHT,
                xz.0 < CHUNK_S1 && xz.1 < CHUNK_S1,
                i < self.cols@.len(),
                self.cols@.len() == old(self).cols@.len(),
                self.cols@[i as int].0 == col,
                ({
                    let p = spec_span_fold(
                        old(self)@[col],
                        old(self).changes@,
                        col,
                        xz.0 as int,
                        xz.1 as int,
                        lo as int,
                        y - 1,
                        b,
                    );
                    self@ == old(self)@.insert(col, p.0) && self.changes@ == p.1
                }),
            decreases top + 1 - y,
        {
            let ghost p_prev = spec_span_fold(
                old(self)@[col],
                old(self).changes@,
                col,
                xz.0 as int,
                xz.1 as int,
                lo as int,
                y - 1,
                b,
            );
            let cy: usize = (y as usize) / CHUNK_S1;
            let dy: usize = (y as usize) % CHUNK_S1;
            proof {
                lemma_cols_map_index(self.cols@, i as int);
                vstd::arithmetic::div_mod::lemma_fundamental_div_mod(y as int, CHUNK_S1 as int);
            }
            let ghost s0 = self.cols@;
            let c = &mut self.cols[i].1;
            let created = c.set_bloc(cy, (xz.0, dy, xz.1), b);
            proof {
                lemma_cols_map_update(s0, i as int, self.cols@[i as int].1);
                assert(self.cols@ =~= s0.update(
                    i as int,
                    (s0[i as int].0, self.cols@[i as int].1),
                ));
            }
            if created {
                self.changes.insert(chunk_pos_of_exec(col, cy), ChunkChanges::Created);
            } else {
                let offs = singleton_offsets((xz.0, dy, xz.1));
                self.changes.insert(chunk_pos_of_exec(col, cy), ChunkChanges::Edited(offs));
            }
            proof {
                let p_now = spec_span_fold(
                    old(self)@[col],
                    old(self).changes@,
                    col,
                    xz.0 as int,
                    xz.1 as int,
                    lo as int,
                    y as int,
                    b,
                );
                assert(p_now.0 == spec_write_cell(p_prev.0, xz.0 as int, y as int, xz.1 as int, b));
                assert(self@ =~= old(self)@.insert(col, p_now.0));
            }
            y = y + 1;
        }
        Ok(())
    }
}


impl Blocs {
    /// Destroys a column and all its chunks atomically: the column leaves
    /// the store, and every pending change record of its chunk slots is
    /// discarded, so none of its changes can be delivered after the
    /// unload. A column that is not resident only has such records
    /// discarded.
    pub fn unload_col(&mut self, col: ColPos)
        requires
            old(self).wf(),
        ensures
            final(self).wf(),
            final(self)@ == old(self)@.remove(col),
            final(self).changes@ == spec_discard_col(
                old(self).changes@,
                col,
                Y_CHUNKS as int,
            ),
    {
        let n = self.cols.len();
        let mut idx: usize = n;
        let mut i: usize = 0;
        while i < n
            invariant
                self.wf(),
                self.cols@ == old(self).cols@,
                self.changes@ == old(self).changes@,
                n == self.cols@.len(),
                i <= n,
                idx == n || (idx < n && self.cols@[idx as int].0 == col),
                idx == n ==> forall|k: int| 0 <= k < i ==> (#[trigger] self.cols@[k]).0 != col,
            decreases n - i,
        {
            if idx == n && self.cols[i].0 == col {
                idx = i;
            }
            i = i + 1;
        }
        if idx < n {
            proof {
                lemma_cols_map_index(self.cols@, idx as int);
                lemma_cols_map_remove_at(self.cols@, idx as int);
            }
            let ghost s0 = self.cols@;
            let _ = self.cols.remove(idx);
            proof {
                assert(col_keys_distinct(self.cols@)) by {
                    assert forall|a: int, b: int| 0 <= a < b < self.cols@.len() implies (
                    #[trigger] self.cols@[a]).0 != (#[trigger] self.cols@[b]).0 by {
                        assert(self.cols@[a] == if a < idx {
                            s0[a]
                        } else {
                            s0[a + 1]
                        });
                        assert(self.cols@[b] == if b < idx {
                            s0[b]
                        } else {
                            s0[b + 1]
                        });
                    }
                }
                assert forall|k: int| 0 <= k < self.cols@.len() implies (
                #[trigger] self.cols@[k]).1.wf() by {
                    assert(self.cols@[k] == if k < idx {
                        s0[k]
                    } else {
                        s0[k + 1]
                    });
                }
            }
        } else {
            proof {
                lemma_cols_map_contains(self.cols@, col);
                assert(self@ =~= old(self)@.remove(col));
            }
        }
        let mut cy: usize = 0;
        while cy < Y_CHUNKS
            invariant
                cy <= Y_CHUNKS,
                self.wf(),
                self@ == old(self)@.remove(col),
                self.changes@ == spec_discard_col(old(self).changes@, col, cy as int),
            decreases Y_CHUNKS - cy,
        {
            self.changes.remove(chunk_pos_of_exec(col, cy));
            cy = cy + 1;
        }
    }
}

} // verus!
