//! Chunks (fixed-edge cubes of blocks) and columns (the fixed stack of
//! vertical chunk slots sharing one (x, z)). A slot is either absent — not
//! yet materialized — or holds a chunk; absence is distinct from "all air".

use vstd::prelude::*;
use crate::block::Block;
use crate::pos::{ChunkedPos, CHUNK_S1, MAX_HEIGHT, Y_CHUNKS};

verus! {

/// Number of cells of one chunk.
pub const CHUNK_VOL: usize = CHUNK_S1 * CHUNK_S1 * CHUNK_S1;

/// A position or height outside the configured world extent.
#[derive(Clone, Copy, PartialEq, Eq, Structural, Debug)]
pub struct BoundsError {}

/// Flat index of the cell at local offset (dx, dy, dz).
pub open spec fn spec_idx(dx: int, dy: int, dz: int) -> int {
    (dx * CHUNK_S1 + dy) * CHUNK_S1 + dz
}

/// The content of an all-air chunk.
pub open spec fn air_chunk() -> Seq<Block> {
    Seq::new(CHUNK_VOL as nat, |i: int| Block::Air)
}

/// A fixed-edge cube of blocks addressed by local 0-based offsets.
#[derive(Clone, Debug)]
pub struct Chunk {
    blocks: Vec<Block>,
}

impl View for Chunk {
    type V = Seq<Block>;

    closed spec fn view(&self) -> Seq<Block> {
        self.blocks@
    }
}

impl Chunk {
    /// A chunk holds exactly one block per cell.
    pub open spec fn wf(self) -> bool {
        self@.len() == CHUNK_VOL
    }

    /// A chunk filled with one block kind everywhere.
    pub fn filled(b: Block) -> (r: Chunk)
        ensures
            r.wf(),
            r@ == Seq::new(CHUNK_VOL as nat, |i: int| b),
    {
        let mut blocks: Vec<Block> = Vec::new();
        let mut i: usize = 0;
        while i < CHUNK_VOL
            invariant
                i <= CHUNK_VOL,
                blocks@.len() == i,
                forall|k: int| 0 <= k < i ==> blocks@[k] == b,
            decreases CHUNK_VOL - i,
        {
            blocks.push(b);
            i = i + 1;
        }
        let r = Chunk { blocks };
        proof {
            assert(r@ =~= Seq::new(CHUNK_VOL as nat, |i: int| b));
        }
        r
    }

    /// The block at a local offset.
    pub fn get(&self, l: ChunkedPos) -> (r: Block)
        requires
            self.wf(),
            l.0 < CHUNK_S1 && l.1 < CHUNK_S1 && l.2 < CHUNK_S1,
        ensures
            r == self@[spec_idx(l.0 as int, l.1 as int, l.2 as int)],
    {
        self.blocks[(l.0 * CHUNK_S1 + l.1) * CHUNK_S1 + l.2]
    }

    /// Sets the block at a local offset, leaving every other cell unchanged.
    pub fn set(&mut self, l: ChunkedPos, b: Block)
        requires
            old(self).wf(),
            l.0 < CHUNK_S1 && l.1 < CHUNK_S1 && l.2 < CHUNK_S1,
        ensures
            final(self).wf(),
            final(self)@ == old(self)@.update(spec_idx(l.0 as int, l.1 as int, l.2 as int), b),
    {
        self.blocks[(l.0 * CHUNK_S1 + l.1) * CHUNK_S1 + l.2] = b;
    }
}

/// What a possibly-absent slot reads as: its chunk content when
/// materialized, all air otherwise.
pub open spec fn slot_base(o: Option<Seq<Block>>) -> Seq<Block> {
    match o {
        Some(s) => s,
        None => air_chunk(),
    }
}

/// One cell update inside a column view: materializes the slot owning fine
/// height `y` (air-based when it was absent) and writes `b` at the cell
/// addressed by (dx, y, dz).
pub open spec fn spec_write_cell(
    v: Seq<Option<Seq<Block>>>,
    dx: int,
    y: int,
    dz: int,
    b: Block,
) -> Seq<Option<Seq<Block>>> {
    let cy = y / (CHUNK_S1 as int);
    v.update(cy, Some(slot_base(v[cy]).update(spec_idx(dx, y % (CHUNK_S1 as int), dz), b)))
}

/// A vertical run of cell writes at (dx, dz), fine heights `lo` to `hi`
/// inclusive, from the bottom up.
pub open spec fn spec_fill_span(
    v: Seq<Option<Seq<Block>>>,
    dx: int,
    dz: int,
    lo: int,
    hi: int,
    b: Block,
) -> Seq<Option<Seq<Block>>>
    decreases hi + 1 - lo,
{
    if hi < lo {
        v
    } else {
        spec_write_cell(spec_fill_span(v, dx, dz, lo, hi - 1, b), dx, hi, dz, b)
    }
}

/// What one cell of a column reads as: the stored block of its slot, air
/// while the slot is absent.
pub open spec fn col_cell(v: Seq<Option<Seq<Block>>>, dx: int, y: int, dz: int) -> Block {
    slot_base(v[y / (CHUNK_S1 as int)])[spec_idx(dx, y % (CHUNK_S1 as int), dz)]
}

/// A vertical fill, read pointwise: the cells of the run at (dx, dz) and
/// heights `lo` to `hi` hold the new block, and every other cell of the
/// column reads as before. The filled column keeps its shape.
pub proof fn lemma_fill_span_cell(
    v: Seq<Option<Seq<Block>>>,
    dx: int,
    dz: int,
    lo: int,
    hi: int,
    b: Block,
    qx: int,
    qy: int,
    qz: int,
)
    requires
        v.len() == Y_CHUNKS,
        forall|i: int|
            0 <= i < Y_CHUNKS ==> (#[trigger] v[i] matches Some(s) ==> s.len() == CHUNK_VOL),
        0 <= lo,
        hi < MAX_HEIGHT,
        0 <= dx < CHUNK_S1,
        0 <= dz < CHUNK_S1,
        0 <= qx < CHUNK_S1,
        0 <= qy < MAX_HEIGHT,
        0 <= qz < CHUNK_S1,
    ensures
        spec_fill_span(v, dx, dz, lo, hi, b).len() == Y_CHUNKS,
        forall|i: int|
            0 <= i < Y_CHUNKS ==> (#[trigger] spec_fill_span(v, dx, dz, lo, hi, b)[i] matches Some(
                s,
            ) ==> s.len() == CHUNK_VOL),
        col_cell(spec_fill_span(v, dx, dz, lo, hi, b), qx, qy, qz) == (if qx == dx && qz == dz
            && lo <= qy <= hi {
            b
        } else {
            col_cell(v, qx, qy, qz)
        }),
    decreases hi + 1 - lo,
{
    if hi >= lo {
        lemma_fill_span_cell(v, dx, dz, lo, hi - 1, b, qx, qy, qz);
        let w = spec_fill_span(v, dx, dz, lo, hi - 1, b);
        vstd::arithmetic::div_mod::lemma_fundamental_div_mod(hi, CHUNK_S1 as int);
        vstd::arithmetic::div_mod::lemma_fundamental_div_mod(qy, CHUNK_S1 as int);
        let cyh = hi / (CHUNK_S1 as int);
        let cyq = qy / (CHUNK_S1 as int);
        assert(0 <= cyh < Y_CHUNKS);
        assert(0 <= cyq < Y_CHUNKS);
        let base = slot_base(w[cyh]);
        assert(base.len() == CHUNK_VOL);
        assert(0 <= spec_idx(dx, hi % (CHUNK_S1 as int), dz) < CHUNK_VOL);
        assert(0 <= spec_idx(qx, qy % (CHUNK_S1 as int), qz) < CHUNK_VOL);
        if cyq == cyh && !(qx == dx && qz == dz && qy == hi) {
            assert(spec_idx(qx, qy % (CHUNK_S1 as int), qz) != spec_idx(
                dx,
                hi % (CHUNK_S1 as int),
                dz,
            ));
        }
    }
}

/// The fixed stack of vertical chunk slots at one (x, z).
#[derive(Clone, Debug)]
pub struct Column {
    chunks: Vec<Option<Chunk>>,
}

impl View for Column {
    type V = Seq<Option<Seq<Block>>>;

    closed spec fn view(&self) -> Seq<Option<Seq<Block>>> {
        Seq::new(
            self.chunks@.len() as nat,
            |i: int|
                match self.chunks@[i] {
                    Some(c) => Some(c@),
                    None => None,
                },
        )
    }
}

impl Column {
    /// A column holds exactly `Y_CHUNKS` slots, each absent or a
    /// well-formed chunk.
    pub open spec fn wf(self) -> bool {
        &&& self@.len() == Y_CHUNKS
        &&& forall|i: int|
            0 <= i < Y_CHUNKS ==> (#[trigger] self@[i] matches Some(s) ==> s.len() == CHUNK_VOL)
    }

    /// A column with every slot still absent.
    pub fn new() -> (r: Column)
        ensures
            r.wf(),
            r@ == Seq::new(Y_CHUNKS as nat, |i: int| None::<Seq<Block>>),
    {
        let mut chunks: Vec<Option<Chunk>> = Vec::new();
        let mut i: usize = 0;
        while i < Y_CHUNKS
            invariant
                i <= Y_CHUNKS,
                chunks@.len() == i,
                forall|k: int| 0 <= k < i ==> chunks@[k] is None,
            decreases Y_CHUNKS - i,
        {
            chunks.push(None);
            i = i + 1;
        }
        let r = Column { chunks };
        proof {
            assert(r@ =~= Seq::new(Y_CHUNKS as nat, |i: int| None::<Seq<Block>>));
        }
        r
    }

    /// Whether the slot at chunk height `cy` is materialized.
    pub fn has_chunk(&self, cy: usize) -> (r: bool)
        requires
            self.wf(),
            cy < Y_CHUNKS,
        ensures
            r == (self@[cy as int] is Some),
    {
        self.chunks[cy].is_some()
    }

    /// The block read at chunk height `cy`, local offset `l`: the stored
    /// block of a materialized slot, air for an absent one.
    pub fn get_bloc(&self, cy: usize, l: ChunkedPos) -> (r: Block)
        requires
            self.wf(),
            cy < Y_CHUNKS,
            l.0 < CHUNK_S1 && l.1 < CHUNK_S1 && l.2 < CHUNK_S1,
        ensures
            r == slot_base(self@[cy as int])[spec_idx(l.0 as int, l.1 as int, l.2 as int)],
    {
        match &self.chunks[cy] {
            Some(c) => c.get(l),
            None => Block::Air,
        }
    }

    /// Sets one cell, materializing the target chunk (air-filled) when it
    /// is absent. Returns whether that materialization just happened.
    pub fn set_bloc(&mut self, cy: usize, l: ChunkedPos, b: Block) -> (created: bool)
        requires
            old(self).wf(),
            cy < Y_CHUNKS,
            l.0 < CHUNK_S1 && l.1 < CHUNK_S1 && l.2 < CHUNK_S1,
        ensures
            final(self).wf(),
            created == (old(self)@[cy as int] is None),
            final(self)@ == old(self)@.update(
                cy as int,
                Some(
                    slot_base(old(self)@[cy as int]).update(
                        spec_idx(l.0 as int, l.1 as int, l.2 as int),
                        b,
                    ),
                ),
            ),
    {
        let created = !self.chunks[cy].is_some();
        if created {
            self.chunks[cy] = Some(Chunk::filled(Block::Air));
        }
        let c = &mut self.chunks[cy];
        match c {
            Some(inner) => inner.set(l, b),
            None => (),
        }
        proof {
            assert(self@ =~= old(self)@.update(
                cy as int,
                Some(
                    slot_base(old(self)@[cy as int]).update(
                        spec_idx(l.0 as int, l.1 as int, l.2 as int),
                        b,
                    ),
                ),
            ));
        }
        created
    }

    /// Bulk-writes a vertical run of `height` blocks at local (dx, dz),
    /// topmost cell at fine height `top`, going down. A run that would
    /// leave the world extent is rejected whole with a bounds error and the
    /// column is left unchanged.
    pub fn set_yrange(&mut self, xz: (usize, usize), top: i32, height: usize, b: Block) -> (r:
        Result<(), BoundsError>)
        requires
            old(self).wf(),
            xz.0 < CHUNK_S1 && xz.1 < CHUNK_S1,
        ensures
            final(self).wf(),
            r is Ok <==> (0 <= top < MAX_HEIGHT && height <= top + 1),
            r is Ok ==> final(self)@ == spec_fill_span(
                old(self)@,
                xz.0 as int,
                xz.1 as int,
                top + 1 - height,
                top as int,
                b,
            ),
            r is Err ==> final(self)@ == old(self)@,
    {
        if top < 0 || top >= MAX_HEIGHT as i32 || height > (top as usize) + 1 {
            return Err(BoundsError {});
        }
        let lo: i32 = top + 1 - (height as i32);
        let mut y: i32 = lo;
        while y <= top
            invariant
                old(self).wf(),
                self.wf(),
                0 <= lo <= y,
                y <= top + 1,
                top < MAX_HEIGHT,
                xz.0 < CHUNK_S1 && xz.1 < CHUNK_S1,
                self@ == spec_fill_span(
                    old(self)@,
                    xz.0 as int,
                    xz.1 as int,
                    lo as int,
                    y - 1,
                    b,
                ),
            decreases top + 1 - y,
        {
            let cy: usize = (y as usize) / CHUNK_S1;
            let dy: usize = (y as usize) % CHUNK_S1;
            self.set_bloc(cy, (xz.0, dy, xz.1), b);
            y = y + 1;
        }
        Ok(())
    }
}

} // verus!
