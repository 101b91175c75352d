//! The debug world generator: a pure, deterministic per-column block
//! producer. Its static configuration is a classification table mapping two
//! condition axes (fixed-point, per-mille samples) to a block kind by
//! nearest match; malformed or missing table data is a fatal startup error.

use vstd::prelude::*;
use crate::block::Block;
use crate::blocs::{ColumnView, Generator};
use crate::chunk::{col_cell, lemma_fill_span_cell, spec_fill_span, Column, CHUNK_VOL};
use crate::pos::{ColPos, CHUNK_S1, MAX_HEIGHT, Y_CHUNKS};

verus! {

/// Highest fine height the generator may fill.
pub const MAX_GEN_HEIGHT: usize = 64;

/// Thickness of the generated soil layer, in blocks.
pub const GEN_DEPTH: usize = 3;

/// Bound on the magnitude of table and sample values (per-mille scale).
pub const SOIL_LIMIT: i32 = 1000000;

/// The classification table is missing or unusable: fatal at startup.
#[derive(Clone, Copy, PartialEq, Eq, Structural, Debug)]
pub struct GenerationDataError {}

/// One table row: an interval per condition axis and the block it selects.
#[derive(Clone, Copy, PartialEq, Eq, Structural, Debug)]
pub struct SoilRow {
    pub t_min: i32,
    pub t_max: i32,
    pub h_min: i32,
    pub h_max: i32,
    pub block: Block,
}

/// A usable row: each interval is ordered and within the value bound.
pub open spec fn row_wf(r: SoilRow) -> bool {
    &&& -SOIL_LIMIT <= r.t_min <= r.t_max <= SOIL_LIMIT
    &&& -SOIL_LIMIT <= r.h_min <= r.h_max <= SOIL_LIMIT
}

/// Distance of a sample value to an interval along one axis: zero inside
/// the interval, the gap to the nearer end outside.
pub open spec fn spec_axis_dist(v: int, lo: int, hi: int) -> int {
    if v < lo {
        lo - v
    } else if v > hi {
        v - hi
    } else {
        0
    }
}

/// Distance of a two-axis sample to a row: the sum of its axis distances.
pub open spec fn spec_row_dist(r: SoilRow, t: int, h: int) -> int {
    spec_axis_dist(t, r.t_min as int, r.t_max as int) + spec_axis_dist(
        h,
        r.h_min as int,
        r.h_max as int,
    )
}

/// Index of the nearest row: the first row at minimal distance.
pub open spec fn spec_best_idx(rows: Seq<SoilRow>, t: int, h: int) -> int
    decreases rows.len(),
{
    if rows.len() <= 1 {
        0
    } else {
        let b = spec_best_idx(rows.drop_last(), t, h);
        if spec_row_dist(rows.last(), t, h) < spec_row_dist(rows[b], t, h) {
            rows.len() - 1
        } else {
            b
        }
    }
}

/// The nearest row is a first minimum: no row is strictly nearer, and no
/// earlier row is as near.
pub proof fn lemma_best_idx(rows: Seq<SoilRow>, t: int, h: int)
    requires
        rows.len() > 0,
    ensures
        0 <= spec_best_idx(rows, t, h) < rows.len(),
        forall|j: int|
            0 <= j < rows.len() ==> spec_row_dist(rows[spec_best_idx(rows, t, h)], t, h)
                <= spec_row_dist(#[trigger] rows[j], t, h),
        forall|j: int|
            0 <= j < spec_best_idx(rows, t, h) ==> spec_row_dist(#[trigger] rows[j], t, h)
                > spec_row_dist(rows[spec_best_idx(rows, t, h)], t, h),
    decreases rows.len(),
{
    if rows.len() > 1 {
        let t0 = rows.drop_last();
        lemma_best_idx(t0, t, h);
        assert(forall|j: int| 0 <= j < t0.len() ==> t0[j] == rows[j]);
        let b = spec_best_idx(rows, t, h);
        let b0 = spec_best_idx(t0, t, h);
        if spec_row_dist(rows.last(), t, h) < spec_row_dist(t0[b0], t, h) {
            assert(b == rows.len() - 1);
            assert(forall|j: int|
                0 <= j < rows.len() - 1 ==> spec_row_dist(rows[b], t, h) <= spec_row_dist(
                    #[trigger] rows[j],
                    t,
                    h,
                ));
        }
    }
}

/// The classification table, loaded once at startup and then read-only, so
/// concurrent generation of distinct columns can share it.
#[derive(Clone, Debug)]
pub struct Soils {
    rows: Vec<SoilRow>,
}

impl View for Soils {
    type V = Seq<SoilRow>;

    closed spec fn view(&self) -> Seq<SoilRow> {
        self.rows@
    }
}

/// Distance of a sample value to an interval along one axis.
fn axis_dist(v: i32, lo: i32, hi: i32) -> (d: i32)
    requires
        -SOIL_LIMIT <= v <= SOIL_LIMIT,
        -SOIL_LIMIT <= lo <= hi <= SOIL_LIMIT,
    ensures
        d == spec_axis_dist(v as int, lo as int, hi as int),
{
    if v < lo {
        lo - v
    } else if v > hi {
        v - hi
    } else {
        0
    }
}

impl Soils {
    /// A usable table: at least one row, every row well formed.
    pub open spec fn wf(self) -> bool {
        &&& self@.len() > 0
        &&& forall|i: int| 0 <= i < self@.len() ==> row_wf(#[trigger] self@[i])
    }

    /// Builds the table from its rows. An empty table, or one holding a
    /// malformed row, is rejected — exactly then — with the fatal startup
    /// error.
    pub fn from_rows(rows: Vec<SoilRow>) -> (r: Result<Soils, GenerationDataError>)
        ensures
            r matches Ok(s) ==> s.wf() && s@ == rows@,
            r is Err <==> (rows@.len() == 0 || exists|i: int|
                0 <= i < rows@.len() && !row_wf(#[trigger] rows@[i])),
    {
        if rows.len() == 0 {
            return Err(GenerationDataError {});
        }
        let mut i: usize = 0;
        while i < rows.len()
            invariant
                i <= rows@.len(),
                forall|k: int| 0 <= k < i ==> row_wf(#[trigger] rows@[k]),
            decreases rows@.len() - i,
        {
            let r = rows[i];
            if !(-SOIL_LIMIT <= r.t_min && r.t_min <= r.t_max && r.t_max <= SOIL_LIMIT
                && -SOIL_LIMIT <= r.h_min && r.h_min <= r.h_max && r.h_max <= SOIL_LIMIT) {
                return Err(GenerationDataError {});
            }
            i = i + 1;
        }
        Ok(Soils { rows })
    }

    /// The nearest row's block for a two-axis sample, with its distance:
    /// the first row at minimal distance decides.
    pub fn closest(&self, t: i32, h: i32) -> (r: (Block, i32))
        requires
            self.wf(),
            -SOIL_LIMIT <= t <= SOIL_LIMIT,
            -SOIL_LIMIT <= h <= SOIL_LIMIT,
        ensures
            r.0 == self@[spec_best_idx(self@, t as int, h as int)].block,
            r.1 == spec_row_dist(self@[spec_best_idx(self@, t as int, h as int)], t as int, h as int),
    {
        let r0 = self.rows[0];
        let mut best_i: usize = 0;
        let mut best_d: i32 = axis_dist(t, r0.t_min, r0.t_max) + axis_dist(h, r0.h_min, r0.h_max);
        let mut i: usize = 1;
        proof {
            assert(self@.subrange(0, 1).len() == 1);
            assert(self@.subrange(0, 1)[0] == self@[0]);
        }
        while i < self.rows.len()
            invariant
                self.wf(),
                1 <= i <= self@.len(),
                best_i < i,
                best_i == spec_best_idx(self@.subrange(0, i as int), t as int, h as int),
                best_d == spec_row_dist(self@[best_i as int], t as int, h as int),
                -SOIL_LIMIT <= t <= SOIL_LIMIT,
                -SOIL_LIMIT <= h <= SOIL_LIMIT,
            decreases self@.len() - i,
        {
            let r = self.rows[i];
            let d = axis_dist(t, r.t_min, r.t_max) + axis_dist(h, r.h_min, r.h_max);
            proof {
                let sub1 = self@.subrange(0, i + 1);
                assert(sub1.drop_last() =~= self@.subrange(0, i as int));
                assert(sub1.last() == self@[i as int]);
                assert(forall|k: int| 0 <= k < i ==> sub1[k] == self@.subrange(0, i as int)[k]);
            }
            if d < best_d {
                best_i = i;
                best_d = d;
            }
            i = i + 1;
        }
        proof {
            assert(self@.subrange(0, self@.len() as int) =~= self@);
        }
        (self.rows[best_i].block, best_d)
    }
}

/// A column with every slot still absent.
pub open spec fn empty_col() -> ColumnView {
    Seq::new(Y_CHUNKS as nat, |i: int| None)
}

/// Top fine height of the generated soil layer: the flat debug profile at
/// half the generation ceiling.
pub open spec fn gen_top() -> int {
    500 * (MAX_GEN_HEIGHT as int) / 1000
}

/// Per-mille terrain samples (surface level, and the two classification
/// axes) for a ground cell. This debug producer uses a flat profile: the
/// same sample everywhere, whatever the coordinates.
fn values(_x: i32, _z: i32) -> (r: (i32, i32, i32))
    ensures
        r == (500i32, 500i32, 500i32),
{
    (500, 500, 500)
}

/// The debug column after the first `n` ground cells (in row-major local
/// (dx, dz) order) got their vertical soil run written.
pub open spec fn spec_debug_fold(b: Block, n: int) -> ColumnView
    decreases n,
{
    if n <= 0 {
        empty_col()
    } else {
        spec_fill_span(
            spec_debug_fold(b, n - 1),
            (n - 1) / (CHUNK_S1 as int),
            (n - 1) % (CHUNK_S1 as int),
            gen_top() + 1 - GEN_DEPTH,
            gen_top(),
            b,
        )
    }
}

proof fn lemma_debug_fold_cell(b: Block, n: int, qx: int, qy: int, qz: int)
    requires
        0 <= n <= CHUNK_S1 * CHUNK_S1,
        0 <= qx < CHUNK_S1,
        0 <= qy < MAX_HEIGHT,
        0 <= qz < CHUNK_S1,
    ensures
        spec_debug_fold(b, n).len() == Y_CHUNKS,
        forall|i: int|
            0 <= i < Y_CHUNKS ==> (#[trigger] spec_debug_fold(b, n)[i] matches Some(s) ==> s.len()
                == CHUNK_VOL),
        col_cell(spec_debug_fold(b, n), qx, qy, qz) == (if qx * CHUNK_S1 + qz < n && gen_top() + 1
            - GEN_DEPTH <= qy <= gen_top() {
            b
        } else {
            Block::Air
        }),
    decreases n,
{
    vstd::arithmetic::div_mod::lemma_fundamental_div_mod(qy, CHUNK_S1 as int);
    if n <= 0 {
        assert(0 <= qy / (CHUNK_S1 as int) < Y_CHUNKS);
        assert(col_cell(empty_col(), qx, qy, qz) == Block::Air) by {
            assert(empty_col()[qy / (CHUNK_S1 as int)] is None);
            assert(0 <= (qx * CHUNK_S1 + qy % (CHUNK_S1 as int)) * CHUNK_S1 + qz < CHUNK_VOL);
        }
    } else {
        lemma_debug_fold_cell(b, n - 1, qx, qy, qz);
        let w = spec_debug_fold(b, n - 1);
        let dx = (n - 1) / (CHUNK_S1 as int);
        let dz = (n - 1) % (CHUNK_S1 as int);
        vstd::arithmetic::div_mod::lemma_fundamental_div_mod(n - 1, CHUNK_S1 as int);
        assert(0 <= dx < CHUNK_S1 && 0 <= dz < CHUNK_S1);
        assert(0 <= gen_top() + 1 - GEN_DEPTH && gen_top() < MAX_HEIGHT);
        lemma_fill_span_cell(w, dx, dz, gen_top() + 1 - GEN_DEPTH, gen_top(), b, qx, qy, qz);
        if qx * CHUNK_S1 + qz == n - 1 {
            vstd::arithmetic::div_mod::lemma_fundamental_div_mod_converse_div(
                n - 1,
                CHUNK_S1 as int,
                qx,
                qz,
            );
            vstd::arithmetic::div_mod::lemma_fundamental_div_mod_converse_mod(
                n - 1,
                CHUNK_S1 as int,
                qx,
                qz,
            );
            assert(qx == dx && qz == dz);
        }
        if qx == dx && qz == dz {
            assert(qx * CHUNK_S1 + qz == n - 1);
        }
    }
}

/// The debug generator's column, read pointwise: the soil layer — the
/// `GEN_DEPTH` cells ending at the surface height, at every ground
/// position — holds the block the classification table selected, and
/// every other cell of the column reads as air.
pub proof fn lemma_debug_gen_cell(b: Block, qx: int, qy: int, qz: int)
    requires
        0 <= qx < CHUNK_S1,
        0 <= qy < MAX_HEIGHT,
        0 <= qz < CHUNK_S1,
    ensures
        col_cell(spec_debug_fold(b, (CHUNK_S1 * CHUNK_S1) as int), qx, qy, qz) == (if gen_top() + 1
            - GEN_DEPTH <= qy <= gen_top() {
            b
        } else {
            Block::Air
        }),
{
    lemma_debug_fold_cell(b, (CHUNK_S1 * CHUNK_S1) as int, qx, qy, qz);
}

/// The debug generator: a seed, and the classification table shared
/// read-only across generation calls.
#[derive(Clone, Debug)]
pub struct DebugGen {
    /// World seed. The flat debug profile does not consult it, but it is
    /// part of the generator's static configuration.
    pub seed: u32,
    /// The classification table.
    pub soils: Soils,
}

impl DebugGen {
    /// Builds the generator; a missing or malformed classification table
    /// is a fatal startup error, exactly as `Soils::from_rows` reports it.
    pub fn new(seed: u32, rows: Vec<SoilRow>) -> (r: Result<DebugGen, GenerationDataError>)
        ensures
            r matches Ok(g) ==> g.inv() && g.soils@ == rows@ && g.seed == seed,
            r is Err <==> (rows@.len() == 0 || exists|i: int|
                0 <= i < rows@.len() && !row_wf(#[trigger] rows@[i])),
    {
        match Soils::from_rows(rows) {
            Ok(soils) => Ok(DebugGen { seed, soils }),
            Err(e) => Err(e),
        }
    }
}

impl Generator for DebugGen {
    open spec fn inv(&self) -> bool {
        self.soils.wf()
    }

    open spec fn spec_gen(&self, col: ColPos) -> ColumnView {
        spec_debug_fold(
            self.soils@[spec_best_idx(self.soils@, 500, 500)].block,
            (CHUNK_S1 * CHUNK_S1) as int,
        )
    }

    fn gen(&self, col: ColPos) -> (r: Column) {
        let (y_norm, t, h) = values(col.x, col.z);
        let top: i32 = (((y_norm as u32) * (MAX_GEN_HEIGHT as u32)) / 1000) as i32;
        let mut data = Column::new();
        proof {
            assert(data@ =~= empty_col());
            assert(top == gen_top());
        }
        proof {
            lemma_best_idx(self.soils@, 500, 500);
        }
        let ghost bspec = self.soils@[spec_best_idx(self.soils@, 500, 500)].block;
        let mut n: usize = 0;
        while n < CHUNK_S1 * CHUNK_S1
            invariant
                self.inv(),
                n <= CHUNK_S1 * CHUNK_S1,
                data.wf(),
                data@ == spec_debug_fold(bspec, n as int),
                bspec == self.soils@[spec_best_idx(self.soils@, 500, 500)].block,
                top == gen_top(),
                t == 500 && h == 500,
            decreases CHUNK_S1 * CHUNK_S1 - n,
        {
            let dx = n / CHUNK_S1;
            let dz = n % CHUNK_S1;
            proof {
                vstd::arithmetic::div_mod::lemma_fundamental_div_mod(n as int, CHUNK_S1 as int);
            }
            let (bk, _d) = self.soils.closest(t, h);
            proof {
                assert(bk == bspec);
                assert(0 <= top < MAX_HEIGHT);
                assert(GEN_DEPTH <= top + 1);
            }
            let ghost before = data@;
            let res = data.set_yrange((dx, dz), top, GEN_DEPTH, bk);
            proof {
                assert(res is Ok);
                assert(data@ == spec_fill_span(
                    before,
                    dx as int,
                    dz as int,
                    top + 1 - GEN_DEPTH,
                    top as int,
                    bk,
                ));
                assert(dx as int == (n as int) / (CHUNK_S1 as int));
                assert(dz as int == (n as int) % (CHUNK_S1 as int));
                assert(data@ == spec_debug_fold(bspec, n + 1));
            }
            n = n + 1;
        }
        data
    }
}

} // verus!
