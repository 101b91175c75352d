//! Positions at a configurable granularity, Chebyshev distance, a
//! deterministic position-seeded mixer, and the floor-division conversions
//! between fine (block) coordinates and (chunk, local offset) pairs.

use vstd::prelude::*;
use vstd::arithmetic::div_mod::{
    lemma_fundamental_div_mod, lemma_fundamental_div_mod_converse_div,
    lemma_fundamental_div_mod_converse_mod,
};

verus! {

/// Edge length of a cubic chunk, in fine block units.
pub const CHUNK_S1: usize = 16;

/// Number of vertical chunk slots in a column.
pub const Y_CHUNKS: usize = 8;

/// World height in fine block units: the vertical extent a column covers.
pub const MAX_HEIGHT: usize = CHUNK_S1 * Y_CHUNKS;

/// Tag of an independent world instance. Positions carry their realm, so
/// positions of different realms are never equal.
#[derive(Clone, Copy, PartialEq, Eq, Structural, Hash, Debug)]
pub enum Realm {
    Overworld,
    Aether,
}

/// An integer position (x, y, z) in some realm, at granularity `U`
/// (`U = 1` addresses fine blocks, `U = CHUNK_S1` addresses chunks).
#[derive(Clone, Copy, Hash, Debug)]
pub struct Pos3d<const U: usize> {
    pub x: i32,
    pub y: i32,
    pub z: i32,
    pub realm: Realm,
}

impl<const U: usize> PartialEq for Pos3d<U> {
    fn eq(&self, o: &Pos3d<U>) -> (r: bool) {
        self.x == o.x && self.y == o.y && self.z == o.z && self.realm == o.realm
    }
}

impl<const U: usize> Eq for Pos3d<U> {}

impl<const U: usize> vstd::std_specs::cmp::PartialEqSpecImpl for Pos3d<U> {
    open spec fn obeys_eq_spec() -> bool {
        true
    }

    open spec fn eq_spec(&self, o: &Pos3d<U>) -> bool {
        *self == *o
    }
}

impl Default for Realm {
    /// The realm a fresh position belongs to.
    fn default() -> (r: Realm)
        ensures
            r == Realm::Overworld,
    {
        Realm::Overworld
    }
}

impl<const U: usize> Default for Pos3d<U> {
    /// The origin of the default realm.
    fn default() -> (r: Pos3d<U>)
        ensures
            r == (Pos3d::<U> { x: 0, y: 0, z: 0, realm: Realm::Overworld }),
    {
        Pos3d { x: 0, y: 0, z: 0, realm: Realm::Overworld }
    }
}

/// Fine block position.
pub type BlocPos = Pos3d<1>;

/// Chunk position.
pub type ChunkPos = Pos3d<CHUNK_S1>;

/// Local offset of a cell inside one chunk, each component below `CHUNK_S1`.
pub type ChunkedPos = (usize, usize, usize);

/// Position of a column of chunks: chunk-granularity (x, z) plus realm.
#[derive(Clone, Copy, PartialEq, Eq, Structural, Hash, Debug)]
pub struct ColPos {
    pub x: i32,
    pub z: i32,
    pub realm: Realm,
}

/// Chunk coordinate of a fine coordinate: floor division by the chunk edge.
pub open spec fn chunk_of(x: int) -> int {
    x / (CHUNK_S1 as int)
}

/// Local offset of a fine coordinate inside its chunk: floor modulo.
pub open spec fn local_of(x: int) -> int {
    x % (CHUNK_S1 as int)
}

/// Fine coordinate addressed by a chunk coordinate and a local offset.
pub open spec fn unchunked_of(c: int, l: int) -> int {
    c * (CHUNK_S1 as int) + l
}

/// Round trip: splitting a fine coordinate into chunk and local parts and
/// recombining them yields the original coordinate, for every integer,
/// negative coordinates included.
pub proof fn lemma_round_trip(x: int)
    ensures
        unchunked_of(chunk_of(x), local_of(x)) == x,
        0 <= local_of(x) < CHUNK_S1,
{
    lemma_fundamental_div_mod(x, CHUNK_S1 as int);
}

/// Splits a fine coordinate into its chunk coordinate and local offset,
/// with floor-division semantics on negative coordinates.
pub fn chunked(x: i32) -> (r: (i32, usize))
    ensures
        r.0 == chunk_of(x as int),
        r.1 == local_of(x as int),
        unchunked_of(r.0 as int, r.1 as int) == x,
{
    if x >= 0 {
        let q: u32 = (x as u32) / (CHUNK_S1 as u32);
        let m: u32 = (x as u32) % (CHUNK_S1 as u32);
        proof {
            lemma_fundamental_div_mod(x as int, CHUNK_S1 as int);
        }
        (q as i32, m as usize)
    } else {
        let n: i32 = -(x + 1);
        let q: u32 = (n as u32) / (CHUNK_S1 as u32);
        let m: u32 = (n as u32) % (CHUNK_S1 as u32);
        proof {
            lemma_fundamental_div_mod(n as int, CHUNK_S1 as int);
            assert(x as int == (-1 - q) * (CHUNK_S1 as int) + (15 - m));
            lemma_fundamental_div_mod_converse_div(x as int, CHUNK_S1 as int, -1 - q, 15 - m);
            lemma_fundamental_div_mod_converse_mod(x as int, CHUNK_S1 as int, -1 - q, 15 - m);
        }
        (-1 - (q as i32), (15 - m) as usize)
    }
}

/// Recombines a chunk coordinate and a local offset into the fine
/// coordinate they address.
pub fn unchunked(c: i32, l: usize) -> (r: i32)
    requires
        l < CHUNK_S1,
        i32::MIN <= unchunked_of(c as int, l as int) <= i32::MAX,
    ensures
        r == unchunked_of(c as int, l as int),
{
    c * (CHUNK_S1 as i32) + (l as i32)
}

/// Absolute difference of two integers.
pub open spec fn abs_diff(a: int, b: int) -> int {
    if a >= b {
        a - b
    } else {
        b - a
    }
}

/// Chebyshev distance: the maximum of the per-axis absolute differences.
pub open spec fn spec_dist<const U: usize>(a: Pos3d<U>, b: Pos3d<U>) -> int {
    vstd::math::max(
        abs_diff(a.x as int, b.x as int),
        vstd::math::max(abs_diff(a.y as int, b.y as int), abs_diff(a.z as int, b.z as int)),
    )
}

/// Metric laws of the Chebyshev distance: a point is at distance zero from
/// itself, the distance is symmetric, and it satisfies the triangle
/// inequality.
pub proof fn lemma_dist_metric<const U: usize>(a: Pos3d<U>, b: Pos3d<U>, c: Pos3d<U>)
    ensures
        spec_dist(a, a) == 0,
        spec_dist(a, b) == spec_dist(b, a),
        spec_dist(a, c) <= spec_dist(a, b) + spec_dist(b, c),
{
}

/// Multiplier of the rotate-xor-multiply mixing rounds.
pub const PRNG_K: u64 = 0x517cc1b727220a95;

/// One 5-bit left rotation of a 64-bit word.
pub open spec fn rot5(v: u64) -> u64 {
    (v << 5) | (v >> 59)
}

/// One mixing step: rotate the accumulator, fold a coordinate in by xor,
/// then multiply (wrapping) by the odd constant.
pub open spec fn mix_step(acc: u64, c: u64) -> u64 {
    (rot5(acc) ^ c).wrapping_mul(PRNG_K)
}

/// One round of mixing a position into an accumulator: one step per axis.
pub open spec fn spec_prng_once<const U: usize>(p: Pos3d<U>, seed: u64) -> u64 {
    mix_step(mix_step(mix_step(seed, p.x as u64), p.y as u64), p.z as u64)
}

/// The position-seeded value: two rounds of rotate-xor-multiply mixing over
/// x, y and z chained with the seed. A pure function of position and seed,
/// so repeated derivations with identical inputs agree across runs.
pub open spec fn spec_prng<const U: usize>(p: Pos3d<U>, seed: i32) -> u64 {
    spec_prng_once(p, spec_prng_once(p, seed as u64))
}

/// Determinism of the position-seeded derivation: the value is a pure
/// function of the coordinate triple and the seed alone — it does not
/// depend on the realm, the granularity tag, or anything outside the
/// inputs — so repeated derivations with identical inputs agree, across
/// calls and across runs.
pub proof fn lemma_prng_deterministic<const U1: usize, const U2: usize>(
    p: Pos3d<U1>,
    q: Pos3d<U2>,
    seed: i32,
)
    requires
        p.x == q.x,
        p.y == q.y,
        p.z == q.z,
    ensures
        spec_prng(p, seed) == spec_prng(q, seed),
{
}

impl<const U: usize> Pos3d<U> {
    /// Chebyshev distance to another position of the same granularity.
    pub fn dist(&self, other: Pos3d<U>) -> (r: i32)
        requires
            abs_diff(self.x as int, other.x as int) <= i32::MAX,
            abs_diff(self.y as int, other.y as int) <= i32::MAX,
            abs_diff(self.z as int, other.z as int) <= i32::MAX,
        ensures
            r == spec_dist(*self, other),
    {
        let dx: i32 = if self.x >= other.x {
            self.x - other.x
        } else {
            other.x - self.x
        };
        let dy: i32 = if self.y >= other.y {
            self.y - other.y
        } else {
            other.y - self.y
        };
        let dz: i32 = if self.z >= other.z {
            self.z - other.z
        } else {
            other.z - self.z
        };
        let m: i32 = if dy >= dz {
            dy
        } else {
            dz
        };
        if dx >= m {
            dx
        } else {
            m
        }
    }

    /// One round of the position-seeded mixer.
    fn _prng(&self, seed: u64) -> (r: u64)
        ensures
            r == spec_prng_once(*self, seed),
    {
        let a: u64 = ((seed << 5) | (seed >> 59)) ^ (#[verifier::truncate] (self.x as u64));
        let a: u64 = a.wrapping_mul(PRNG_K);
        let b: u64 = ((a << 5) | (a >> 59)) ^ (#[verifier::truncate] (self.y as u64));
        let b: u64 = b.wrapping_mul(PRNG_K);
        let c: u64 = ((b << 5) | (b >> 59)) ^ (#[verifier::truncate] (self.z as u64));
        c.wrapping_mul(PRNG_K)
    }

    /// Deterministic position-seeded value: two mixing rounds chained with
    /// the seed. The result is pinned to `spec_prng`, so repeated calls with
    /// identical position and seed return the same value.
    pub fn prng(&self, seed: i32) -> (r: u64)
        ensures
            r == spec_prng(*self, seed),
    {
        let n = self._prng(#[verifier::truncate] (seed as u64));
        self._prng(n)
    }

    /// Offsets the position by an integer triple, staying in the same realm.
    pub fn offset(self, d: (i32, i32, i32)) -> (r: Pos3d<U>)
        requires
            i32::MIN <= self.x + d.0 <= i32::MAX,
            i32::MIN <= self.y + d.1 <= i32::MAX,
            i32::MIN <= self.z + d.2 <= i32::MAX,
        ensures
            r.x == self.x + d.0,
            r.y == self.y + d.1,
            r.z == self.z + d.2,
            r.realm == self.realm,
    {
        Pos3d { x: self.x + d.0, y: self.y + d.1, z: self.z + d.2, realm: self.realm }
    }
}

/// Chunk position and local offset addressing the same cell as a fine
/// position, by floor division on each axis.
pub open spec fn spec_to_chunked(p: BlocPos) -> (ChunkPos, ChunkedPos) {
    (
        Pos3d { x: chunk_of(p.x as int) as i32, y: chunk_of(p.y as int) as i32, z: chunk_of(
            p.z as int,
        ) as i32, realm: p.realm },
        (
            local_of(p.x as int) as usize,
            local_of(p.y as int) as usize,
            local_of(p.z as int) as usize,
        ),
    )
}

/// Fine position addressed by a chunk position and a local offset.
pub open spec fn spec_from_chunked(c: ChunkPos, l: ChunkedPos) -> BlocPos {
    Pos3d {
        x: unchunked_of(c.x as int, l.0 as int) as i32,
        y: unchunked_of(c.y as int, l.1 as int) as i32,
        z: unchunked_of(c.z as int, l.2 as int) as i32,
        realm: c.realm,
    }
}

/// Column owning a chunk position: its (x, z) and realm.
pub open spec fn spec_col_of_chunk(c: ChunkPos) -> ColPos {
    ColPos { x: c.x, z: c.z, realm: c.realm }
}

impl BlocPos {
    /// Splits a fine position into the owning chunk position and the local
    /// offset of its cell, with floor-division semantics.
    pub fn to_chunked(self) -> (r: (ChunkPos, ChunkedPos))
        ensures
            r == spec_to_chunked(self),
            r.1.0 < CHUNK_S1 && r.1.1 < CHUNK_S1 && r.1.2 < CHUNK_S1,
            spec_from_chunked(r.0, r.1) == self,
    {
        let (cx, dx) = chunked(self.x);
        let (cy, dy) = chunked(self.y);
        let (cz, dz) = chunked(self.z);
        (Pos3d { x: cx, y: cy, z: cz, realm: self.realm }, (dx, dy, dz))
    }

    /// Chunk position owning a fine position, by floor division.
    pub fn to_chunk_pos(self) -> (r: ChunkPos)
        ensures
            r == spec_to_chunked(self).0,
    {
        let (c, _) = self.to_chunked();
        c
    }

    /// Column owning a fine position.
    pub fn to_col_pos(self) -> (r: ColPos)
        ensures
            r == spec_col_of_chunk(spec_to_chunked(self).0),
    {
        let (cx, _) = chunked(self.x);
        let (cz, _) = chunked(self.z);
        ColPos { x: cx, z: cz, realm: self.realm }
    }
}

impl ChunkPos {
    /// Fine position of the cell at a local offset of this chunk.
    pub fn to_bloc_pos(self, l: ChunkedPos) -> (r: BlocPos)
        requires
            l.0 < CHUNK_S1 && l.1 < CHUNK_S1 && l.2 < CHUNK_S1,
            i32::MIN <= unchunked_of(self.x as int, l.0 as int) <= i32::MAX,
            i32::MIN <= unchunked_of(self.y as int, l.1 as int) <= i32::MAX,
            i32::MIN <= unchunked_of(self.z as int, l.2 as int) <= i32::MAX,
        ensures
            r == spec_from_chunked(self, l),
    {
        Pos3d {
            x: unchunked(self.x, l.0),
            y: unchunked(self.y, l.1),
            z: unchunked(self.z, l.2),
            realm: self.realm,
        }
    }

    /// Column owning this chunk.
    pub fn to_col_pos(self) -> (r: ColPos)
        ensures
            r == spec_col_of_chunk(self),
    {
        ColPos { x: self.x, z: self.z, realm: self.realm }
    }
}

/// Chebyshev distance of two columns in the horizontal plane.
pub open spec fn spec_col_dist(a: ColPos, b: ColPos) -> int {
    vstd::math::max(abs_diff(a.x as int, b.x as int), abs_diff(a.z as int, b.z as int))
}

impl ColPos {
    /// Chebyshev distance to another column, over x and z.
    pub fn dist(&self, other: ColPos) -> (r: i32)
        requires
            abs_diff(self.x as int, other.x as int) <= i32::MAX,
            abs_diff(self.z as int, other.z as int) <= i32::MAX,
        ensures
            r == spec_col_dist(*self, other),
    {
        let dx: i32 = if self.x >= other.x {
            self.x - other.x
        } else {
            other.x - self.x
        };
        let dz: i32 = if self.z >= other.z {
            self.z - other.z
        } else {
            other.z - self.z
        };
        if dx >= dz {
            dx
        } else {
            dz
        }
    }
}

} // verus!
