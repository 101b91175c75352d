//! The load/unload orchestrator: tracks viewer interest, decides which
//! columns should be resident, emits load instructions one column per step
//! (backlog preserved) and one unload event per departing column. Its
//! interest test also gates the change queue's delivery.

use vstd::prelude::*;
use crate::pos::{spec_col_dist, ColPos};

verus! {

/// No two entries are the same column.
pub open spec fn col_seq_distinct(s: Seq<ColPos>) -> bool {
    forall|i: int, j: int| 0 <= i < j < s.len() ==> s[i] != s[j]
}

/// Membership after appending one column.
proof fn lemma_push_contains(s: Seq<ColPos>, e: ColPos)
    ensures
        forall|c: ColPos| #[trigger] s.push(e).contains(c) <==> (s.contains(c) || c == e),
{
    assert forall|c: ColPos| #[trigger] s.push(e).contains(c) implies (s.contains(c) || c == e) by {
        let k = choose|k: int| 0 <= k < s.push(e).len() && s.push(e)[k] == c;
        if k < s.len() {
            assert(s[k] == c);
        }
    }
    assert forall|c: ColPos| (s.contains(c) || c == e) implies #[trigger] s.push(e).contains(c) by {
        if c == e {
            assert(s.push(e)[s.len() as int] == c);
        } else {
            let k = choose|k: int| 0 <= k < s.len() && s[k] == c;
            assert(s.push(e)[k] == c);
        }
    }
}

/// Appending a fresh column keeps the entries distinct.
proof fn lemma_push_distinct(s: Seq<ColPos>, e: ColPos)
    requires
        col_seq_distinct(s),
        !s.contains(e),
    ensures
        col_seq_distinct(s.push(e)),
{
    assert forall|i: int, j: int| 0 <= i < j < s.push(e).len() implies s.push(e)[i] != s.push(e)[j] by {
        if j == s.len() {
            if s[i] == e {
                assert(s.contains(e));
            }
        }
    }
}

/// Whether a list of columns holds one column.
fn col_vec_contains(v: &Vec<ColPos>, c: ColPos) -> (r: bool)
    ensures
        r == v@.contains(c),
{
    let mut i: usize = 0;
    while i < v.len()
        invariant
            i <= v@.len(),
            forall|k: int| 0 <= k < i ==> v@[k] != c,
        decreases v@.len() - i,
    {
        if v[i] == c {
            proof {
                assert(v@[i as int] == c);
            }
            return true;
        }
        i = i + 1;
    }
    false
}

/// A column inside the square of the given radius around a viewer, in the
/// viewer's realm: exactly the columns at Chebyshev distance at most
/// `radius`.
pub open spec fn spec_in_zone(v: ColPos, radius: int, c: ColPos) -> bool {
    &&& c.realm == v.realm
    &&& -radius <= c.x - v.x <= radius
    &&& -radius <= c.z - v.z <= radius
}

/// Every column within `radius` of one viewer, each exactly once.
fn interest_zone(v: ColPos, radius: i32) -> (r: Vec<ColPos>)
    requires
        0 <= radius < i32::MAX,
        -(i32::MAX - radius) <= v.x <= i32::MAX - radius,
        -(i32::MAX - radius) <= v.z <= i32::MAX - radius,
    ensures
        forall|c: ColPos| #[trigger] r@.contains(c) <==> spec_in_zone(v, radius as int, c),
        col_seq_distinct(r@),
{
    let mut acc: Vec<ColPos> = Vec::new();
    let mut dx: i32 = -radius;
    while dx <= radius
        invariant
            0 <= radius < i32::MAX,
            -(i32::MAX - radius) <= v.x <= i32::MAX - radius,
            -(i32::MAX - radius) <= v.z <= i32::MAX - radius,
            -radius <= dx <= radius + 1,
            forall|c: ColPos| #[trigger] acc@.contains(c) <==> (spec_in_zone(v, radius as int, c)
                && c.x - v.x < dx),
            col_seq_distinct(acc@),
        decreases radius + 1 - dx,
    {
        let mut dz: i32 = -radius;
        while dz <= radius
            invariant
                0 <= radius < i32::MAX,
                -(i32::MAX - radius) <= v.x <= i32::MAX - radius,
                -(i32::MAX - radius) <= v.z <= i32::MAX - radius,
                -radius <= dx <= radius,
                -radius <= dz <= radius + 1,
                forall|c: ColPos| #[trigger] acc@.contains(c) <==> (spec_in_zone(
                    v,
                    radius as int,
                    c,
                ) && (c.x - v.x < dx || (c.x - v.x == dx && c.z - v.z < dz))),
                col_seq_distinct(acc@),
            decreases radius + 1 - dz,
        {
            let c = ColPos { x: v.x + dx, z: v.z + dz, realm: v.realm };
            let ghost a0 = acc@;
            acc.push(c);
            proof {
                lemma_push_contains(a0, c);
                assert(!a0.contains(c));
                assert forall|d: ColPos| #[trigger] acc@.contains(d) implies (spec_in_zone(
                    v,
                    radius as int,
                    d,
                ) && (d.x - v.x < dx || (d.x - v.x == dx && d.z - v.z < dz + 1))) by {}
                assert forall|d: ColPos|
                    (spec_in_zone(v, radius as int, d) && (d.x - v.x < dx || (d.x - v.x == dx
                        && d.z - v.z < dz + 1))) implies #[trigger] acc@.contains(d) by {
                    if d.x - v.x == dx && d.z - v.z == dz {
                        assert(d == c);
                    }
                }
            }
            dz = dz + 1;
        }
        dx = dx + 1;
    }
    acc
}

/// Viewer interest and residency bookkeeping: which columns should be
/// resident, which already are, and the ordered backlog of columns still
/// to load.
pub struct LoadedCols {
    /// Active viewer positions, in column coordinates.
    pub viewers: Vec<ColPos>,
    /// Interest radius around each viewer, in columns.
    pub radius: i32,
    /// Columns already resident.
    pub loaded: Vec<ColPos>,
    /// Ordered backlog of columns awaiting their load instruction.
    pub to_load: Vec<ColPos>,
}

impl LoadedCols {
    /// Distinct residency lists, disjoint from each other.
    pub open spec fn wf(self) -> bool {
        &&& col_seq_distinct(self.loaded@)
        &&& col_seq_distinct(self.to_load@)
        &&& forall|c: ColPos| !(#[trigger] self.loaded@.contains(c) && self.to_load@.contains(c))
        &&& self.radius >= 0
    }

    /// The columns already resident.
    pub open spec fn spec_loaded(self) -> Seq<ColPos> {
        self.loaded@
    }

    /// The ordered backlog of columns awaiting their load instruction.
    pub open spec fn spec_to_load(self) -> Seq<ColPos> {
        self.to_load@
    }

    /// A column some active viewer is near enough to care about: same
    /// realm — positions of different realms are never comparable — and
    /// within the interest radius in Chebyshev distance.
    pub open spec fn spec_interest(self, c: ColPos) -> bool {
        exists|i: int|
            0 <= i < self.viewers@.len() && (#[trigger] self.viewers@[i]).realm == c.realm
                && spec_col_dist(self.viewers@[i], c) <= self.radius
    }

    /// No viewers, nothing resident, nothing queued.
    pub fn new() -> (r: LoadedCols)
        ensures
            r.wf(),
            r.spec_loaded().len() == 0,
            r.spec_to_load().len() == 0,
            forall|c: ColPos| !r.spec_interest(c),
    {
        LoadedCols { viewers: Vec::new(), radius: 0, loaded: Vec::new(), to_load: Vec::new() }
    }

    /// Whether a column lies within the interest radius of at least one
    /// active viewer. This is the change queue's delivery gate.
    pub fn has_interest(&self, c: ColPos) -> (r: bool)
        ensures
            r == self.spec_interest(c),
    {
        let n = self.viewers.len();
        let mut i: usize = 0;
        while i < n
            invariant
                n == self.viewers@.len(),
                i <= n,
                forall|k: int|
                    0 <= k < i ==> !((#[trigger] self.viewers@[k]).realm == c.realm
                        && spec_col_dist(self.viewers@[k], c) <= self.radius),
            decreases n - i,
        {
            let v = self.viewers[i];
            let ax: i64 = if v.x >= c.x {
                (v.x as i64) - (c.x as i64)
            } else {
                (c.x as i64) - (v.x as i64)
            };
            let az: i64 = if v.z >= c.z {
                (v.z as i64) - (c.z as i64)
            } else {
                (c.z as i64) - (v.z as i64)
            };
            let m: i64 = if ax >= az {
                ax
            } else {
                az
            };
            if v.realm == c.realm && m <= self.radius as i64 {
                proof {
                    assert(self.viewers@[i as int].realm == c.realm);
                    assert(spec_col_dist(self.viewers@[i as int], c) <= self.radius);
                }
                return true;
            }
            i = i + 1;
        }
        false
    }

    /// One load instruction per step: hands out the oldest queued column
    /// and marks it resident; the rest of the backlog is preserved in
    /// order.
    pub fn next_load(&mut self) -> (r: Option<ColPos>)
        requires
            old(self).wf(),
        ensures
            final(self).wf(),
            r is None <==> old(self).spec_to_load().len() == 0,
            r is None ==> *final(self) == *old(self),
            r matches Some(c) ==> c == old(self).spec_to_load()[0] && final(self).spec_to_load()
                == old(self).spec_to_load().subrange(1, old(self).spec_to_load().len() as int)
                && final(self).spec_loaded() == old(self).spec_loaded().push(c)
                && final(self).viewers@ == old(self).viewers@
                && final(self).radius == old(self).radius,
    {
        if self.to_load.len() == 0 {
            return None;
        }
        let c = self.to_load.remove(0);
        proof {
            assert(old(self).to_load@.contains(c)) by {
                assert(old(self).to_load@[0] == c);
            }
            assert(!old(self).loaded@.contains(c));
        }
        let ghost l0 = self.loaded@;
        self.loaded.push(c);
        proof {
            lemma_push_contains(l0, c);
            assert forall|d: ColPos| #[trigger] self.to_load@.contains(d) implies old(self).to_load@.contains(d) by {
                let k = choose|k: int| 0 <= k < self.to_load@.len() && self.to_load@[k] == d;
                assert(old(self).to_load@[k + 1] == d);
            }
        }
        Some(c)
    }
}


impl LoadedCols {
    /// Reconciles residency with a new viewer set: stores viewers and
    /// radius, emits one unload event per resident column that left the
    /// interest set, drops queued columns that left it (so no generation is
    /// started for a column outside the target set), and queues every
    /// column of the new interest set that is neither resident nor already
    /// queued. The surviving backlog keeps its order. Afterwards the queue
    /// holds exactly the columns of interest that are not resident.
    pub fn update_viewers(&mut self, viewers: Vec<ColPos>, radius: i32) -> (unloads: Vec<ColPos>)
        requires
            old(self).wf(),
            0 <= radius < i32::MAX,
            forall|k: int|
                0 <= k < viewers@.len() ==> -(i32::MAX - radius) <= (#[trigger] viewers@[k]).x
                    <= i32::MAX - radius && -(i32::MAX - radius) <= viewers@[k].z <= i32::MAX
                    - radius,
        ensures
            final(self).wf(),
            final(self).viewers@ == viewers@,
            final(self).radius == radius,
            forall|c: ColPos| #[trigger]
                unloads@.contains(c) <==> (old(self).spec_loaded().contains(c)
                    && !final(self).spec_interest(c)),
            forall|c: ColPos| #[trigger]
                final(self).spec_loaded().contains(c) <==> (old(self).spec_loaded().contains(c)
                    && final(self).spec_interest(c)),
            forall|c: ColPos| #[trigger]
                final(self).spec_to_load().contains(c) <==> (final(self).spec_interest(c)
                    && !final(self).spec_loaded().contains(c)),
    {
        self.viewers = viewers;
        self.radius = radius;
        let mut kept: Vec<ColPos> = Vec::new();
        let mut unloads: Vec<ColPos> = Vec::new();
        let n = self.loaded.len();
        let mut i: usize = 0;
        while i < n
            invariant
                old(self).wf(),
                n == self.loaded@.len(),
                i <= n,
                self.loaded@ == old(self).loaded@,
                self.to_load@ == old(self).to_load@,
                self.viewers@ == viewers@,
                self.radius == radius,
                forall|c: ColPos| #[trigger]
                    kept@.contains(c) <==> (old(self).loaded@.subrange(0, i as int).contains(c)
                        && self.spec_interest(c)),
                forall|c: ColPos| #[trigger]
                    unloads@.contains(c) <==> (old(self).loaded@.subrange(0, i as int).contains(c)
                        && !self.spec_interest(c)),
                col_seq_distinct(kept@),
                col_seq_distinct(unloads@),
            decreases n - i,
        {
            let c = self.loaded[i];
            let ghost sub = old(self).loaded@.subrange(0, i as int);
            proof {
                assert(!sub.contains(c)) by {
                    if sub.contains(c) {
                        let k = choose|k: int| 0 <= k < sub.len() && sub[k] == c;
                        assert(old(self).loaded@[k] == old(self).loaded@[i as int]);
                    }
                }
                assert(old(self).loaded@.subrange(0, i + 1) =~= sub.push(c));
                lemma_push_contains(sub, c);
            }
            if self.has_interest(c) {
                let ghost k0 = kept@;
                kept.push(c);
                proof {
                    lemma_push_contains(k0, c);
                    lemma_push_distinct(k0, c);
                }
            } else {
                let ghost u0 = unloads@;
                unloads.push(c);
                proof {
                    lemma_push_contains(u0, c);
                    lemma_push_distinct(u0, c);
                }
            }
            i = i + 1;
        }
        proof {
            assert(old(self).loaded@.subrange(0, n as int) =~= old(self).loaded@);
        }
        self.loaded = kept;
        let mut queue: Vec<ColPos> = Vec::new();
        let m = self.to_load.len();
        let mut j: usize = 0;
        while j < m
            invariant
                old(self).wf(),
                m == self.to_load@.len(),
                j <= m,
                self.to_load@ == old(self).to_load@,
                self.viewers@ == viewers@,
                self.radius == radius,
                forall|c: ColPos| #[trigger]
                    self.loaded@.contains(c) <==> (old(self).loaded@.contains(c)
                        && self.spec_interest(c)),
                col_seq_distinct(self.loaded@),
                forall|c: ColPos| #[trigger]
                    queue@.contains(c) <==> (old(self).to_load@.subrange(0, j as int).contains(c)
                        && self.spec_interest(c)),
                col_seq_distinct(queue@),
            decreases m - j,
        {
            let c = self.to_load[j];
            let ghost sub = old(self).to_load@.subrange(0, j as int);
            proof {
                assert(!sub.contains(c)) by {
                    if sub.contains(c) {
                        let k = choose|k: int| 0 <= k < sub.len() && sub[k] == c;
                        assert(old(self).to_load@[k] == old(self).to_load@[j as int]);
                    }
                }
                assert(old(self).to_load@.subrange(0, j + 1) =~= sub.push(c));
                lemma_push_contains(sub, c);
            }
            if self.has_interest(c) {
                let ghost q0 = queue@;
                queue.push(c);
                proof {
                    lemma_push_contains(q0, c);
                    lemma_push_distinct(q0, c);
                }
            }
            j = j + 1;
        }
        proof {
            assert(old(self).to_load@.subrange(0, m as int) =~= old(self).to_load@);
        }
        let nv = self.viewers.len();
        let mut vi: usize = 0;
        while vi < nv
            invariant
                old(self).wf(),
                nv == self.viewers@.len(),
                vi <= nv,
                self.viewers@ == viewers@,
                self.radius == radius,
                0 <= radius < i32::MAX,
                forall|k: int|
                    0 <= k < viewers@.len() ==> -(i32::MAX - radius) <= (#[trigger] viewers@[k]).x
                        <= i32::MAX - radius && -(i32::MAX - radius) <= viewers@[k].z <= i32::MAX
                        - radius,
                forall|c: ColPos| #[trigger]
                    self.loaded@.contains(c) <==> (old(self).loaded@.contains(c)
                        && self.spec_interest(c)),
                col_seq_distinct(self.loaded@),
                col_seq_distinct(queue@),
                forall|c: ColPos| #[trigger]
                    queue@.contains(c) ==> self.spec_interest(c) && !self.loaded@.contains(c),
                forall|w: int, c: ColPos|
                    0 <= w < vi && #[trigger] spec_in_zone(self.viewers@[w], radius as int, c)
                        ==> self.loaded@.contains(c) || queue@.contains(c),
                forall|c: ColPos|
                    (old(self).to_load@.contains(c) && self.spec_interest(c)) ==> #[trigger]
                        queue@.contains(c),
            decreases nv - vi,
        {
            let v = self.viewers[vi];
            let zone = interest_zone(v, radius);
            let nz = zone.len();
            let mut zi: usize = 0;
            while zi < nz
                invariant
                    old(self).wf(),
                    nz == zone@.len(),
                    zi <= nz,
                    vi < self.viewers@.len(),
                    v == self.viewers@[vi as int],
                    self.viewers@ == viewers@,
                    self.radius == radius,
                    0 <= radius < i32::MAX,
                    forall|c: ColPos| #[trigger]
                        zone@.contains(c) <==> spec_in_zone(v, radius as int, c),
                    forall|c: ColPos| #[trigger]
                        self.loaded@.contains(c) <==> (old(self).loaded@.contains(c)
                            && self.spec_interest(c)),
                    col_seq_distinct(self.loaded@),
                    col_seq_distinct(queue@),
                    forall|c: ColPos| #[trigger]
                        queue@.contains(c) ==> self.spec_interest(c) && !self.loaded@.contains(c),
                    forall|k: int|
                        0 <= k < zi ==> self.loaded@.contains(#[trigger] zone@[k])
                            || queue@.contains(zone@[k]),
                    forall|w: int, c: ColPos|
                        0 <= w < vi && #[trigger] spec_in_zone(self.viewers@[w], radius as int, c)
                            ==> self.loaded@.contains(c) || queue@.contains(c),
                    forall|c: ColPos|
                        (old(self).to_load@.contains(c) && self.spec_interest(c)) ==> #[trigger]
                            queue@.contains(c),
                decreases nz - zi,
            {
                let c = zone[zi];
                proof {
                    assert(zone@[zi as int] == c);
                    assert(zone@.contains(c));
                    assert(spec_in_zone(v, radius as int, c));
                    assert(self.spec_interest(c)) by {
                        assert(self.viewers@[vi as int].realm == c.realm && spec_col_dist(
                            self.viewers@[vi as int],
                            c,
                        ) <= radius);
                    }
                }
                let in_loaded = col_vec_contains(&self.loaded, c);
                let in_queue = col_vec_contains(&queue, c);
                if !in_loaded && !in_queue {
                    let ghost q0 = queue@;
                    queue.push(c);
                    proof {
                        lemma_push_contains(q0, c);
                        lemma_push_distinct(q0, c);
                    }
                }
                zi = zi + 1;
            }
            proof {
                assert forall|c: ColPos|
                    spec_in_zone(self.viewers@[vi as int], radius as int, c) implies self.loaded@
                    .contains(c) || queue@.contains(c) by {
                    assert(zone@.contains(c));
                    let k = choose|k: int| 0 <= k < zone@.len() && zone@[k] == c;
                }
            }
            vi = vi + 1;
        }
        self.to_load = queue;
        proof {
            assert forall|c: ColPos|
                (final(self).spec_interest(c) && !final(self).spec_loaded().contains(c))
                    implies #[trigger] final(self).spec_to_load().contains(c) by {
                let w = choose|w: int|
                    0 <= w < self.viewers@.len() && (#[trigger] self.viewers@[w]).realm == c.realm
                        && spec_col_dist(self.viewers@[w], c) <= radius;
                assert(spec_in_zone(self.viewers@[w], radius as int, c));
            }
        }
        unloads
    }
}

} // verus!
