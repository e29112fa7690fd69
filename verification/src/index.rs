//! Per-zoom-level spatial index.
//!
//! An immutable, bulk-built index over the projected coordinates of one zoom
//! level's node set, answering circular ("within") and rectangular ("range")
//! queries. Results are the exact set of matching positions, in increasing
//! position order, which keeps query answers deterministic for a fixed
//! build. The representation is a flat coordinate table; the engine above
//! depends only on the query contracts, not on the layout.

use vstd::prelude::*;

verus! {

/// Does point `p` lie within distance `r` of `(x, y)`? Boundary points (at
/// exactly distance `r`) are inside.
pub open spec fn in_disc(p: (u64, u64), x: u64, y: u64, r: u64) -> bool {
    let dx = p.0 as int - x as int;
    let dy = p.1 as int - y as int;
    dx * dx + dy * dy <= (r as int) * (r as int)
}

/// Does point `p` lie in the closed axis-aligned rectangle?
pub open spec fn in_rect(p: (u64, u64), min_x: u64, min_y: u64, max_x: u64, max_y: u64) -> bool {
    min_x <= p.0 <= max_x && min_y <= p.1 <= max_y
}

/// The positions, in increasing order, of the first `n` points that lie
/// within distance `r` of `(x, y)`.
pub open spec fn within_upto(pts: Seq<(u64, u64)>, x: u64, y: u64, r: u64, n: int) -> Seq<usize>
    decreases n,
{
    if n <= 0 {
        Seq::empty()
    } else {
        let rest = within_upto(pts, x, y, r, n - 1);
        if in_disc(pts[n - 1], x, y, r) {
            rest.push((n - 1) as usize)
        } else {
            rest
        }
    }
}

/// The positions, in increasing order, of the first `n` points inside the
/// closed rectangle.
pub open spec fn range_upto(
    pts: Seq<(u64, u64)>,
    min_x: u64,
    min_y: u64,
    max_x: u64,
    max_y: u64,
    n: int,
) -> Seq<usize>
    decreases n,
{
    if n <= 0 {
        Seq::empty()
    } else {
        let rest = range_upto(pts, min_x, min_y, max_x, max_y, n - 1);
        if in_rect(pts[n - 1], min_x, min_y, max_x, max_y) {
            rest.push((n - 1) as usize)
        } else {
            rest
        }
    }
}

/// A spatial index over one zoom level's projected points.
pub struct SpatialIndex {
    pts: Vec<(u64, u64)>,
}

impl View for SpatialIndex {
    type V = Seq<(u64, u64)>;

    closed spec fn view(&self) -> Seq<(u64, u64)> {
        self.pts@
    }
}

impl SpatialIndex {
    /// Bulk-builds the index over a point set.
    pub fn create(pts: Vec<(u64, u64)>) -> (s: SpatialIndex)
        ensures
            s@ == pts@,
    {
        SpatialIndex { pts }
    }

    /// The number of indexed points.
    pub fn len(&self) -> (n: usize)
        ensures
            n == self@.len(),
    {
        self.pts.len()
    }

    /// All positions whose point lies within distance `r` of `(x, y)`,
    /// in increasing order. Boundary points count as inside.
    pub fn within(&self, x: u64, y: u64, r: u64) -> (ids: Vec<usize>)
        requires
            forall|j: int|
                0 <= j < self@.len() ==> (#[trigger] self@[j]).0 <= 3600000000 && self@[j].1
                    <= 3600000000,
            x <= 3600000000,
            y <= 3600000000,
            r <= 1000000000000,
        ensures
            ids@ == within_upto(self@, x, y, r, self@.len() as int),
    {
        let mut ids: Vec<usize> = Vec::new();
        let mut i: usize = 0;
        let n = self.pts.len();
        while i < n
            invariant
                n == self@.len(),
                i <= n,
                ids@ == within_upto(self@, x, y, r, i as int),
                forall|j: int|
                    0 <= j < self@.len() ==> (#[trigger] self@[j]).0 <= 3600000000 && self@[j].1
                        <= 3600000000,
                x <= 3600000000,
                y <= 3600000000,
                r <= 1000000000000,
            decreases n - i,
        {
            let p = self.pts[i];
            let dx: i128 = p.0 as i128 - x as i128;
            let dy: i128 = p.1 as i128 - y as i128;
            let rr: i128 = r as i128;
            proof {
                assert(self@[i as int].0 <= 3600000000 && self@[i as int].1 <= 3600000000);
                assert(dx * dx <= 3600000000 * 3600000000) by (nonlinear_arith)
                    requires
                        -3600000000 <= dx <= 3600000000,
                ;
                assert(dy * dy <= 3600000000 * 3600000000) by (nonlinear_arith)
                    requires
                        -3600000000 <= dy <= 3600000000,
                ;
                assert(rr * rr <= 1000000000000i128 * 1000000000000) by (nonlinear_arith)
                    requires
                        0 <= rr <= 1000000000000,
                ;
                assert(dx * dx >= 0 && dy * dy >= 0) by (nonlinear_arith);
            }
            if dx * dx + dy * dy <= rr * rr {
                ids.push(i);
            }
            i = i + 1;
        }
        ids
    }

    /// All positions whose point lies in the closed rectangle, in
    /// increasing order.
    pub fn range(&self, min_x: u64, min_y: u64, max_x: u64, max_y: u64) -> (ids: Vec<usize>)
        ensures
            ids@ == range_upto(self@, min_x, min_y, max_x, max_y, self@.len() as int),
    {
        let mut ids: Vec<usize> = Vec::new();
        let mut i: usize = 0;
        let n = self.pts.len();
        while i < n
            invariant
                n == self@.len(),
                i <= n,
                ids@ == range_upto(self@, min_x, min_y, max_x, max_y, i as int),
            decreases n - i,
        {
            let p = self.pts[i];
            if min_x <= p.0 && p.0 <= max_x && min_y <= p.1 && p.1 <= max_y {
                ids.push(i);
            }
            i = i + 1;
        }
        ids
    }
}

/// Every result position of a `range` query is a position below `n`.
pub proof fn lemma_range_upto_bounds(
    pts: Seq<(u64, u64)>,
    min_x: u64,
    min_y: u64,
    max_x: u64,
    max_y: u64,
    n: int,
)
    requires
        n <= usize::MAX,
    ensures
        forall|k: int|
            0 <= k < range_upto(pts, min_x, min_y, max_x, max_y, n).len() ==> 0 <= #[trigger] range_upto(
                pts,
                min_x,
                min_y,
                max_x,
                max_y,
                n,
            )[k] < n,
    decreases n,
{
    if n > 0 {
        lemma_range_upto_bounds(pts, min_x, min_y, max_x, max_y, n - 1);
        let prev = range_upto(pts, min_x, min_y, max_x, max_y, n - 1);
        let cur = range_upto(pts, min_x, min_y, max_x, max_y, n);
        if in_rect(pts[n - 1], min_x, min_y, max_x, max_y) {
            assert(cur == prev.push((n - 1) as usize));
            assert forall|k: int| 0 <= k < cur.len() implies 0 <= #[trigger] cur[k] < n by {
                if k < prev.len() {
                    assert(cur[k] == prev[k]);
                } else {
                    assert(cur[k] == (n - 1) as usize);
                }
            }
        }
    }
}

/// Every result position of a `within` query is below `n`, the results
/// are strictly increasing, and a position is reported exactly when its
/// point lies in the disc.
pub proof fn lemma_within_upto_props(pts: Seq<(u64, u64)>, x: u64, y: u64, r: u64, n: int)
    requires
        n <= usize::MAX,
    ensures
        forall|k: int|
            0 <= k < within_upto(pts, x, y, r, n).len() ==> 0 <= #[trigger] within_upto(
                pts,
                x,
                y,
                r,
                n,
            )[k] < n,
        forall|k1: int, k2: int|
            0 <= k1 < k2 < within_upto(pts, x, y, r, n).len() ==> #[trigger] within_upto(
                pts,
                x,
                y,
                r,
                n,
            )[k1] < #[trigger] within_upto(pts, x, y, r, n)[k2],
        forall|j: usize|
            0 <= j < n ==> (within_upto(pts, x, y, r, n).contains(j) <==> in_disc(
                pts[j as int],
                x,
                y,
                r,
            )),
        within_upto(pts, x, y, r, n).len() <= if n >= 0 {
            n
        } else {
            0
        },
    decreases n,
{
    if n > 0 {
        lemma_within_upto_props(pts, x, y, r, n - 1);
        let prev = within_upto(pts, x, y, r, n - 1);
        let cur = within_upto(pts, x, y, r, n);
        if in_disc(pts[n - 1], x, y, r) {
            assert(cur == prev.push((n - 1) as usize));
            assert forall|j: usize| 0 <= j < n implies (cur.contains(j) <==> in_disc(
                pts[j as int],
                x,
                y,
                r,
            )) by {
                if j < n - 1 {
                    if prev.contains(j) {
                        let k = choose|k: int| 0 <= k < prev.len() && prev[k] == j;
                        assert(cur[k] == j);
                        assert(cur.contains(j));
                    }
                    if cur.contains(j) {
                        let k = choose|k: int| 0 <= k < cur.len() && cur[k] == j;
                        if k < prev.len() {
                            assert(prev[k] == j);
                            assert(prev.contains(j));
                        } else {
                            assert(cur[k] == (n - 1) as usize);
                        }
                    }
                } else {
                    assert(cur[cur.len() - 1] == j);
                    assert(cur.contains(j));
                }
            }
        } else {
            assert(cur == prev);
            assert forall|j: usize| 0 <= j < n implies (cur.contains(j) <==> in_disc(
                pts[j as int],
                x,
                y,
                r,
            )) by {
                if j < n - 1 {
                } else {
                    if cur.contains(j) {
                        let k = choose|k: int| 0 <= k < cur.len() && cur[k] == j;
                        assert(0 <= prev[k] < n - 1);
                    }
                }
            }
        }
    }
}

} // verus!
