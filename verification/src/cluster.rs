//! Cluster node model and the per-level clustering pass.
//!
//! A node is either a leaf (one source feature) or an aggregate (a weighted
//! centroid standing for two or more source points). The pass walks the
//! node set of zoom `z + 1` in index order; each still-unsettled node is
//! settled at `z`, its neighbors within the merge radius are counted, and
//! if enough of them are unsettled they are folded into a new aggregate
//! whose centroid weights every contributor by its own point count. The
//! executable pass is proved equal to the functional model `pass_from`,
//! over which the library's conservation and settlement laws are stated.

use vstd::prelude::*;
use vstd::pervasive::VecAdditionalExecFns;
use crate::index::{within_upto, SpatialIndex};
use crate::index::lemma_within_upto_props;

verus! {

/// A leaf node: one source feature in projected space.
///
/// `zoom` is the settle zoom (`None` until the node is first examined by a
/// pass, meaning "never merged"); `index` is the feature's position in the
/// loaded sequence; `parent_id` is set when the node is folded into an
/// aggregate.
#[derive(Clone, Copy, Debug)]
pub struct PointCluster {
    pub x: u64,
    pub y: u64,
    pub zoom: Option<u8>,
    pub index: usize,
    pub parent_id: Option<u64>,
}

/// A synthesized aggregate: the weighted centroid of `num_points` source
/// points, with an id that encodes its origin position and zoom level.
#[derive(Clone, Copy, Debug)]
pub struct CreateCluster {
    pub x: u64,
    pub y: u64,
    pub zoom: Option<u8>,
    pub id: u64,
    pub parent_id: Option<u64>,
    pub num_points: u64,
}

/// A node of one zoom level: a single point or an aggregate.
#[derive(Clone, Copy, Debug)]
pub enum Cluster {
    PointClusterItem(PointCluster),
    CreateClusterItem(CreateCluster),
}

impl Cluster {
    /// Projected x coordinate.
    pub open spec fn x_of(self) -> u64 {
        match self {
            Cluster::PointClusterItem(p) => p.x,
            Cluster::CreateClusterItem(c) => c.x,
        }
    }

    /// Projected y coordinate.
    pub open spec fn y_of(self) -> u64 {
        match self {
            Cluster::PointClusterItem(p) => p.y,
            Cluster::CreateClusterItem(c) => c.y,
        }
    }

    /// Settle zoom; `None` means the node has never been examined.
    pub open spec fn zoom_of(self) -> Option<u8> {
        match self {
            Cluster::PointClusterItem(p) => p.zoom,
            Cluster::CreateClusterItem(c) => c.zoom,
        }
    }

    /// Id of the aggregate this node was folded into, if any.
    pub open spec fn parent_of(self) -> Option<u64> {
        match self {
            Cluster::PointClusterItem(p) => p.parent_id,
            Cluster::CreateClusterItem(c) => c.parent_id,
        }
    }

    /// Number of source points this node stands for: 1 for a leaf, the
    /// aggregate's `num_points` otherwise.
    pub open spec fn count_of(self) -> int {
        match self {
            Cluster::PointClusterItem(_) => 1,
            Cluster::CreateClusterItem(c) => c.num_points as int,
        }
    }

    /// Projected x coordinate.
    pub fn x(&self) -> (v: u64)
        ensures
            v == self.x_of(),
    {
        match self {
            Cluster::PointClusterItem(p) => p.x,
            Cluster::CreateClusterItem(c) => c.x,
        }
    }

    /// Projected y coordinate.
    pub fn y(&self) -> (v: u64)
        ensures
            v == self.y_of(),
    {
        match self {
            Cluster::PointClusterItem(p) => p.y,
            Cluster::CreateClusterItem(c) => c.y,
        }
    }
}

/// Is the node still unsettled at zoom `z`, that is, not yet examined at
/// `z` or any coarser level? A node settled at a finer zoom `s > z` is
/// still unsettled at `z`.
pub open spec fn unsettled(c: Cluster, z: u8) -> bool {
    match c.zoom_of() {
        Option::None => true,
        Option::Some(s) => s > z,
    }
}

/// The node with its settle zoom marked `z`.
pub open spec fn mark(c: Cluster, z: u8) -> Cluster {
    match c {
        Cluster::PointClusterItem(p) => Cluster::PointClusterItem(
            PointCluster { x: p.x, y: p.y, zoom: Some(z), index: p.index, parent_id: p.parent_id },
        ),
        Cluster::CreateClusterItem(a) => Cluster::CreateClusterItem(
            CreateCluster {
                x: a.x,
                y: a.y,
                zoom: Some(z),
                id: a.id,
                parent_id: a.parent_id,
                num_points: a.num_points,
            },
        ),
    }
}

/// The node with its parent id set.
pub open spec fn with_parent(c: Cluster, id: u64) -> Cluster {
    match c {
        Cluster::PointClusterItem(p) => Cluster::PointClusterItem(
            PointCluster { x: p.x, y: p.y, zoom: p.zoom, index: p.index, parent_id: Some(id) },
        ),
        Cluster::CreateClusterItem(a) => Cluster::CreateClusterItem(
            CreateCluster {
                x: a.x,
                y: a.y,
                zoom: a.zoom,
                id: a.id,
                parent_id: Some(id),
                num_points: a.num_points,
            },
        ),
    }
}

/// The projected coordinates of a node sequence, in order.
pub open spec fn coords_of(nodes: Seq<Cluster>) -> Seq<(u64, u64)> {
    nodes.map_values(|c: Cluster| (c.x_of(), c.y_of()))
}

/// The id of an aggregate triggered by the node at position `i` of the
/// level being built at zoom `z`: position and level share one integer,
/// recoverable as `id / 32` and `id % 32 - 1`.
pub open spec fn make_id(i: int, z: u8) -> int {
    i * 32 + z + 1
}

/// Every coordinate inside the world square, every count at least 1, every
/// aggregate standing for at least 2 points, and every leaf pointing at one
/// of `n_src` source features.
pub open spec fn wf_node(c: Cluster, n_src: int) -> bool {
    &&& c.x_of() <= 3600000000
    &&& c.y_of() <= 3600000000
    &&& match c {
        Cluster::PointClusterItem(p) => p.index < n_src,
        Cluster::CreateClusterItem(a) => a.num_points >= 2,
    }
}

/// All nodes of an arena are well-formed.
pub open spec fn wf_arena(a: Seq<Cluster>, n_src: int) -> bool {
    forall|j: int| 0 <= j < a.len() ==> wf_node(#[trigger] a[j], n_src)
}

/// Total number of source points an arena stands for.
pub open spec fn sum_counts(a: Seq<Cluster>) -> int
    decreases a.len(),
{
    if a.len() == 0 {
        0
    } else {
        sum_counts(a.drop_last()) + a.last().count_of()
    }
}

/// Total number of source points carried by nodes still unsettled at `z`.
pub open spec fn unsettled_sum(a: Seq<Cluster>, z: u8) -> int
    decreases a.len(),
{
    if a.len() == 0 {
        0
    } else {
        unsettled_sum(a.drop_last(), z) + if unsettled(a.last(), z) {
            a.last().count_of()
        } else {
            0
        }
    }
}

/// Total point count of the nodes folded into the aggregate with id `id`:
/// the mass of its direct children.
pub open spec fn parent_sum(a: Seq<Cluster>, id: u64) -> int
    decreases a.len(),
{
    if a.len() == 0 {
        0
    } else {
        parent_sum(a.drop_last(), id) + if a.last().parent_of() == Some(id) {
            a.last().count_of()
        } else {
            0
        }
    }
}

/// Replacing one node changes a parent's child mass exactly by the
/// difference the node itself contributes to it.
pub proof fn lemma_parent_sum_update(a: Seq<Cluster>, j: int, b2: Cluster, id: u64)
    requires
        0 <= j < a.len(),
    ensures
        parent_sum(a.update(j, b2), id) == parent_sum(a, id) - (if a[j].parent_of() == Some(id) {
            a[j].count_of()
        } else {
            0int
        }) + (if b2.parent_of() == Some(id) {
            b2.count_of()
        } else {
            0int
        }),
    decreases a.len(),
{
    let a2 = a.update(j, b2);
    if j == a.len() - 1 {
        assert(a2.drop_last() =~= a.drop_last());
        assert(a2.last() == b2);
    } else {
        assert(a2.drop_last() =~= a.drop_last().update(j, b2));
        assert(a2.last() == a.last());
        lemma_parent_sum_update(a.drop_last(), j, b2, id);
    }
}

/// If `c` is an aggregate freshly formed by the running pass (its settle
/// zoom still unset), its point count is exactly the mass of the arena
/// nodes linked to it: direct-children population conservation.
pub open spec fn child_sum_ok(a: Seq<Cluster>, c: Cluster) -> bool {
    c matches Cluster::CreateClusterItem(ag) ==> (ag.zoom is None ==> parent_sum(a, ag.id)
        == ag.num_points)
}

/// A freshly formed aggregate's id lies below `bound`.
pub open spec fn agg_id_below(c: Cluster, bound: int) -> bool {
    c matches Cluster::CreateClusterItem(ag) ==> (ag.zoom is None ==> (ag.id as int) < bound)
}

/// Two nodes are the same node up to settle marks and parent links: same
/// kind, same coordinates, and the same feature index or id and count.
/// This is what a pass preserves of every node it touches.
pub open spec fn same_core(a: Cluster, b: Cluster) -> bool {
    match (a, b) {
        (Cluster::PointClusterItem(p), Cluster::PointClusterItem(q)) => p.x == q.x && p.y == q.y
            && p.index == q.index,
        (Cluster::CreateClusterItem(c), Cluster::CreateClusterItem(d)) => c.x == d.x && c.y == d.y
            && c.id == d.id && c.num_points == d.num_points,
        _ => false,
    }
}

/// A freshly formed aggregate's id encodes the zoom it was formed at in
/// its low bits.
pub open spec fn agg_id_encodes(c: Cluster, z: u8) -> bool {
    c matches Cluster::CreateClusterItem(ag) ==> (ag.zoom is None ==> (ag.id as int) % 32 == z + 1)
}

/// Direct-children conservation between two stored zoom levels: if `c` is
/// an aggregate of level `z` that was formed when level `z` was built (its
/// id encodes `z`), the nodes of the next-finer level `finer` that carry
/// its id as parent sum to exactly its point count.
pub open spec fn slot_child_ok(c: Cluster, finer: Seq<Cluster>, z: int) -> bool {
    c matches Cluster::CreateClusterItem(ag) ==> ((ag.id as int) % 32 == z + 1 ==> parent_sum(
        finer,
        ag.id,
    ) == ag.num_points)
}

/// Replacing a node by one with the same parent link and count leaves
/// every parent's child mass unchanged.
pub proof fn lemma_parent_sum_preserved(a: Seq<Cluster>, j: int, b2: Cluster)
    requires
        0 <= j < a.len(),
        b2.parent_of() == a[j].parent_of(),
        b2.count_of() == a[j].count_of(),
    ensures
        forall|id: u64| parent_sum(a.update(j, b2), id) == #[trigger] parent_sum(a, id),
{
    assert forall|id: u64| parent_sum(a.update(j, b2), id) == #[trigger] parent_sum(a, id) by {
        lemma_parent_sum_update(a, j, b2, id);
    }
}

/// An id nobody points at has no child mass.
pub proof fn lemma_parent_sum_zero(a: Seq<Cluster>, id: u64)
    requires
        forall|j: int| 0 <= j < a.len() ==> (#[trigger] a[j]).parent_of() != Some(id),
    ensures
        parent_sum(a, id) == 0,
    decreases a.len(),
{
    if a.len() > 0 {
        assert(forall|j: int|
            0 <= j < a.drop_last().len() ==> (#[trigger] a.drop_last()[j]).parent_of() != Some(id));
        lemma_parent_sum_zero(a.drop_last(), id);
    }
}

/// How many of the first `k` listed neighbors are unsettled at `z`.
pub open spec fn count_upto(a: Seq<Cluster>, neigh: Seq<usize>, k: int, z: u8) -> int
    decreases k,
{
    if k <= 0 {
        0
    } else {
        count_upto(a, neigh, k - 1, z) + if 0 <= neigh[k - 1] < a.len() && unsettled(
            a[neigh[k - 1] as int],
            z,
        ) {
            1int
        } else {
            0int
        }
    }
}

/// Folds the listed neighbors from position `k` on into the aggregate
/// being formed: each still-unsettled neighbor is settled at `z`, linked to
/// parent `id`, and contributes its count-weighted coordinates. Returns the
/// updated arena and the accumulated weighted sums and total count.
pub open spec fn claim_from(
    a: Seq<Cluster>,
    neigh: Seq<usize>,
    k: int,
    z: u8,
    id: u64,
    wx: int,
    wy: int,
    tc: int,
) -> (Seq<Cluster>, int, int, int)
    decreases neigh.len() - k,
{
    if k < 0 || k >= neigh.len() {
        (a, wx, wy, tc)
    } else {
        let j = neigh[k] as int;
        if 0 <= j < a.len() && unsettled(a[j], z) {
            let b = a[j];
            let a2 = a.update(j, with_parent(mark(b, z), id));
            claim_from(
                a2,
                neigh,
                k + 1,
                z,
                id,
                wx + b.count_of() * b.x_of(),
                wy + b.count_of() * b.y_of(),
                tc + b.count_of(),
            )
        } else {
            claim_from(a, neigh, k + 1, z, id, wx, wy, tc)
        }
    }
}

/// One level of the bottom-up build, from node `i` of `len` on: the
/// functional model of the clustering pass over the arena of zoom `z + 1`,
/// producing the mutated arena and the node sequence of zoom `z`. `len` is
/// the arena's length, which the pass preserves.
pub open spec fn pass_from(
    pts: Seq<(u64, u64)>,
    a: Seq<Cluster>,
    out: Seq<Cluster>,
    i: int,
    len: int,
    z: u8,
    r: u64,
    min_points: int,
) -> (Seq<Cluster>, Seq<Cluster>)
    decreases len - i,
{
    if i < 0 || i >= len {
        (a, out)
    } else {
        let p = a[i];
        if !unsettled(p, z) {
            pass_from(pts, a, out, i + 1, len, z, r, min_points)
        } else {
            let a1 = a.update(i, mark(p, z));
            let neigh = within_upto(pts, p.x_of(), p.y_of(), r, pts.len() as int);
            let n = 1 + count_upto(a1, neigh, neigh.len() as int, z);
            if n > 1 && n >= min_points {
                let id = make_id(i, z) as u64;
                let folded = claim_from(
                    a1,
                    neigh,
                    0,
                    z,
                    id,
                    p.count_of() * p.x_of(),
                    p.count_of() * p.y_of(),
                    p.count_of(),
                );
                let a2 = folded.0;
                let wx = folded.1;
                let wy = folded.2;
                let tc = folded.3;
                let a3 = a2.update(i, with_parent(a2[i], id));
                let agg = Cluster::CreateClusterItem(
                    CreateCluster {
                        x: (wx / tc) as u64,
                        y: (wy / tc) as u64,
                        zoom: None,
                        id,
                        parent_id: None,
                        num_points: tc as u64,
                    },
                );
                pass_from(pts, a3, out.push(agg), i + 1, len, z, r, min_points)
            } else {
                pass_from(pts, a1, out.push(a1[i]), i + 1, len, z, r, min_points)
            }
        }
    }
}

/// Replacing one node changes the arena's sums exactly by the difference
/// the node itself contributes.
pub proof fn lemma_sums_update(a: Seq<Cluster>, j: int, b2: Cluster, z: u8)
    requires
        0 <= j < a.len(),
    ensures
        sum_counts(a.update(j, b2)) == sum_counts(a) - a[j].count_of() + b2.count_of(),
        unsettled_sum(a.update(j, b2), z) == unsettled_sum(a, z) - (if unsettled(a[j], z) {
            a[j].count_of()
        } else {
            0int
        }) + (if unsettled(b2, z) {
            b2.count_of()
        } else {
            0int
        }),
    decreases a.len(),
{
    let a2 = a.update(j, b2);
    if j == a.len() - 1 {
        assert(a2.drop_last() =~= a.drop_last());
        assert(a2.last() == b2);
    } else {
        assert(a2.drop_last() =~= a.drop_last().update(j, b2));
        assert(a2.last() == a.last());
        lemma_sums_update(a.drop_last(), j, b2, z);
    }
}

/// Sums are nonnegative, settled mass never exceeds total mass, and when
/// every count is at least 1 the total dominates the length.
pub proof fn lemma_sums_bounds(a: Seq<Cluster>, z: u8)
    requires
        forall|j: int| 0 <= j < a.len() ==> (#[trigger] a[j]).count_of() >= 1,
    ensures
        0 <= unsettled_sum(a, z) <= sum_counts(a),
        sum_counts(a) >= a.len(),
    decreases a.len(),
{
    if a.len() > 0 {
        assert(forall|j: int|
            0 <= j < a.drop_last().len() ==> (#[trigger] a.drop_last()[j]).count_of() >= 1);
        lemma_sums_bounds(a.drop_last(), z);
    }
}

/// Coordinates inside the world square and counts at least 1, for every
/// node: what the pass needs of its input arena.
pub open spec fn bounded_arena(a: Seq<Cluster>) -> bool {
    forall|j: int|
        0 <= j < a.len() ==> (#[trigger] a[j]).x_of() <= 3600000000 && a[j].y_of() <= 3600000000
            && a[j].count_of() >= 1
}

/// Largest number of source points one load accepts.
pub const MAX_POINTS: u64 = 4294967296;

/// Is the node still unsettled at zoom `z`?
pub fn is_unsettled_at(c: &Cluster, z: u8) -> (b: bool)
    ensures
        b == unsettled(*c, z),
{
    let zo = match c {
        Cluster::PointClusterItem(p) => p.zoom,
        Cluster::CreateClusterItem(a) => a.zoom,
    };
    match zo {
        None => true,
        Some(s) => s > z,
    }
}

/// The node's point count.
pub fn count_node(c: &Cluster) -> (v: u64)
    ensures
        v as int == c.count_of(),
{
    match c {
        Cluster::PointClusterItem(_) => 1,
        Cluster::CreateClusterItem(a) => a.num_points,
    }
}

/// The node with its settle zoom marked `z`.
fn set_zoom(c: Cluster, z: u8) -> (r: Cluster)
    ensures
        r == mark(c, z),
{
    match c {
        Cluster::PointClusterItem(p) => Cluster::PointClusterItem(
            PointCluster { x: p.x, y: p.y, zoom: Some(z), index: p.index, parent_id: p.parent_id },
        ),
        Cluster::CreateClusterItem(a) => Cluster::CreateClusterItem(
            CreateCluster {
                x: a.x,
                y: a.y,
                zoom: Some(z),
                id: a.id,
                parent_id: a.parent_id,
                num_points: a.num_points,
            },
        ),
    }
}

/// Builds a synthesized aggregate node: a weighted centroid standing for
/// `num_points` source points, not yet settled, not yet claimed by any
/// coarser aggregate.
pub fn create_cluster(x: u64, y: u64, id: u64, num_points: u64) -> (c: Cluster)
    ensures
        c == Cluster::CreateClusterItem(
            CreateCluster { x, y, zoom: None, id, parent_id: None, num_points },
        ),
{
    Cluster::CreateClusterItem(
        CreateCluster { x, y, zoom: None, id, parent_id: None, num_points },
    )
}

/// The node with its parent id set.
fn set_parent(c: Cluster, id: u64) -> (r: Cluster)
    ensures
        r == with_parent(c, id),
{
    match c {
        Cluster::PointClusterItem(p) => Cluster::PointClusterItem(
            PointCluster { x: p.x, y: p.y, zoom: p.zoom, index: p.index, parent_id: Some(id) },
        ),
        Cluster::CreateClusterItem(a) => Cluster::CreateClusterItem(
            CreateCluster {
                x: a.x,
                y: a.y,
                zoom: a.zoom,
                id: a.id,
                parent_id: Some(id),
                num_points: a.num_points,
            },
        ),
    }
}

/// In an arena with every node unsettled at `z`, the unsettled mass is the
/// whole mass.
pub proof fn lemma_unsettled_sum_full(a: Seq<Cluster>, z: u8)
    requires
        forall|j: int| 0 <= j < a.len() ==> unsettled(#[trigger] a[j], z),
    ensures
        unsettled_sum(a, z) == sum_counts(a),
    decreases a.len(),
{
    if a.len() > 0 {
        assert(forall|j: int|
            0 <= j < a.drop_last().len() ==> unsettled(#[trigger] a.drop_last()[j], z));
        lemma_unsettled_sum_full(a.drop_last(), z);
    }
}

/// In an arena with every node settled at `z`, no unsettled mass remains.
pub proof fn lemma_unsettled_sum_zero(a: Seq<Cluster>, z: u8)
    requires
        forall|j: int| 0 <= j < a.len() ==> !unsettled(#[trigger] a[j], z),
    ensures
        unsettled_sum(a, z) == 0,
    decreases a.len(),
{
    if a.len() > 0 {
        assert(forall|j: int|
            0 <= j < a.drop_last().len() ==> !unsettled(#[trigger] a.drop_last()[j], z));
        lemma_unsettled_sum_zero(a.drop_last(), z);
    }
}

/// Appending a node grows the total by the node's count.
pub proof fn lemma_sum_push(a: Seq<Cluster>, c: Cluster, z: u8)
    ensures
        sum_counts(a.push(c)) == sum_counts(a) + c.count_of(),
        unsettled_sum(a.push(c), z) == unsettled_sum(a, z) + if unsettled(c, z) {
            c.count_of()
        } else {
            0int
        },
{
    assert(a.push(c).drop_last() =~= a);
    assert(a.push(c).last() == c);
}

/// Replacing a node by one with the same coordinates leaves the coordinate
/// table unchanged.
pub proof fn lemma_coords_update(a: Seq<Cluster>, j: int, b2: Cluster)
    requires
        0 <= j < a.len(),
        b2.x_of() == a[j].x_of(),
        b2.y_of() == a[j].y_of(),
    ensures
        coords_of(a.update(j, b2)) == coords_of(a),
{
    assert(coords_of(a.update(j, b2)) =~= coords_of(a));
}

/// One clustering pass: settles every node of `arena` (the node set of
/// zoom `z + 1`) at zoom `z`, folds groups of near unsettled nodes into
/// aggregates, and returns the node set of zoom `z` — exactly what the
/// functional model `pass_from` yields. The pass keeps the arena's length,
/// coordinates and total point count, leaves every node settled, and the
/// returned level carries exactly the point count that entered unsettled.
pub fn cluster_pass(
    arena: &mut Vec<Cluster>,
    tree: &SpatialIndex,
    z: u8,
    r: u64,
    min_points: u8,
    Ghost(n_src): Ghost<int>,
) -> (out: Vec<Cluster>)
    requires
        tree@ == coords_of(old(arena)@),
        bounded_arena(old(arena)@),
        wf_arena(old(arena)@, n_src),
        sum_counts(old(arena)@) <= MAX_POINTS,
        r <= 1000000000000,
        z <= 30,
        forall|j: int| 0 <= j < old(arena)@.len() ==> (#[trigger] old(arena)@[j]).parent_of() is None,
    ensures
        wf_arena(final(arena)@, n_src),
        wf_arena(out@, n_src),
        forall|m: int| 0 <= m < out@.len() ==> (#[trigger] out@[m]).parent_of() is None,
        // direct-children population conservation: each aggregate formed by
        // this pass carries exactly the summed point count of the nodes the
        // pass linked to it
        forall|m: int| 0 <= m < out@.len() ==> child_sum_ok(final(arena)@, #[trigger] out@[m]),
        // a pass only writes settle marks and parent links: every node
        // keeps its identity
        forall|m: int|
            0 <= m < old(arena)@.len() ==> same_core(#[trigger] final(arena)@[m], old(arena)@[m]),
        // a fresh aggregate's id encodes this zoom; every node the pass
        // merely re-emitted keeps the identity of some input node
        forall|m: int| 0 <= m < out@.len() ==> agg_id_encodes(#[trigger] out@[m], z),
        forall|m: int|
            0 <= m < out@.len() && (#[trigger] out@[m]).zoom_of() == Some(z) ==> exists|j: int|
                0 <= j < old(arena)@.len() && same_core(out@[m], old(arena)@[j]),
        ({
            let pr = pass_from(
                tree@,
                old(arena)@,
                Seq::empty(),
                0,
                old(arena)@.len() as int,
                z,
                r,
                min_points as int,
            );
            final(arena)@ == pr.0 && out@ == pr.1
        }),
        final(arena)@.len() == old(arena)@.len(),
        coords_of(final(arena)@) == coords_of(old(arena)@),
        bounded_arena(final(arena)@),
        bounded_arena(out@),
        sum_counts(final(arena)@) == sum_counts(old(arena)@),
        forall|j: int| 0 <= j < final(arena)@.len() ==> !unsettled(#[trigger] final(arena)@[j], z),
        sum_counts(out@) == unsettled_sum(old(arena)@, z),
        forall|m: int|
            0 <= m < out@.len() ==> ((#[trigger] out@[m]).zoom_of() is None || out@[m].zoom_of()
                == Some(z)),
{
    let ghost pts = tree@;
    let ghost a0 = arena@;
    let ghost s0 = sum_counts(a0);
    let ghost mp = min_points as int;
    proof {
        lemma_sums_bounds(a0, z);
    }
    let len = arena.len();
    let mut out: Vec<Cluster> = Vec::new();
    let mut i: usize = 0;
    while i < len
        invariant
            arena@.len() == len,
            a0.len() == len,
            len <= 4294967296,
            tree@ == pts,
            pts == coords_of(a0),
            coords_of(arena@) == pts,
            bounded_arena(arena@),
            bounded_arena(out@),
            wf_arena(arena@, n_src),
            wf_arena(out@, n_src),
            sum_counts(arena@) == s0,
            s0 == sum_counts(a0),
            s0 <= 4294967296,
            r <= 1000000000000,
            mp == min_points as int,
            z <= 30,
            sum_counts(out@) + unsettled_sum(arena@, z) == unsettled_sum(a0, z),
            forall|m: int|
                0 <= m < out@.len() ==> ((#[trigger] out@[m]).zoom_of() is None || out@[m].zoom_of()
                    == Some(z)),
            forall|j: int| 0 <= j < i ==> !unsettled(#[trigger] arena@[j], z),
            forall|j: int|
                0 <= j < arena@.len() ==> (unsettled(#[trigger] arena@[j], z)
                    ==> arena@[j].parent_of() is None),
            forall|j: int|
                0 <= j < arena@.len() && (#[trigger] arena@[j]).parent_of() is Some
                    ==> (arena@[j].parent_of()->0 as int) < make_id(i as int, z),
            forall|m: int| 0 <= m < out@.len() ==> (#[trigger] out@[m]).parent_of() is None,
            forall|m: int|
                0 <= m < out@.len() ==> child_sum_ok(arena@, #[trigger] out@[m]) && agg_id_below(
                    out@[m],
                    make_id(i as int, z),
                ),
            forall|m: int| 0 <= m < len ==> same_core(#[trigger] arena@[m], a0[m]),
            forall|m: int| 0 <= m < out@.len() ==> agg_id_encodes(#[trigger] out@[m], z),
            forall|m: int|
                0 <= m < out@.len() && (#[trigger] out@[m]).zoom_of() == Some(z) ==> exists|j: int|
                    0 <= j < len && same_core(out@[m], a0[j]),
            pass_from(pts, arena@, out@, i as int, len as int, z, r, mp) == pass_from(
                pts,
                a0,
                Seq::empty(),
                0,
                len as int,
                z,
                r,
                mp,
            ),
            i <= len,
        decreases len - i,
    {
        let ghost a_pre = arena@;
        let ghost out_pre = out@;
        let p = arena[i];
        if is_unsettled_at(&p, z) {
            let marked = set_zoom(p, z);
            arena.set(i, marked);
            proof {
                lemma_sums_update(a_pre, i as int, mark(p, z), z);
                lemma_coords_update(a_pre, i as int, mark(p, z));
                lemma_parent_sum_preserved(a_pre, i as int, mark(p, z));
                assert(bounded_arena(arena@) && wf_arena(arena@, n_src)) by {
                    assert(forall|j: int|
                        0 <= j < arena@.len() && j != i ==> arena@[j] == a_pre[j]);
                }
                assert(forall|j: int|
                    0 <= j < arena@.len() ==> (#[trigger] arena@[j]).parent_of()
                        == a_pre[j].parent_of());
                assert(forall|m: int| 0 <= m < len ==> same_core(#[trigger] arena@[m], a0[m])) by {
                    assert(forall|m: int|
                        0 <= m < arena@.len() && m != i ==> arena@[m] == a_pre[m]);
                    assert(same_core(mark(p, z), p));
                }
                assert forall|m: int| 0 <= m < out@.len() implies child_sum_ok(
                    arena@,
                    #[trigger] out@[m],
                ) by {
                    match out@[m] {
                        Cluster::CreateClusterItem(ag) => {
                            if ag.zoom is None {
                                assert(parent_sum(arena@, ag.id) == parent_sum(a_pre, ag.id));
                            }
                        },
                        Cluster::PointClusterItem(_) => {},
                    }
                }
            }
            let ghost a1 = arena@;
            proof {
                assert forall|j: int| 0 <= j < pts.len() implies (#[trigger] pts[j]).0
                    <= 3600000000 && pts[j].1 <= 3600000000 by {
                    assert(pts[j] == (a_pre[j].x_of(), a_pre[j].y_of()));
                }
            }
            let ids = tree.within(p.x(), p.y(), r);
            proof {
                lemma_within_upto_props(pts, p.x_of(), p.y_of(), r, pts.len() as int);
                assert(ids@.len() <= len);
            }
            // count the unsettled neighbors, the node itself included
            let mut n: u64 = 1;
            let mut k: usize = 0;
            while k < ids.len()
                invariant
                    arena@ == a1,
                    arena@.len() == len,
                    k <= ids@.len(),
                    ids@.len() <= len,
                    len <= 4294967296,
                    n as int == 1 + count_upto(a1, ids@, k as int, z),
                    n <= 1 + k,
                decreases ids@.len() - k,
            {
                let j = ids[k];
                if j < arena.len() {
                    let b = arena[j];
                    if is_unsettled_at(&b, z) {
                        n = n + 1;
                    }
                }
                k = k + 1;
            }
            let mp_exec = min_points as u64;
            if n > 1 && n >= mp_exec {
                // fold the group into a new aggregate
                let id: u64 = (i as u64) * 32 + (z as u64) + 1;
                proof {
                    assert(id as int == make_id(i as int, z));
                }
                let c_p = count_node(&p);
                proof {
                    assert((c_p as u128) * (p.x_of() as u128) <= (c_p as u128) * 3600000000)
                        by (nonlinear_arith)
                        requires
                            p.x_of() <= 3600000000,
                            c_p >= 0,
                    ;
                    assert((c_p as u128) * (p.y_of() as u128) <= (c_p as u128) * 3600000000)
                        by (nonlinear_arith)
                        requires
                            p.y_of() <= 3600000000,
                            c_p >= 0,
                    ;
                }
                let mut wx: u128 = (c_p as u128) * (p.x() as u128);
                let mut wy: u128 = (c_p as u128) * (p.y() as u128);
                let mut tc: u64 = c_p;
                let ghost uu = unsettled_sum(a_pre, z);
                proof {
                    lemma_sums_bounds(a_pre, z);
                    assert(tc + unsettled_sum(a1, z) == uu);
                    assert forall|j: int|
                        0 <= j < a1.len() implies (#[trigger] a1[j]).parent_of() != Some(id) by {
                        if a1[j].parent_of() is Some {
                            assert((a1[j].parent_of()->0 as int) < make_id(i as int, z));
                        }
                    }
                    lemma_parent_sum_zero(a1, id);
                    assert(a1[i as int] == mark(p, z));
                    assert(a1[i as int].count_of() == c_p as int);
                    assert(a1[i as int].parent_of() is None);
                }
                let mut k2: usize = 0;
                while k2 < ids.len()
                    invariant
                        arena@.len() == len,
                        a1.len() == len,
                        len <= 4294967296,
                        k2 <= ids@.len(),
                        ids@.len() <= len,
                        bounded_arena(arena@),
                        wf_arena(arena@, n_src),
                        coords_of(arena@) == pts,
                        sum_counts(arena@) == s0,
                        s0 <= 4294967296,
                        claim_from(arena@, ids@, k2 as int, z, id, wx as int, wy as int, tc as int)
                            == claim_from(
                            a1,
                            ids@,
                            0,
                            z,
                            id,
                            c_p as int * p.x_of() as int,
                            c_p as int * p.y_of() as int,
                            c_p as int,
                        ),
                        tc as int + unsettled_sum(arena@, z) == uu,
                        uu <= s0,
                        wx <= 3600000000 * (tc as u128),
                        wy <= 3600000000 * (tc as u128),
                        tc >= c_p,
                        c_p >= 1,
                        tc as int >= c_p + count_upto(a1, ids@, k2 as int, z),
                        forall|u: int, v: int|
                            0 <= u < v < ids@.len() ==> #[trigger] ids@[u] < #[trigger] ids@[v],
                        forall|k3: int|
                            k2 <= k3 < ids@.len() ==> (0 <= #[trigger] ids@[k3] < len
                                ==> arena@[ids@[k3] as int] == a1[ids@[k3] as int]),
                        forall|j: int| 0 <= j < i ==> !unsettled(#[trigger] arena@[j], z),
                        !unsettled(arena@[i as int], z),
                        arena@[i as int] == a1[i as int],
                        a1[i as int] == mark(p, z),
                        id as int == make_id(i as int, z),
                        c_p as int == a1[i as int].count_of(),
                        parent_sum(arena@, id) == tc as int - c_p as int,
                        forall|j: int|
                            0 <= j < arena@.len() ==> (unsettled(#[trigger] arena@[j], z)
                                ==> arena@[j].parent_of() is None),
                        forall|j: int|
                            0 <= j < arena@.len() && (#[trigger] arena@[j]).parent_of() is Some
                                ==> (arena@[j].parent_of()->0 == id || (arena@[j].parent_of()->0
                                as int) < make_id(i as int, z)),
                        forall|m: int| 0 <= m < out@.len() ==> (#[trigger] out@[m]).parent_of() is None,
                        forall|m: int|
                            0 <= m < out@.len() ==> child_sum_ok(arena@, #[trigger] out@[m])
                                && agg_id_below(out@[m], make_id(i as int, z)),
                        forall|m: int| 0 <= m < len ==> same_core(#[trigger] arena@[m], a0[m]),
                    decreases ids@.len() - k2,
                {
                    let ghost pre = arena@;
                    let j = ids[k2];
                    if j < arena.len() {
                        let b = arena[j];
                        if is_unsettled_at(&b, z) {
                            let b2 = set_parent(set_zoom(b, z), id);
                            arena.set(j, b2);
                            let cb = count_node(&b);
                            proof {
                                let bs = with_parent(mark(b, z), id);
                                assert(pre[j as int].parent_of() is None);
                                lemma_sums_update(pre, j as int, bs, z);
                                lemma_coords_update(pre, j as int, bs);
                                lemma_parent_sum_update(pre, j as int, bs, id);
                                assert forall|m: int| 0 <= m < out@.len() implies child_sum_ok(
                                    arena@,
                                    #[trigger] out@[m],
                                ) by {
                                    match out@[m] {
                                        Cluster::CreateClusterItem(ag) => {
                                            if ag.zoom is None {
                                                assert((ag.id as int) < make_id(i as int, z));
                                                lemma_parent_sum_update(pre, j as int, bs, ag.id);
                                            }
                                        },
                                        Cluster::PointClusterItem(_) => {},
                                    }
                                }
                                assert(bounded_arena(arena@) && wf_arena(arena@, n_src)) by {
                                    assert(forall|m: int|
                                        0 <= m < arena@.len() && m != j ==> arena@[m] == pre[m]);
                                }
                                assert(forall|m: int|
                                    0 <= m < len ==> same_core(#[trigger] arena@[m], a0[m])) by {
                                    assert(forall|m: int|
                                        0 <= m < arena@.len() && m != j ==> arena@[m] == pre[m]);
                                    assert(same_core(bs, b));
                                }
                                lemma_sums_bounds(arena@, z);
                                assert(tc + cb + unsettled_sum(arena@, z) == uu);
                                assert(tc + cb <= uu);
                                assert((cb as u128) * (b.x_of() as u128) <= (cb as u128)
                                    * 3600000000) by (nonlinear_arith)
                                    requires
                                        b.x_of() <= 3600000000,
                                        cb >= 0,
                                ;
                                assert((cb as u128) * (b.y_of() as u128) <= (cb as u128)
                                    * 3600000000) by (nonlinear_arith)
                                    requires
                                        b.y_of() <= 3600000000,
                                        cb >= 0,
                                ;
                                assert(3600000000 * (tc as u128) + 3600000000 * (cb as u128)
                                    == 3600000000 * ((tc + cb) as u128)) by (nonlinear_arith)
                                    requires
                                        tc as int + cb as int <= 0x10000000000000000,
                                ;
                            }
                            wx = wx + (cb as u128) * (b.x() as u128);
                            wy = wy + (cb as u128) * (b.y() as u128);
                            tc = tc + cb;
                        }
                    }
                    proof {
                        assert(count_upto(a1, ids@, k2 as int + 1, z) == count_upto(
                            a1,
                            ids@,
                            k2 as int,
                            z,
                        ) + if 0 <= ids@[k2 as int] < a1.len() && unsettled(
                            a1[ids@[k2 as int] as int],
                            z,
                        ) {
                            1int
                        } else {
                            0int
                        });
                    }
                    k2 = k2 + 1;
                }
                proof {
                    assert(claim_from(arena@, ids@, k2 as int, z, id, wx as int, wy as int,
                        tc as int) == (arena@, wx as int, wy as int, tc as int));
                }
                // the centroid: point-count-weighted mean of the contributors
                proof {
                    assert(wx / (tc as u128) <= 3600000000) by {
                        vstd::arithmetic::div_mod::lemma_div_is_ordered(
                            wx as int,
                            3600000000 * (tc as int),
                            tc as int,
                        );
                        vstd::arithmetic::div_mod::lemma_div_by_multiple(3600000000, tc as int);
                        assert(3600000000 * (tc as int) == (3600000000int) * (tc as int));
                        assert(((3600000000int) * (tc as int)) / (tc as int) == 3600000000);
                    }
                    assert(wy / (tc as u128) <= 3600000000) by {
                        vstd::arithmetic::div_mod::lemma_div_is_ordered(
                            wy as int,
                            3600000000 * (tc as int),
                            tc as int,
                        );
                        vstd::arithmetic::div_mod::lemma_div_by_multiple(3600000000, tc as int);
                    }
                }
                let cx = (wx / (tc as u128)) as u64;
                let cy = (wy / (tc as u128)) as u64;
                let ghost a2 = arena@;
                let cur_i = arena[i];
                arena.set(i, set_parent(cur_i, id));
                proof {
                    lemma_sums_update(a2, i as int, with_parent(cur_i, id), z);
                    lemma_coords_update(a2, i as int, with_parent(cur_i, id));
                    assert(bounded_arena(arena@) && wf_arena(arena@, n_src)) by {
                        assert(forall|m: int|
                            0 <= m < arena@.len() && m != i ==> arena@[m] == a2[m]);
                    }
                    assert(forall|m: int| 0 <= m < len ==> same_core(#[trigger] arena@[m], a0[m]))
                        by {
                        assert(forall|m: int|
                            0 <= m < arena@.len() && m != i ==> arena@[m] == a2[m]);
                        assert(same_core(with_parent(cur_i, id), cur_i));
                    }
                    assert(tc >= 2);
                    // linking the trigger node itself completes the
                    // aggregate's child mass
                    assert(cur_i == mark(p, z));
                    assert(cur_i.parent_of() is None);
                    assert(cur_i.count_of() == c_p as int);
                    lemma_parent_sum_update(a2, i as int, with_parent(cur_i, id), id);
                    assert(parent_sum(arena@, id) == tc as int);
                    assert forall|m: int| 0 <= m < out@.len() implies child_sum_ok(
                        arena@,
                        #[trigger] out@[m],
                    ) by {
                        match out@[m] {
                            Cluster::CreateClusterItem(ag) => {
                                if ag.zoom is None {
                                    assert((ag.id as int) < make_id(i as int, z));
                                    lemma_parent_sum_update(
                                        a2,
                                        i as int,
                                        with_parent(cur_i, id),
                                        ag.id,
                                    );
                                }
                            },
                            Cluster::PointClusterItem(_) => {},
                        }
                    }
                }
                let agg = create_cluster(cx, cy, id, tc);
                out.push(agg);
                proof {
                    lemma_sum_push(out_pre, agg, z);
                    assert(child_sum_ok(arena@, agg));
                    assert(make_id(i as int, z) < make_id(i as int + 1, z));
                    assert(agg_id_encodes(agg, z)) by {
                        vstd::arithmetic::div_mod::lemma_mod_multiples_vanish(
                            i as int,
                            z + 1,
                            32,
                        );
                        vstd::arithmetic::div_mod::lemma_small_mod((z + 1) as nat, 32nat);
                        assert(id as int == 32 * (i as int) + (z + 1));
                    }
                    assert forall|m: int|
                        0 <= m < out@.len() && (#[trigger] out@[m]).zoom_of() == Some(z)
                            implies exists|j: int| 0 <= j < len && same_core(out@[m], a0[j]) by {
                        assert(m < out_pre.len());
                        assert(out@[m] == out_pre[m]);
                    }
                    assert(sum_counts(out@) + unsettled_sum(arena@, z) == unsettled_sum(a0, z));
                    assert(pass_from(pts, a_pre, out_pre, i as int, len as int, z, r, mp)
                        == pass_from(pts, arena@, out@, i as int + 1, len as int, z, r, mp));
                }
            } else {
                let emitted = arena[i];
                out.push(emitted);
                proof {
                    lemma_sum_push(out_pre, emitted, z);
                    assert(emitted == mark(p, z));
                    assert(same_core(emitted, a0[i as int]));
                    assert forall|m: int|
                        0 <= m < out@.len() && (#[trigger] out@[m]).zoom_of() == Some(z)
                            implies exists|j: int| 0 <= j < len && same_core(out@[m], a0[j]) by {
                        if m < out_pre.len() {
                            assert(out@[m] == out_pre[m]);
                        } else {
                            assert(out@[m] == emitted);
                            assert(0 <= i < len && same_core(out@[m], a0[i as int]));
                        }
                    }
                    assert(pass_from(pts, a_pre, out_pre, i as int, len as int, z, r, mp)
                        == pass_from(pts, arena@, out@, i as int + 1, len as int, z, r, mp));
                }
            }
        } else {
            proof {
                assert(pass_from(pts, a_pre, out_pre, i as int, len as int, z, r, mp) == pass_from(
                    pts,
                    arena@,
                    out@,
                    i as int + 1,
                    len as int,
                    z,
                    r,
                    mp,
                ));
            }
        }
        i = i + 1;
    }
    proof {
        lemma_unsettled_sum_zero(arena@, z);
    }
    out
}

} // verus!
