//! A multi-resolution point-clustering engine for interactive maps.
//!
//! Geographic point features are projected into a square tile space held in
//! fixed-point integer coordinates, then merged bottom-up, one zoom level at
//! a time, into weighted-centroid aggregates. Each zoom level keeps its own
//! immutable node set and spatial index, and bounding-box queries (including
//! boxes crossing the antimeridian) are answered per level.

pub mod cluster;
pub mod index;
pub mod laws;
pub mod option;
pub mod point;
pub mod proj;
pub mod query;

use vstd::prelude::*;
use vstd::pervasive::VecAdditionalExecFns;
use crate::cluster::{
    agg_id_encodes, bounded_arena, cluster_pass, coords_of, parent_sum, pass_from, same_core,
    slot_child_ok, sum_counts, wf_arena, Cluster, PointCluster, MAX_POINTS,
};
use crate::index::SpatialIndex;
use crate::option::DefaultOptions;
use crate::point::{Feature, FeatureView};
use crate::proj::{lat_y, lat_y_spec, lng_x, lng_x_spec};

verus! {

/// The ways an operation can fail, reported at the API boundary instead of
/// aborting.
#[derive(Clone, Copy, Debug, PartialEq, Eq, Structural)]
pub enum SuperClusterError {
    /// Rejected configuration: an incoherent zoom range, a zoom ceiling the
    /// id encoding cannot carry, or a zero tile extent.
    InvalidOptions,
    /// A feature with coordinates outside the longitude/latitude range; the
    /// whole load is rejected.
    InvalidFeature,
    /// A query before any successful load.
    NotLoaded,
}

/// `2^e`.
pub open spec fn pow2_int(e: int) -> int
    decreases e,
{
    if e <= 0 {
        1
    } else {
        2 * pow2_int(e - 1)
    }
}

/// The merge radius in projected world units at zoom `z`: a fixed pixel
/// radius divided by the world size in pixels at that zoom.
pub open spec fn radius_world(radius: int, extent: int, z: int) -> int {
    radius * 3600000000 / (extent * pow2_int(z))
}

/// An accepted configuration: complete, with a coherent zoom range, a zoom
/// ceiling that fits the aggregate-id encoding, and a nonzero tile extent.
pub open spec fn valid_options(o: DefaultOptions) -> bool {
    &&& o.is_complete()
    &&& o.min_zoom->0 <= o.max_zoom->0
    &&& o.max_zoom->0 <= 30
    &&& o.extent->0 >= 1
}

/// A feature's coordinates are inside the longitude/latitude range.
pub open spec fn feature_in_range(f: FeatureView) -> bool {
    &&& -1800000000 <= f.lng_e7 <= 1800000000
    &&& -900000000 <= f.lat_e7 <= 900000000
}

/// Every feature of a load is inside the coordinate range.
pub open spec fn features_in_range(fs: Seq<FeatureView>) -> bool {
    forall|i: int| 0 <= i < fs.len() ==> feature_in_range(#[trigger] fs[i])
}

/// The leaf node of feature `i`: its projected coordinates, never settled,
/// no parent.
pub open spec fn leaf_of(fs: Seq<FeatureView>, i: int) -> Cluster {
    Cluster::PointClusterItem(
        PointCluster {
            x: lng_x_spec(fs[i].lng_e7) as u64,
            y: lat_y_spec(fs[i].lat_e7) as u64,
            zoom: None,
            index: i as usize,
            parent_id: None,
        },
    )
}

/// The initial arena: one leaf per feature, in input order.
pub open spec fn leaves_of(fs: Seq<FeatureView>) -> Seq<Cluster> {
    Seq::new(fs.len(), |i: int| leaf_of(fs, i))
}

/// The node set as it enters zoom `z` during the build: the leaves at the
/// finest level `max_zoom + 1`, below that the output of the pass over the
/// next-finer level.
pub open spec fn arena_at(fs: Seq<FeatureView>, o: DefaultOptions, z: int) -> Seq<Cluster>
    decreases o.max_zoom->0 + 1 - z,
{
    if z >= o.max_zoom->0 + 1 {
        leaves_of(fs)
    } else {
        let a = arena_at(fs, o, z + 1);
        pass_from(
            coords_of(a),
            a,
            Seq::empty(),
            0,
            a.len() as int,
            z as u8,
            radius_world(o.radius->0 as int, o.extent->0 as int, z) as u64,
            o.min_points->0 as int,
        ).1
    }
}

/// The node set finally stored for zoom `z`: the level as it entered `z`,
/// including the settle marks and parent links written by the pass that
/// built level `z - 1` from it. The coarsest stored level `min_zoom` has no
/// pass below it. Levels below `min_zoom` are empty.
pub open spec fn slot_spec(fs: Seq<FeatureView>, o: DefaultOptions, z: int) -> Seq<Cluster> {
    if z < o.min_zoom->0 {
        Seq::empty()
    } else if z == o.min_zoom->0 {
        arena_at(fs, o, z)
    } else {
        let a = arena_at(fs, o, z);
        pass_from(
            coords_of(a),
            a,
            Seq::empty(),
            0,
            a.len() as int,
            (z - 1) as u8,
            radius_world(o.radius->0 as int, o.extent->0 as int, z - 1) as u64,
            o.min_points->0 as int,
        ).0
    }
}

/// The invariant the build keeps of the arena entering level `zi` while
/// levels above `zi` are already stored: every aggregate's id encodes a
/// level in `[zi, max_zoom]`, it encodes `zi` exactly when the aggregate
/// was just formed (not yet settled), and a just-formed aggregate's direct
/// children in the next-finer stored level sum to its point count.
spec fn level_agg_ok(c: Cluster, finer: Seq<Cluster>, zi: int, max_zoom: int) -> bool {
    c matches Cluster::CreateClusterItem(ag) ==> {
        &&& zi + 1 <= (ag.id as int) % 32 <= max_zoom + 1
        &&& (ag.zoom is None <==> (ag.id as int) % 32 == zi + 1)
        &&& (ag.zoom is None ==> parent_sum(finer, ag.id) == ag.num_points)
    }
}

/// The cluster store: per-zoom node sets and spatial indexes, built once
/// per load and queried many times.
pub struct SuperCluster {
    /// The resolved configuration; every field carries a value.
    pub options: DefaultOptions,
    /// The loaded source features, `None` before the first load.
    pub points: Option<Vec<Feature>>,
    /// One spatial index per zoom level `0 ..= max_zoom + 1`.
    pub trees: Vec<SpatialIndex>,
    /// One node set per zoom level `0 ..= max_zoom + 1`.
    pub cluster: Vec<Vec<Cluster>>,
}

impl SuperCluster {
    /// A load has succeeded and the store can be queried.
    pub open spec fn loaded(self) -> bool {
        self.points is Some
    }

    /// The views of the loaded features, in input order.
    pub open spec fn features(self) -> Seq<FeatureView> {
        self.points->0@.map_values(|f: Feature| f@)
    }

    /// The stored node sets, one per zoom level.
    pub open spec fn slots(self) -> Seq<Seq<Cluster>> {
        self.cluster@.map_values(|v: Vec<Cluster>| v@)
    }

    /// The store's invariant: the configuration is valid and, once loaded,
    /// every slot holds exactly the node set of the build model, with its
    /// index built over that node set's coordinates.
    pub open spec fn wf(self) -> bool {
        &&& valid_options(self.options)
        &&& match self.points {
            Option::None => self.trees@.len() == 0 && self.cluster@.len() == 0,
            Option::Some(pts) => {
                let fs = self.features();
                &&& pts@.len() <= MAX_POINTS
                &&& features_in_range(fs)
                &&& self.trees@.len() == self.options.max_zoom->0 + 2
                &&& self.cluster@.len() == self.options.max_zoom->0 + 2
                &&& forall|z: int|
                    0 <= z < self.cluster@.len() ==> (#[trigger] self.slots()[z]) == slot_spec(
                        fs,
                        self.options,
                        z,
                    )
                &&& forall|z: int|
                    0 <= z < self.cluster@.len() ==> (#[trigger] self.trees@[z])@ == coords_of(
                        self.slots()[z],
                    )
                &&& forall|z: int|
                    0 <= z < self.cluster@.len() ==> wf_arena(
                        #[trigger] self.slots()[z],
                        pts@.len() as int,
                    ) && bounded_arena(self.slots()[z])
            },
        }
    }

    /// A new, unloaded store. User options are laid over the defaults; the
    /// result is rejected (never clamped) if its zoom range is incoherent,
    /// its zoom ceiling exceeds what the id encoding carries, or its tile
    /// extent is zero.
    pub fn new(options: Option<DefaultOptions>) -> (r: Result<SuperCluster, SuperClusterError>)
        ensures
            ({
                let given = match options {
                    Option::Some(o) => o,
                    Option::None => DefaultOptions::defaults(),
                };
                let merged = DefaultOptions::defaults().merge_spec(given);
                match r {
                    Result::Ok(s) => valid_options(merged) && s.options == merged && !s.loaded()
                        && s.wf(),
                    Result::Err(e) => !valid_options(merged) && e == SuperClusterError::InvalidOptions,
                }
            }),
    {
        let given = match options {
            Some(o) => o,
            None => DefaultOptions::new(),
        };
        let merged = DefaultOptions::new().merge(&given);
        proof {
            if options is None {
                assert(DefaultOptions::defaults().merge_spec(DefaultOptions::defaults())
                    == DefaultOptions::defaults());
            }
        }
        let min_zoom = merged.min_zoom.unwrap();
        let max_zoom = merged.max_zoom.unwrap();
        let extent = merged.extent.unwrap();
        if min_zoom > max_zoom || max_zoom > 30 || extent == 0 {
            Err(SuperClusterError::InvalidOptions)
        } else {
            Ok(SuperCluster { options: merged, points: None, trees: Vec::new(), cluster: Vec::new() })
        }
    }

    /// Clamps a requested zoom into the stored range `[min_zoom,
    /// max_zoom + 1]`.
    pub open spec fn limit_zoom_spec(self, z: int) -> int {
        if z < self.options.min_zoom->0 {
            self.options.min_zoom->0 as int
        } else if z > self.options.max_zoom->0 + 1 {
            self.options.max_zoom->0 + 1
        } else {
            z
        }
    }

    /// The stored slot position for a requested zoom.
    fn _limit_zoom(&self, z: i8) -> (s: usize)
        requires
            valid_options(self.options),
        ensures
            s == self.limit_zoom_spec(z as int),
    {
        let min_zoom = self.options.min_zoom.unwrap();
        let max_zoom = self.options.max_zoom.unwrap();
        let zw: i16 = z as i16;
        if zw < min_zoom as i16 {
            min_zoom as usize
        } else if zw > max_zoom as i16 + 1 {
            max_zoom as usize + 1
        } else {
            zw as usize
        }
    }

    /// The projection of a longitude onto the x axis (see `proj`).
    pub fn lng_x(&self, lng: i64) -> (x: u64)
        requires
            -1800000000 <= lng <= 1800000000,
        ensures
            x == lng_x_spec(lng as int),
    {
        lng_x(lng)
    }

    /// The projection of a latitude onto the y axis (see `proj`).
    pub fn lat_y(&self, lat: i64) -> (y: u64)
        ensures
            y == lat_y_spec(lat as int),
    {
        lat_y(lat)
    }

    /// Projects one source feature into its leaf node.
    fn create_point_cluster(&self, p: &Feature, id: usize) -> (c: Cluster)
        requires
            feature_in_range(p@),
        ensures
            ({
                let pc = c->PointClusterItem_0;
                c is PointClusterItem && pc.x == lng_x_spec(p@.lng_e7) && pc.y == lat_y_spec(
                    p@.lat_e7,
                ) && pc.zoom is None && pc.index == id && pc.parent_id is None
            }),
    {
        Cluster::PointClusterItem(
            PointCluster {
                x: lng_x(p.geometry.lng_e7),
                y: lat_y(p.geometry.lat_e7),
                zoom: None,
                index: id,
                parent_id: None,
            },
        )
    }

    /// Rebuilds the whole store from a feature sequence. Every feature must
    /// lie inside the longitude/latitude range; otherwise the load reports
    /// `InvalidFeature` and leaves the store unchanged. On success the
    /// previous load's contents are discarded wholesale.
    pub fn load(&mut self, points: Vec<Feature>) -> (r: Result<(), SuperClusterError>)
        requires
            old(self).wf(),
            points@.len() <= MAX_POINTS,
        ensures
            final(self).wf(),
            final(self).options == old(self).options,
            ({
                let fs = points@.map_values(|f: Feature| f@);
                if features_in_range(fs) {
                    &&& r is Ok
                    &&& final(self).loaded()
                    &&& final(self).features() == fs
                    &&& forall|z: int|
                        0 <= z < final(self).slots().len() ==> (#[trigger] final(self).slots()[z])
                            == slot_spec(fs, old(self).options, z)
                    &&& final(self).slots().len() == old(self).options.max_zoom->0 + 2
                    // population conservation: every stored level stands for
                    // exactly the loaded source points
                    &&& forall|z: int|
                        old(self).options.min_zoom->0 <= z < final(self).slots().len()
                            ==> sum_counts(#[trigger] final(self).slots()[z]) == fs.len()
                    // settlement: the pass that built level z - 1 left every
                    // node of level z settled at z - 1
                    &&& forall|z: int, j: int|
                        old(self).options.min_zoom->0 < z < final(self).slots().len() && 0 <= j
                            < final(self).slots()[z].len() ==> !crate::cluster::unsettled(
                            #[trigger] final(self).slots()[z][j],
                            (z - 1) as u8,
                        )
                    // direct-children conservation: an aggregate formed when
                    // level z was built has its children in level z + 1, and
                    // they sum to its point count
                    &&& forall|z: int, m: int|
                        old(self).options.min_zoom->0 <= z < final(self).slots().len() - 1 && 0
                            <= m < final(self).slots()[z].len() ==> slot_child_ok(
                            #[trigger] final(self).slots()[z][m],
                            final(self).slots()[z + 1],
                            z,
                        )
                } else {
                    &&& r == Result::<(), SuperClusterError>::Err(SuperClusterError::InvalidFeature)
                    &&& final(self).features() == old(self).features()
                    &&& final(self).loaded() == old(self).loaded()
                    &&& final(self).slots() == old(self).slots()
                }
            }),
    {
        let ghost fs = points@.map_values(|f: Feature| f@);
        let n = points.len();
        // reject the whole load if any feature is out of range
        let mut i: usize = 0;
        while i < n
            invariant
                n == points@.len(),
                i <= n,
                forall|m: int| 0 <= m < i ==> feature_in_range(#[trigger] fs[m]),
                fs == points@.map_values(|f: Feature| f@),
                *self == *old(self),
                old(self).wf(),
            decreases n - i,
        {
            let lng = points[i].geometry.lng_e7;
            let lat = points[i].geometry.lat_e7;
            if lng < -1800000000 || lng > 1800000000 || lat < -900000000 || lat > 900000000 {
                proof {
                    assert(fs[i as int] == points@[i as int]@);
                    assert(!feature_in_range(fs[i as int]));
                }
                return Err(SuperClusterError::InvalidFeature);
            }
            proof {
                assert(fs[i as int] == points@[i as int]@);
            }
            i = i + 1;
        }
        // project every feature into its leaf node, preserving input order
        let mut arena: Vec<Cluster> = Vec::new();
        let mut i2: usize = 0;
        while i2 < n
            invariant
                n == points@.len(),
                i2 <= n,
                arena@.len() == i2,
                forall|m: int| 0 <= m < i2 ==> arena@[m] == leaf_of(fs, m),
                features_in_range(fs),
                fs == points@.map_values(|f: Feature| f@),
                fs.len() == n,
            decreases n - i2,
        {
            proof {
                assert(fs[i2 as int] == points@[i2 as int]@);
            }
            let c = self.create_point_cluster(&points[i2], i2);
            arena.push(c);
            i2 = i2 + 1;
        }
        proof {
            assert(arena@ =~= leaves_of(fs));
            lemma_leaves_wf(fs);
            lemma_sum_leaves(fs);
            assert forall|j: int|
                0 <= j < arena@.len() implies (#[trigger] arena@[j]).parent_of() is None && arena@[
                    j
                ] is PointClusterItem by {
                assert(leaves_of(fs)[j] == leaf_of(fs, j));
            }
        }
        let max_zoom = self.options.max_zoom.unwrap();
        let min_zoom = self.options.min_zoom.unwrap();
        let radius = self.options.radius.unwrap();
        let extent = self.options.extent.unwrap();
        let min_points = self.options.min_points.unwrap();
        let slots: usize = max_zoom as usize + 2;
        // placeholder slots, filled from the finest level down
        let mut cluster: Vec<Vec<Cluster>> = Vec::new();
        let mut trees: Vec<SpatialIndex> = Vec::new();
        let mut i3: usize = 0;
        while i3 < slots
            invariant
                i3 <= slots,
                cluster@.len() == i3,
                trees@.len() == i3,
                forall|m: int| 0 <= m < i3 ==> (#[trigger] cluster@[m])@.len() == 0,
                forall|m: int| 0 <= m < i3 ==> (#[trigger] trees@[m])@.len() == 0,
            decreases slots - i3,
        {
            cluster.push(Vec::new());
            trees.push(SpatialIndex::create(Vec::new()));
            i3 = i3 + 1;
        }
        let ghost o = self.options;
        // the level-by-level build, from max_zoom down to min_zoom
        let mut zi: u8 = max_zoom + 1;
        while zi > min_zoom
            invariant
                valid_options(o),
                o.max_zoom->0 == max_zoom,
                o.min_zoom->0 == min_zoom,
                o.radius->0 == radius,
                o.extent->0 == extent,
                o.min_points->0 == min_points,
                min_zoom <= zi <= max_zoom + 1,
                slots == max_zoom + 2,
                cluster@.len() == slots,
                trees@.len() == slots,
                arena@ == arena_at(fs, o, zi as int),
                bounded_arena(arena@),
                wf_arena(arena@, fs.len() as int),
                forall|j: int| 0 <= j < arena@.len() ==> (#[trigger] arena@[j]).parent_of() is None,
                sum_counts(arena@) == fs.len(),
                fs.len() <= MAX_POINTS,
                features_in_range(fs),
                forall|j: int|
                    0 <= j < arena@.len() ==> ((#[trigger] arena@[j]).zoom_of() is None
                        || arena@[j].zoom_of()->0 >= zi),
                forall|z: int|
                    zi < z < slots ==> (#[trigger] cluster@[z])@ == slot_spec(fs, o, z),
                forall|z: int|
                    zi < z < slots ==> (#[trigger] trees@[z])@ == coords_of(cluster@[z]@),
                forall|z: int|
                    zi < z < slots ==> wf_arena((#[trigger] cluster@[z])@, fs.len() as int)
                        && bounded_arena(cluster@[z]@),
                forall|z: int|
                    zi < z < slots ==> sum_counts((#[trigger] cluster@[z])@) == fs.len(),
                forall|z: int, j: int|
                    zi < z < slots && 0 <= j < cluster@[z]@.len() ==> !crate::cluster::unsettled(
                        #[trigger] cluster@[z]@[j],
                        (z - 1) as u8,
                    ),
                zi <= max_zoom ==> (forall|m: int|
                    0 <= m < arena@.len() ==> level_agg_ok(
                        #[trigger] arena@[m],
                        cluster@[zi as int + 1]@,
                        zi as int,
                        max_zoom as int,
                    )),
                zi == max_zoom + 1 ==> (forall|m: int|
                    0 <= m < arena@.len() ==> (#[trigger] arena@[m]) is PointClusterItem),
                forall|z: int, m: int|
                    zi < z < slots - 1 && 0 <= m < cluster@[z]@.len() ==> slot_child_ok(
                        #[trigger] cluster@[z]@[m],
                        cluster@[z + 1]@,
                        z,
                    ),
                forall|z: int| 0 <= z <= zi && z < slots ==> (#[trigger] cluster@[z])@.len() == 0,
                forall|z: int| 0 <= z <= zi && z < slots ==> (#[trigger] trees@[z])@.len() == 0,
            decreases zi,
        {
            let zc = zi - 1;
            let coords = collect_coords(&arena);
            let tree = SpatialIndex::create(coords);
            let r = radius_at(radius, extent, zc);
            let ghost before = arena@;
            let out = cluster_pass(&mut arena, &tree, zc, r, min_points, Ghost(fs.len() as int));
            let ghost stored = arena@;
            cluster.set(zi as usize, arena);
            trees.set(zi as usize, tree);
            proof {
                assert(cluster@[zi as int]@ == slot_spec(fs, o, zi as int));
                assert(trees@[zi as int]@ == coords_of(cluster@[zi as int]@));
            }
            arena = out;
            proof {
                crate::cluster::lemma_sums_bounds(before, zc);
                assert(forall|j: int| 0 <= j < before.len() ==> crate::cluster::unsettled(
                    #[trigger] before[j],
                    zc,
                ));
                crate::cluster::lemma_unsettled_sum_full(before, zc);
                assert(sum_counts(arena@) == fs.len());
                assert(arena@ == arena_at(fs, o, zc as int));
            }
            proof {
                let maxi = max_zoom as int;
                let zo = zi as int;
                assert(cluster@[zo]@ == stored);
                // the level just produced keeps the aggregate-id bookkeeping
                assert forall|m: int| 0 <= m < arena@.len() implies level_agg_ok(
                    #[trigger] arena@[m],
                    cluster@[zc as int + 1]@,
                    zc as int,
                    maxi,
                ) by {
                    assert(cluster@[zc as int + 1]@ == stored);
                    match arena@[m] {
                        Cluster::CreateClusterItem(ag) => {
                            assert(arena@[m].zoom_of() is None || arena@[m].zoom_of() == Some(zc));
                            if ag.zoom is None {
                                assert(agg_id_encodes(arena@[m], zc));
                                assert(crate::cluster::child_sum_ok(stored, arena@[m]));
                            } else {
                                assert(arena@[m].zoom_of() == Some(zc));
                                let j = choose|j: int|
                                    0 <= j < before.len() && same_core(arena@[m], before[j]);
                                match before[j] {
                                    Cluster::CreateClusterItem(bg) => {
                                        if zo == maxi + 1 {
                                            assert(before[j] is PointClusterItem);
                                            assert(false);
                                        } else {
                                            assert(level_agg_ok(
                                                before[j],
                                                cluster@[zo + 1]@,
                                                zo,
                                                maxi,
                                            ));
                                        }
                                    },
                                    Cluster::PointClusterItem(_) => {
                                        assert(false);
                                    },
                                }
                            }
                        },
                        Cluster::PointClusterItem(_) => {},
                    }
                }
                // the stored level and the one above it satisfy the
                // direct-children conservation pair
                if zo < slots as int - 1 {
                    assert forall|m: int| 0 <= m < cluster@[zo]@.len() implies slot_child_ok(
                        #[trigger] cluster@[zo]@[m],
                        cluster@[zo + 1]@,
                        zo,
                    ) by {
                        assert(cluster@[zo]@[m] == stored[m]);
                        assert(same_core(stored[m], before[m]));
                        match stored[m] {
                            Cluster::CreateClusterItem(ag) => {
                                if (ag.id as int) % 32 == zo + 1 {
                                    match before[m] {
                                        Cluster::CreateClusterItem(bg) => {
                                            assert(bg.id == ag.id && bg.num_points
                                                == ag.num_points);
                                            assert(level_agg_ok(
                                                before[m],
                                                cluster@[zo + 1]@,
                                                zo,
                                                maxi,
                                            ));
                                            assert(bg.zoom is None);
                                            assert(parent_sum(cluster@[zo + 1]@, ag.id)
                                                == ag.num_points);
                                        },
                                        Cluster::PointClusterItem(_) => {
                                            assert(false);
                                        },
                                    }
                                }
                            },
                            Cluster::PointClusterItem(_) => {},
                        }
                    }
                }
            }
            zi = zc;
        }
        // the coarsest stored level keeps the last pass's output
        let coords = collect_coords(&arena);
        let tree = SpatialIndex::create(coords);
        cluster.set(min_zoom as usize, arena);
        trees.set(min_zoom as usize, tree);
        self.points = Some(points);
        self.cluster = cluster;
        self.trees = trees;
        proof {
            assert(self.features() == fs);
            assert forall|z: int| 0 <= z < self.cluster@.len() implies (#[trigger] self.slots()[z])
                == slot_spec(fs, o, z) by {
                assert(self.slots()[z] == self.cluster@[z]@);
                if z < min_zoom {
                    assert(self.cluster@[z]@.len() == 0);
                    assert(slot_spec(fs, o, z) =~= self.cluster@[z]@);
                }
            }
            assert forall|z: int| 0 <= z < self.cluster@.len() implies (#[trigger] self.trees@[z])@
                == coords_of(self.slots()[z]) by {
                if z < min_zoom {
                    assert(coords_of(Seq::<Cluster>::empty()) =~= Seq::<(u64, u64)>::empty());
                }
            }
            assert forall|z: int| 0 <= z < self.cluster@.len() implies wf_arena(
                #[trigger] self.slots()[z],
                points@.len() as int,
            ) && bounded_arena(self.slots()[z]) by {
                if z < min_zoom {
                }
            }
            assert forall|z: int|
                min_zoom <= z < self.cluster@.len() implies sum_counts(#[trigger] self.slots()[z])
                    == fs.len() by {
                assert(self.slots()[z] == self.cluster@[z]@);
            }
            assert forall|z: int, j: int|
                min_zoom < z < self.cluster@.len() && 0 <= j < self.slots()[z].len()
                    implies !crate::cluster::unsettled(
                    #[trigger] self.slots()[z][j],
                    (z - 1) as u8,
                ) by {
                assert(self.slots()[z][j] == self.cluster@[z]@[j]);
            }
            assert forall|z: int, m: int|
                min_zoom <= z < self.cluster@.len() - 1 && 0 <= m < self.slots()[z].len()
                    implies slot_child_ok(
                    #[trigger] self.slots()[z][m],
                    self.slots()[z + 1],
                    z,
                ) by {
                assert(self.slots()[z] == self.cluster@[z]@);
                assert(self.slots()[z + 1] == self.cluster@[z + 1]@);
                if z == min_zoom {
                    match self.cluster@[z]@[m] {
                        Cluster::CreateClusterItem(ag) => {
                            if (ag.id as int) % 32 == z + 1 {
                                assert(level_agg_ok(
                                    self.cluster@[z]@[m],
                                    self.cluster@[z + 1]@,
                                    z,
                                    max_zoom as int,
                                ));
                                assert(ag.zoom is None);
                            }
                        },
                        Cluster::PointClusterItem(_) => {},
                    }
                }
            }
        }
        Ok(())
    }
}

/// The projected coordinates of every node, in order.
fn collect_coords(arena: &Vec<Cluster>) -> (pts: Vec<(u64, u64)>)
    ensures
        pts@ == coords_of(arena@),
{
    let mut pts: Vec<(u64, u64)> = Vec::new();
    let mut i: usize = 0;
    while i < arena.len()
        invariant
            i <= arena@.len(),
            pts@.len() == i,
            forall|m: int| 0 <= m < i ==> pts@[m] == (arena@[m].x_of(), arena@[m].y_of()),
        decreases arena@.len() - i,
    {
        let c = &arena[i];
        pts.push((c.x(), c.y()));
        i = i + 1;
    }
    proof {
        assert(pts@ =~= coords_of(arena@));
    }
    pts
}

/// `2^e` for the zoom range the store accepts.
fn pow2_u64(e: u8) -> (v: u64)
    requires
        e <= 30,
    ensures
        v as int == pow2_int(e as int),
        1 <= v <= 1073741824,
{
    proof {
        lemma_pow2_le(e as int, 30);
        reveal_with_fuel(pow2_int, 32);
        assert(pow2_int(30) == 1073741824);
    }
    let mut v: u64 = 1;
    let mut k: u8 = 0;
    while k < e
        invariant
            k <= e,
            e <= 30,
            v as int == pow2_int(k as int),
            v <= 1073741824,
        decreases e - k,
    {
        proof {
            lemma_pow2_le(k as int + 1, 30);
            reveal_with_fuel(pow2_int, 32);
            assert(pow2_int(30) == 1073741824);
        }
        v = v * 2;
        k = k + 1;
    }
    v
}

/// `pow2_int` grows with its exponent.
proof fn lemma_pow2_le(a: int, b: int)
    requires
        a <= b,
    ensures
        pow2_int(a) <= pow2_int(b),
        pow2_int(a) >= 1,
    decreases b - a,
{
    if a < b {
        lemma_pow2_le(a, b - 1);
    } else {
        lemma_pow2_pos(a);
    }
}

/// `pow2_int` is positive.
proof fn lemma_pow2_pos(a: int)
    ensures
        pow2_int(a) >= 1,
    decreases a,
{
    if a > 0 {
        lemma_pow2_pos(a - 1);
    }
}

/// The merge radius in projected units at zoom `z`, never above the
/// arithmetic cap the index accepts.
fn radius_at(radius: u8, extent: u16, z: u8) -> (r: u64)
    requires
        z <= 30,
        extent >= 1,
    ensures
        r as int == radius_world(radius as int, extent as int, z as int),
        r <= 1000000000000,
{
    let num: u64 = (radius as u64) * 3600000000;
    let p = pow2_u64(z);
    proof {
        assert((extent as int) * (p as int) <= 65535 * 1073741824) by (nonlinear_arith)
            requires
                extent <= 65535,
                0 <= p <= 1073741824,
        ;
        assert((extent as int) * (p as int) >= 1) by (nonlinear_arith)
            requires
                extent >= 1,
                p >= 1,
        ;
    }
    let den: u64 = (extent as u64) * p;
    proof {
        vstd::arithmetic::div_mod::lemma_div_nonincreasing(num as int, den as int);
        vstd::arithmetic::div_mod::lemma_div_pos_is_pos(num as int, den as int);
    }
    num / den
}

/// Leaves are well-formed: coordinates in the world square, unit counts,
/// indexes in range.
proof fn lemma_leaves_wf(fs: Seq<FeatureView>)
    requires
        features_in_range(fs),
        fs.len() <= MAX_POINTS,
    ensures
        bounded_arena(leaves_of(fs)),
        wf_arena(leaves_of(fs), fs.len() as int),
{
    assert forall|j: int| 0 <= j < leaves_of(fs).len() implies {
        let c = #[trigger] leaves_of(fs)[j];
        c.x_of() <= 3600000000 && c.y_of() <= 3600000000 && c.count_of() >= 1 && crate::cluster::wf_node(
            c,
            fs.len() as int,
        )
    } by {
        assert(leaves_of(fs)[j] == leaf_of(fs, j));
        crate::proj::lemma_lat_y_range(fs[j].lat_e7);
    }
}

/// The initial arena carries exactly one point per feature.
proof fn lemma_sum_leaves(fs: Seq<FeatureView>)
    ensures
        sum_counts(leaves_of(fs)) == fs.len(),
    decreases fs.len(),
{
    if fs.len() > 0 {
        lemma_sum_leaves(fs.drop_last());
        assert(leaves_of(fs).drop_last() =~= leaves_of(fs.drop_last()));
        assert(leaves_of(fs).last().count_of() == 1);
    }
}

} // verus!
