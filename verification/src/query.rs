//! Bounding-box queries against the cluster store.
//!
//! A query names a box in degrees and a zoom level. Longitudes are
//! normalized into [-180, 180] by modular wrap (a right edge of exactly
//! 180 stays 180), latitudes are clamped, a box spanning the whole world
//! collapses to it, and a box crossing the antimeridian splits into an
//! eastern and a western sub-query whose results are concatenated. The
//! selected zoom's spatial index yields the matching nodes in stored
//! order; leaves come back as the original features, aggregates as
//! synthesized cluster records.

use vstd::prelude::*;
use crate::cluster::{coords_of, Cluster};
use crate::index::{range_upto, lemma_range_upto_bounds};
use crate::point::{Feature, FeatureView};
use crate::proj::{lat_y, lat_y_spec, lng_x, lng_x_spec, x_lng, x_lng_spec, y_lat, y_lat_spec};
use crate::{SuperCluster, SuperClusterError};

verus! {

/// One query result: an original source feature or a synthesized cluster
/// record.
#[derive(Debug)]
pub enum QueryFeature {
    /// An unmerged source feature. `id` carries the feature's stable
    /// position when the store was configured with `generate_id`.
    Point { id: Option<u64>, feature: Feature },
    /// An aggregate: its encoded id, how many source points it stands
    /// for, and its inverse-projected centroid.
    Cluster { id: u64, point_count: u64, lng_e7: i64, lat_e7: i64 },
}

/// The mathematical content of one query result.
pub enum QueryFeatureView {
    Point { id: Option<u64>, feature: FeatureView },
    Cluster { id: u64, point_count: u64, lng_e7: int, lat_e7: int },
}

impl View for QueryFeature {
    type V = QueryFeatureView;

    open spec fn view(&self) -> QueryFeatureView {
        match self {
            QueryFeature::Point { id, feature } => QueryFeatureView::Point {
                id: *id,
                feature: feature@,
            },
            QueryFeature::Cluster { id, point_count, lng_e7, lat_e7 } => QueryFeatureView::Cluster {
                id: *id,
                point_count: *point_count,
                lng_e7: *lng_e7 as int,
                lat_e7: *lat_e7 as int,
            },
        }
    }
}

/// A longitude folded into [-180, 180) degrees by modular arithmetic.
pub open spec fn wrap_lng_spec(l: int) -> int {
    (l + 1800000000) % 3600000000 - 1800000000
}

/// A latitude clamped into [-90, 90] degrees.
pub open spec fn clamp_lat_spec(l: int) -> int {
    if l < -900000000 {
        -900000000
    } else if l > 900000000 {
        900000000
    } else {
        l
    }
}

/// What one matched node materializes to: the stored feature for a leaf,
/// a cluster record for an aggregate.
pub open spec fn result_of(s: SuperCluster, c: Cluster) -> QueryFeatureView {
    match c {
        Cluster::PointClusterItem(p) => QueryFeatureView::Point {
            id: if s.options.generate_id->0 {
                Some(p.index as u64)
            } else {
                None
            },
            feature: s.features()[p.index as int],
        },
        Cluster::CreateClusterItem(a) => QueryFeatureView::Cluster {
            id: a.id,
            point_count: a.num_points,
            lng_e7: x_lng_spec(a.x as int),
            lat_e7: y_lat_spec(a.y as int),
        },
    }
}

/// The results of one normalized, non-crossing box at one zoom: the
/// matching nodes of the clamped zoom's slot, in stored order.
pub open spec fn box_query_spec(
    s: SuperCluster,
    min_lng: int,
    min_lat: int,
    max_lng: int,
    max_lat: int,
    zoom: int,
) -> Seq<QueryFeatureView> {
    let zi = s.limit_zoom_spec(zoom);
    let arena = s.slots()[zi];
    let ids = range_upto(
        coords_of(arena),
        lng_x_spec(min_lng) as u64,
        lat_y_spec(max_lat) as u64,
        lng_x_spec(max_lng) as u64,
        lat_y_spec(min_lat) as u64,
        arena.len() as int,
    );
    Seq::new(ids.len(), |k: int| result_of(s, arena[ids[k] as int]))
}

/// The full query: normalization, whole-world collapse, antimeridian
/// split, then one or two box queries.
pub open spec fn query_spec(s: SuperCluster, bbox: Seq<i64>, zoom: int) -> Seq<QueryFeatureView> {
    let min_lng = wrap_lng_spec(bbox[0] as int);
    let min_lat = clamp_lat_spec(bbox[1] as int);
    let max_lng = if bbox[2] == 1800000000 {
        1800000000int
    } else {
        wrap_lng_spec(bbox[2] as int)
    };
    let max_lat = clamp_lat_spec(bbox[3] as int);
    if bbox[2] - bbox[0] >= 3600000000 {
        box_query_spec(s, -1800000000, min_lat, 1800000000, max_lat, zoom)
    } else if min_lng > max_lng {
        box_query_spec(s, min_lng, min_lat, 1800000000, max_lat, zoom) + box_query_spec(
            s,
            -1800000000,
            min_lat,
            max_lng,
            max_lat,
            zoom,
        )
    } else {
        box_query_spec(s, min_lng, min_lat, max_lng, max_lat, zoom)
    }
}

/// Folds a longitude into [-180, 180) degrees.
pub fn wrap_lng(l: i64) -> (r: i64)
    requires
        -1000000000000000000 <= l <= 1000000000000000000,
    ensures
        r as int == wrap_lng_spec(l as int),
        -1800000000 <= r < 1800000000,
{
    let s: i128 = l as i128 + 1800000000 + 1080000000000000000;
    let m: i128 = s % 3600000000;
    proof {
        vstd::arithmetic::div_mod::lemma_mod_multiples_vanish(
            300000000,
            l as int + 1800000000,
            3600000000,
        );
        vstd::arithmetic::div_mod::lemma_mod_division_less_than_divisor(s as int, 3600000000);
        vstd::arithmetic::div_mod::lemma_mod_division_less_than_divisor(
            l as int + 1800000000,
            3600000000,
        );
    }
    (m - 1800000000) as i64
}

/// Clamps a latitude into [-90, 90] degrees.
pub fn clamp_lat(l: i64) -> (r: i64)
    ensures
        r as int == clamp_lat_spec(l as int),
        -900000000 <= r <= 900000000,
{
    if l < -900000000 {
        -900000000
    } else if l > 900000000 {
        900000000
    } else {
        l
    }
}

impl SuperCluster {
    /// One normalized, non-crossing box query at one zoom.
    fn box_query(
        &self,
        min_lng: i64,
        min_lat: i64,
        max_lng: i64,
        max_lat: i64,
        zoom: i8,
    ) -> (res: Vec<QueryFeature>)
        requires
            self.wf(),
            self.loaded(),
            -1800000000 <= min_lng <= 1800000000,
            -1800000000 <= max_lng <= 1800000000,
            -900000000 <= min_lat <= 900000000,
            -900000000 <= max_lat <= 900000000,
        ensures
            res@.map_values(|q: QueryFeature| q@) == box_query_spec(
                *self,
                min_lng as int,
                min_lat as int,
                max_lng as int,
                max_lat as int,
                zoom as int,
            ),
    {
        let zi = self._limit_zoom(zoom);
        let arena = &self.cluster[zi];
        let tree = &self.trees[zi];
        let alen = arena.len();
        proof {
            assert(arena@.len() == alen);
            assert(self.slots()[zi as int] == arena@);
            assert(tree@ == coords_of(arena@));
        }
        let ids = tree.range(lng_x(min_lng), lat_y(max_lat), lng_x(max_lng), lat_y(min_lat));
        let ghost model = box_query_spec(
            *self,
            min_lng as int,
            min_lat as int,
            max_lng as int,
            max_lat as int,
            zoom as int,
        );
        proof {
            lemma_range_upto_bounds(
                coords_of(arena@),
                lng_x_spec(min_lng as int) as u64,
                lat_y_spec(max_lat as int) as u64,
                lng_x_spec(max_lng as int) as u64,
                lat_y_spec(min_lat as int) as u64,
                arena@.len() as int,
            );
            assert(model.len() == ids@.len());
        }
        let mut res: Vec<QueryFeature> = Vec::new();
        let mut k: usize = 0;
        while k < ids.len()
            invariant
                self.wf(),
                self.loaded(),
                k <= ids@.len(),
                res@.len() == k,
                zi < self.cluster@.len(),
                arena@ == self.cluster@[zi as int]@,
                forall|m: int| 0 <= m < ids@.len() ==> 0 <= #[trigger] ids@[m] < arena@.len(),
                model.len() == ids@.len(),
                forall|m: int|
                    0 <= m < ids@.len() ==> #[trigger] model[m] == result_of(
                        *self,
                        arena@[ids@[m] as int],
                    ),
                forall|m: int| 0 <= m < k ==> #[trigger] res@[m]@ == model[m],
            decreases ids@.len() - k,
        {
            let id = ids[k];
            let c = &arena[id];
            proof {
                assert(self.slots()[zi as int] == arena@);
                assert(crate::cluster::wf_arena(
                    self.slots()[zi as int],
                    self.points->0@.len() as int,
                ) && crate::cluster::bounded_arena(self.slots()[zi as int]));
                assert(crate::cluster::wf_node(arena@[id as int], self.points->0@.len() as int));
                assert(arena@[id as int].x_of() <= 3600000000);
            }
            match c {
                Cluster::PointClusterItem(p) => {
                    let pts = self.points.as_ref().unwrap();
                    let f = pts[p.index].duplicate();
                    let gid: Option<u64> = if self.options.generate_id.unwrap() {
                        Some(p.index as u64)
                    } else {
                        None
                    };
                    res.push(QueryFeature::Point { id: gid, feature: f });
                    proof {
                        assert(self.features()[p.index as int] == self.points->0@[p.index as int]@);
                    }
                }
                Cluster::CreateClusterItem(a) => {
                    res.push(
                        QueryFeature::Cluster {
                            id: a.id,
                            point_count: a.num_points,
                            lng_e7: x_lng(a.x),
                            lat_e7: y_lat(a.y),
                        },
                    );
                }
            }
            proof {
                assert(res@[k as int]@ == model[k as int]);
            }
            k = k + 1;
        }
        proof {
            assert(res@.map_values(|q: QueryFeature| q@) =~= model);
        }
        res
    }

    /// Answers "what renders at this zoom inside this box". Fails with
    /// `NotLoaded` before the first successful load; otherwise returns the
    /// box's features in stored index order, per the normalization and
    /// antimeridian rules of `query_spec`. The result depends only on the
    /// store's contents and the arguments, so repeating a query on an
    /// unchanged store repeats its answer.
    pub fn get_clusters(&self, bbox: [i64; 4], zoom: i8) -> (r: Result<
        Vec<QueryFeature>,
        SuperClusterError,
    >)
        requires
            self.wf(),
            forall|k: int| 0 <= k < 4 ==> -1000000000000000000 <= #[trigger] bbox@[k]
                <= 1000000000000000000,
        ensures
            match r {
                Result::Ok(v) => self.loaded() && v@.map_values(|q: QueryFeature| q@) == query_spec(
                    *self,
                    bbox@,
                    zoom as int,
                ),
                Result::Err(e) => !self.loaded() && e == SuperClusterError::NotLoaded,
            },
    {
        if self.points.is_none() {
            return Err(SuperClusterError::NotLoaded);
        }
        let min_lng = wrap_lng(bbox[0]);
        let min_lat = clamp_lat(bbox[1]);
        let max_lng = if bbox[2] == 1800000000 {
            1800000000
        } else {
            wrap_lng(bbox[2])
        };
        let max_lat = clamp_lat(bbox[3]);
        if bbox[2] - bbox[0] >= 3600000000 {
            Ok(self.box_query(-1800000000, min_lat, 1800000000, max_lat, zoom))
        } else if min_lng > max_lng {
            let mut east = self.box_query(min_lng, min_lat, 1800000000, max_lat, zoom);
            let ghost east0 = east@;
            let mut west = self.box_query(-1800000000, min_lat, max_lng, max_lat, zoom);
            let ghost west0 = west@;
            east.append(&mut west);
            proof {
                assert(east@ == east0 + west0);
                assert(east@.map_values(|q: QueryFeature| q@) =~= east0.map_values(
                    |q: QueryFeature| q@,
                ) + west0.map_values(|q: QueryFeature| q@));
            }
            Ok(east)
        } else {
            Ok(self.box_query(min_lng, min_lat, max_lng, max_lat, zoom))
        }
    }
}

} // verus!
