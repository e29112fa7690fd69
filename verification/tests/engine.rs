use supercluster::option::DefaultOptions;
use supercluster::point::{Feature, Geometry};
use supercluster::query::QueryFeature;
use supercluster::{SuperCluster, SuperClusterError};

fn feat(lng_e7: i64, lat_e7: i64) -> Feature {
    Feature { geometry: Geometry { lng_e7, lat_e7 }, properties: Vec::new() }
}

fn default_store() -> SuperCluster {
    SuperCluster::new(None).unwrap()
}

const WORLD_BOX: [i64; 4] = [-1800000000, -900000000, 1800000000, 900000000];

#[test]
fn two_near_points_collapse_to_one_aggregate_at_zoom_zero() {
    let mut sc = default_store();
    // (0, 0) and (0.0001, 0.0001) degrees
    sc.load(vec![feat(0, 0), feat(1000, 1000)]).unwrap();
    let res = sc.get_clusters(WORLD_BOX, 0).unwrap();
    assert_eq!(res.len(), 1);
    match &res[0] {
        QueryFeature::Cluster { point_count, .. } => assert_eq!(*point_count, 2),
        QueryFeature::Point { .. } => panic!("expected an aggregate"),
    }
}

#[test]
fn two_near_points_stay_separate_above_max_zoom() {
    let mut sc = default_store();
    sc.load(vec![feat(0, 0), feat(1000, 1000)]).unwrap();
    // max_zoom defaults to 16, so 17 is the unclustered level
    let res = sc.get_clusters(WORLD_BOX, 17).unwrap();
    assert_eq!(res.len(), 2);
    for r in &res {
        assert!(matches!(r, QueryFeature::Point { .. }));
    }
}

#[test]
fn box_not_containing_the_point_returns_nothing() {
    let mut sc = default_store();
    // one feature at (10, 10) degrees
    sc.load(vec![feat(100000000, 100000000)]).unwrap();
    for z in [0i8, 3, 8, 16, 17] {
        let res = sc.get_clusters([200000000, -500000000, 600000000, 500000000], z).unwrap();
        assert_eq!(res.len(), 0, "zoom {z}");
    }
}

#[test]
fn points_exactly_radius_apart_merge() {
    // radius 40 px, extent 512, zoom 2: the merge radius is
    // 40 * 3600000000 / (512 * 4) = 70312500 world units exactly.
    let mut sc = default_store();
    sc.load(vec![feat(0, 0), feat(70312500, 0)]).unwrap();
    let res = sc.get_clusters(WORLD_BOX, 2).unwrap();
    assert_eq!(res.len(), 1);
    match &res[0] {
        QueryFeature::Cluster { point_count, .. } => assert_eq!(*point_count, 2),
        QueryFeature::Point { .. } => panic!("boundary distance must merge"),
    }
}

#[test]
fn points_one_unit_beyond_radius_stay_separate() {
    let mut sc = default_store();
    sc.load(vec![feat(0, 0), feat(70312501, 0)]).unwrap();
    let res = sc.get_clusters(WORLD_BOX, 2).unwrap();
    assert_eq!(res.len(), 2);
    for r in &res {
        assert!(matches!(r, QueryFeature::Point { .. }));
    }
}

#[test]
fn centroid_weights_prior_aggregates_by_point_count() {
    // p1 and p2 (0.001 degrees apart) merge around zoom 14 into a pair;
    // the pair then absorbs p3 at zoom 4. The centroid must weight the
    // pair by 2, not by 1: (2 * 5000 + 10000000) / 3 relative to p1.
    let mut sc = default_store();
    sc.load(vec![feat(0, 0), feat(10000, 0), feat(10000000, 0)]).unwrap();
    let res = sc.get_clusters(WORLD_BOX, 4).unwrap();
    assert_eq!(res.len(), 1);
    match &res[0] {
        QueryFeature::Cluster { id, point_count, lng_e7, lat_e7 } => {
            assert_eq!(*point_count, 3);
            assert_eq!(*lng_e7, 3336666);
            assert_eq!(*lat_e7, 0);
            // the id encodes (trigger position 0, zoom 4): 0 * 32 + 4 + 1
            assert_eq!(*id, 5);
        }
        QueryFeature::Point { .. } => panic!("expected an aggregate"),
    }
    // one level finer the pair is still separate from p3
    let res5 = sc.get_clusters(WORLD_BOX, 5).unwrap();
    assert_eq!(res5.len(), 2);
    let mut pair_seen = false;
    let mut single_seen = false;
    for r in &res5 {
        match r {
            QueryFeature::Cluster { id, point_count, lng_e7, .. } => {
                assert_eq!(*point_count, 2);
                assert_eq!(*lng_e7, 5000);
                // (trigger position 0, zoom 14): 0 * 32 + 14 + 1
                assert_eq!(*id, 15);
                pair_seen = true;
            }
            QueryFeature::Point { feature, .. } => {
                assert_eq!(feature.geometry.lng_e7, 10000000);
                single_seen = true;
            }
        }
    }
    assert!(pair_seen && single_seen);
}

#[test]
fn population_is_conserved_at_every_zoom() {
    let mut sc = default_store();
    let mut pts = Vec::new();
    // a spread of points, some in tight pairs, some alone
    for k in 0..10i64 {
        pts.push(feat(k * 50000000, k * 20000000));
        pts.push(feat(k * 50000000 + 2000, k * 20000000 + 2000));
    }
    sc.load(pts).unwrap();
    for z in 0i8..=17 {
        let res = sc.get_clusters(WORLD_BOX, z).unwrap();
        let total: u64 = res
            .iter()
            .map(|r| match r {
                QueryFeature::Point { .. } => 1,
                QueryFeature::Cluster { point_count, .. } => *point_count,
            })
            .sum();
        assert_eq!(total, 20, "zoom {z}");
    }
}

#[test]
fn antimeridian_box_equals_union_of_its_halves() {
    let mut sc = default_store();
    // one point on each side of the 180th meridian, one far away
    sc.load(vec![feat(1750000000, 0), feat(-1750000000, 0), feat(0, 0)]).unwrap();
    for z in [0i8, 5, 17] {
        let crossing = sc.get_clusters([1700000000, -100000000, -1700000000, 100000000], z).unwrap();
        let east = sc.get_clusters([1700000000, -100000000, 1800000000, 100000000], z).unwrap();
        let west = sc.get_clusters([-1800000000, -100000000, -1700000000, 100000000], z).unwrap();
        assert_eq!(crossing.len(), east.len() + west.len());
        assert_eq!(crossing.len(), 2);
        let lng_of = |r: &QueryFeature| match r {
            QueryFeature::Point { feature, .. } => feature.geometry.lng_e7,
            QueryFeature::Cluster { lng_e7, .. } => *lng_e7,
        };
        let mut got: Vec<i64> = crossing.iter().map(&lng_of).collect();
        let mut want: Vec<i64> = east.iter().chain(west.iter()).map(&lng_of).collect();
        got.sort();
        want.sort();
        assert_eq!(got, want);
    }
}

#[test]
fn querying_twice_returns_identical_results() {
    let mut sc = default_store();
    sc.load(vec![feat(0, 0), feat(1000, 1000), feat(100000000, -200000000)]).unwrap();
    for z in [0i8, 7, 17] {
        let a = sc.get_clusters([-300000000, -300000000, 300000000, 300000000], z).unwrap();
        let b = sc.get_clusters([-300000000, -300000000, 300000000, 300000000], z).unwrap();
        assert_eq!(a.len(), b.len());
        for (x, y) in a.iter().zip(b.iter()) {
            match (x, y) {
                (
                    QueryFeature::Point { id: i1, feature: f1 },
                    QueryFeature::Point { id: i2, feature: f2 },
                ) => {
                    assert_eq!(i1, i2);
                    assert_eq!(f1.geometry.lng_e7, f2.geometry.lng_e7);
                    assert_eq!(f1.geometry.lat_e7, f2.geometry.lat_e7);
                    assert_eq!(f1.properties, f2.properties);
                }
                (
                    QueryFeature::Cluster { id: i1, point_count: c1, lng_e7: g1, lat_e7: t1 },
                    QueryFeature::Cluster { id: i2, point_count: c2, lng_e7: g2, lat_e7: t2 },
                ) => {
                    assert_eq!(i1, i2);
                    assert_eq!(c1, c2);
                    assert_eq!(g1, g2);
                    assert_eq!(t1, t2);
                }
                _ => panic!("result kinds differ between identical queries"),
            }
        }
    }
}

#[test]
fn a_box_spanning_the_whole_world_returns_everything() {
    let mut sc = default_store();
    sc.load(vec![feat(1790000000, 0), feat(-1790000000, 0)]).unwrap();
    // raw span of 400 degrees collapses to the whole world
    let res = sc.get_clusters([-2000000000, -900000000, 2000000000, 900000000], 17).unwrap();
    assert_eq!(res.len(), 2);
}

#[test]
fn query_before_load_reports_not_loaded() {
    let sc = default_store();
    assert_eq!(sc.get_clusters(WORLD_BOX, 0).unwrap_err(), SuperClusterError::NotLoaded);
}

#[test]
fn out_of_range_feature_rejects_the_whole_load() {
    let mut sc = default_store();
    let r = sc.load(vec![feat(0, 0), feat(1900000000, 0)]);
    assert_eq!(r.unwrap_err(), SuperClusterError::InvalidFeature);
    // the store is still unloaded
    assert_eq!(sc.get_clusters(WORLD_BOX, 0).unwrap_err(), SuperClusterError::NotLoaded);
}

#[test]
fn leaf_output_returns_the_original_feature() {
    let mut sc = default_store();
    let mut f = feat(123456789, -887654321);
    f.properties.push(("name".to_string(), "lighthouse".to_string()));
    sc.load(vec![f]).unwrap();
    let res = sc.get_clusters(WORLD_BOX, 17).unwrap();
    assert_eq!(res.len(), 1);
    match &res[0] {
        QueryFeature::Point { id, feature } => {
            assert_eq!(*id, None);
            assert_eq!(feature.geometry.lng_e7, 123456789);
            assert_eq!(feature.geometry.lat_e7, -887654321);
            assert_eq!(feature.properties.len(), 1);
            assert_eq!(feature.properties[0].0, "name");
            assert_eq!(feature.properties[0].1, "lighthouse");
        }
        QueryFeature::Cluster { .. } => panic!("expected the original feature"),
    }
}

#[test]
fn generate_id_gives_leaves_their_position_as_id() {
    let mut opts = DefaultOptions::default();
    opts.generate_id = Some(true);
    let mut sc = SuperCluster::new(Some(opts)).unwrap();
    sc.load(vec![feat(0, 0), feat(900000000, 0)]).unwrap();
    let res = sc.get_clusters(WORLD_BOX, 17).unwrap();
    assert_eq!(res.len(), 2);
    let mut ids: Vec<Option<u64>> = res
        .iter()
        .map(|r| match r {
            QueryFeature::Point { id, .. } => *id,
            QueryFeature::Cluster { .. } => panic!("no clustering above max_zoom"),
        })
        .collect();
    ids.sort();
    assert_eq!(ids, vec![Some(0), Some(1)]);
}

#[test]
fn min_points_threshold_prevents_small_groups_from_merging() {
    let mut opts = DefaultOptions::default();
    opts.min_points = Some(5);
    let mut sc = SuperCluster::new(Some(opts)).unwrap();
    sc.load(vec![feat(0, 0), feat(1000, 0), feat(2000, 0)]).unwrap();
    let res = sc.get_clusters(WORLD_BOX, 0).unwrap();
    assert_eq!(res.len(), 3);
    for r in &res {
        assert!(matches!(r, QueryFeature::Point { .. }));
    }
}

#[test]
fn min_points_of_one_still_needs_two_contributors() {
    let mut opts = DefaultOptions::default();
    opts.min_points = Some(1);
    let mut sc = SuperCluster::new(Some(opts)).unwrap();
    // two far-apart points: no singleton aggregates may appear
    sc.load(vec![feat(-900000000, 0), feat(900000000, 0)]).unwrap();
    let res = sc.get_clusters(WORLD_BOX, 0).unwrap();
    assert_eq!(res.len(), 2);
    for r in &res {
        assert!(matches!(r, QueryFeature::Point { .. }));
    }
}

#[test]
fn empty_load_yields_empty_queries() {
    let mut sc = default_store();
    sc.load(Vec::new()).unwrap();
    for z in [0i8, 8, 17] {
        assert_eq!(sc.get_clusters(WORLD_BOX, z).unwrap().len(), 0);
    }
}

#[test]
fn a_new_load_replaces_the_previous_store() {
    let mut sc = default_store();
    sc.load(vec![feat(0, 0), feat(1000, 1000)]).unwrap();
    sc.load(vec![feat(500000000, 500000000)]).unwrap();
    let res = sc.get_clusters(WORLD_BOX, 17).unwrap();
    assert_eq!(res.len(), 1);
    match &res[0] {
        QueryFeature::Point { feature, .. } => assert_eq!(feature.geometry.lng_e7, 500000000),
        QueryFeature::Cluster { .. } => panic!("expected the single new feature"),
    }
}

#[test]
fn zoom_requests_are_clamped_into_the_stored_range() {
    let mut sc = default_store();
    sc.load(vec![feat(0, 0), feat(1000, 1000)]).unwrap();
    // far below the range: same as min_zoom
    let low = sc.get_clusters(WORLD_BOX, -5).unwrap();
    assert_eq!(low.len(), 1);
    // far above: same as max_zoom + 1, the unclustered level
    let high = sc.get_clusters(WORLD_BOX, 90).unwrap();
    assert_eq!(high.len(), 2);
}

#[test]
fn out_of_range_box_is_normalized_not_rejected() {
    let mut sc = default_store();
    // a point at (-165, 0); the raw box [190, -100, 200, 100] wraps to
    // [-170, -90, -160, 90]
    sc.load(vec![feat(-1650000000, 0)]).unwrap();
    let res = sc.get_clusters([1900000000, -1000000000, 2000000000, 1000000000], 17).unwrap();
    assert_eq!(res.len(), 1);
}

#[test]
fn a_degenerate_box_still_matches_its_own_point() {
    let mut sc = default_store();
    sc.load(vec![feat(0, 0)]).unwrap();
    // the box edges are closed, so a zero-area box on the point matches it
    let res = sc.get_clusters([0, 0, 0, 0], 17).unwrap();
    assert_eq!(res.len(), 1);
}
