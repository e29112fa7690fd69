use supercluster::option::DefaultOptions;
use supercluster::proj::{lat_y, lng_x, x_lng, y_lat, HALF_WORLD, WORLD};
use supercluster::{SuperCluster, SuperClusterError};

#[test]
fn longitude_round_trip_is_exact() {
    for lng in [-1800000000i64, -1234567890, -1, 0, 1, 987654321, 1800000000] {
        assert_eq!(x_lng(lng_x(lng)), lng);
    }
}

#[test]
fn latitude_round_trip_is_within_one_unit() {
    for lat in [-849999999i64, -338688000, -1, 0, 1, 377749000, 700000000, 849999999] {
        let rt = y_lat(lat_y(lat));
        assert!((rt - lat).abs() <= 1, "lat {lat} came back as {rt}");
    }
}

#[test]
fn latitude_projection_matches_the_mercator_curve_closely() {
    // compare the fixed-point interpolation with the real formula at a few
    // mid-latitudes: the deviation stays well under one interpolation
    // segment
    for lat_deg in [-60.0f64, -33.8688, 0.0, 10.0, 37.7749, 60.0] {
        let sin = (lat_deg * std::f64::consts::PI / 180.0).sin();
        let y01 = 0.5 - 0.25 * ((1.0 + sin) / (1.0 - sin)).ln() / std::f64::consts::PI;
        let expect = (y01 * WORLD as f64).round() as i64;
        let got = lat_y((lat_deg * 1e7) as i64) as i64;
        assert!(
            (got - expect).abs() < 200000,
            "lat {lat_deg}: interpolated {got}, formula {expect}"
        );
    }
}

#[test]
fn projection_saturates_beyond_the_poles() {
    assert_eq!(lat_y(900000000), 0);
    assert_eq!(lat_y(1500000000), 0);
    assert_eq!(lat_y(-900000000), WORLD);
    assert_eq!(lat_y(-1500000000), WORLD);
    assert_eq!(lat_y(0), HALF_WORLD);
}

#[test]
fn projection_is_monotone_on_a_sample() {
    let mut prev = lat_y(-900000000);
    let mut lat: i64 = -900000000;
    while lat < 900000000 {
        lat += 25000000;
        let y = lat_y(lat);
        assert!(y < prev, "y must strictly decrease as latitude grows");
        prev = y;
    }
}

#[test]
fn default_options_carry_the_documented_values() {
    let o = DefaultOptions::new();
    assert_eq!(o.min_zoom, Some(0));
    assert_eq!(o.max_zoom, Some(16));
    assert_eq!(o.min_points, Some(2));
    assert_eq!(o.radius, Some(40));
    assert_eq!(o.extent, Some(512));
    assert_eq!(o.node_size, Some(64));
    assert_eq!(o.log, Some(false));
    assert_eq!(o.generate_id, Some(false));
}

#[test]
fn merge_overrides_only_the_given_fields() {
    let mut user = DefaultOptions::default();
    user.radius = Some(80);
    user.max_zoom = Some(10);
    let merged = DefaultOptions::new().merge(&user);
    assert_eq!(merged.radius, Some(80));
    assert_eq!(merged.max_zoom, Some(10));
    assert_eq!(merged.min_zoom, Some(0));
    assert_eq!(merged.extent, Some(512));
}

#[test]
fn incoherent_zoom_range_is_rejected_not_clamped() {
    let mut user = DefaultOptions::default();
    user.min_zoom = Some(12);
    user.max_zoom = Some(4);
    match SuperCluster::new(Some(user)) {
        Err(e) => assert_eq!(e, SuperClusterError::InvalidOptions),
        Ok(_) => panic!("the configuration must be rejected"),
    }
}

#[test]
fn zoom_ceiling_beyond_the_id_encoding_is_rejected() {
    let mut user = DefaultOptions::default();
    user.max_zoom = Some(31);
    match SuperCluster::new(Some(user)) {
        Err(e) => assert_eq!(e, SuperClusterError::InvalidOptions),
        Ok(_) => panic!("the configuration must be rejected"),
    }
}

#[test]
fn zero_extent_is_rejected() {
    let mut user = DefaultOptions::default();
    user.extent = Some(0);
    match SuperCluster::new(Some(user)) {
        Err(e) => assert_eq!(e, SuperClusterError::InvalidOptions),
        Ok(_) => panic!("the configuration must be rejected"),
    }
}
