//! Geographic-to-planar projection in fixed-point integers.
//!
//! The world is a square tile space of `WORLD` x `WORLD` units, the planar
//! image of longitude/latitude under a Web-Mercator-style projection. One
//! unit equals 1e-7 degree of longitude, so the longitude axis maps exactly:
//! `x = lng_e7 + WORLD/2`. The latitude axis follows the Mercator curve
//! `y = 1/2 - ln(tan(pi/4 + lat/2)) / (2*pi)` (scaled by `WORLD`), realized
//! here as a monotone piecewise-linear fixed-point interpolation over
//! one-degree segments; out-of-range latitudes saturate at the edges of the
//! square rather than escaping it. The inverse interpolation walks the same
//! table, which yields an exact round trip for longitude and a round trip
//! within one unit (1e-7 degree) for latitude, proved below.

use vstd::prelude::*;
use vstd::arithmetic::div_mod::{
    lemma_fundamental_div_mod,
    lemma_div_is_ordered,
    lemma_div_pos_is_pos,
};

verus! {

/// Width and height of the projected world square, in fixed-point units.
pub const WORLD: u64 = 3600000000;

/// Half the world: the x coordinate of longitude 0 and the y coordinate of
/// latitude 0.
pub const HALF_WORLD: u64 = 1800000000;

/// Width of one latitude interpolation segment: 1 degree in 1e-7 units.
pub const LAT_SEG: u64 = 10000000;

/// The projected y of latitude `k` degrees, for `k` in `[0, 90]`:
/// `round(WORLD * (1/2 - ln(tan(pi/4 + lat/2)) / (2*pi)))`. Above 85
/// degrees the curve leaves the world square, so the last entries descend
/// linearly to 0 at the pole: the saturation zone.
pub open spec fn merc_table(k: int) -> int {
    if k <= 0 {
        1800000000
    } else if k == 1 {
        1789999492
    } else if k == 2 {
        1779995937
    } else if k == 3 {
        1769986283
    } else if k == 4 {
        1759967468
    } else if k == 5 {
        1749936417
    } else if k == 6 {
        1739890036
    } else if k == 7 {
        1729825208
    } else if k == 8 {
        1719738786
    } else if k == 9 {
        1709627590
    } else if k == 10 {
        1699488403
    } else if k == 11 {
        1689317963
    } else if k == 12 {
        1679112957
    } else if k == 13 {
        1668870019
    } else if k == 14 {
        1658585721
    } else if k == 15 {
        1648256570
    } else if k == 16 {
        1637878996
    } else if k == 17 {
        1627449351
    } else if k == 18 {
        1616963900
    } else if k == 19 {
        1606418813
    } else if k == 20 {
        1595810158
    } else if k == 21 {
        1585133891
    } else if k == 22 {
        1574385850
    } else if k == 23 {
        1563561743
    } else if k == 24 {
        1552657141
    } else if k == 25 {
        1541667465
    } else if k == 26 {
        1530587975
    } else if k == 27 {
        1519413759
    } else if k == 28 {
        1508139719
    } else if k == 29 {
        1496760557
    } else if k == 30 {
        1485270763
    } else if k == 31 {
        1473664592
    } else if k == 32 {
        1461936054
    } else if k == 33 {
        1450078891
    } else if k == 34 {
        1438086556
    } else if k == 35 {
        1425952193
    } else if k == 36 {
        1413668609
    } else if k == 37 {
        1401228253
    } else if k == 38 {
        1388623180
    } else if k == 39 {
        1375845026
    } else if k == 40 {
        1362884968
    } else if k == 41 {
        1349733687
    } else if k == 42 {
        1336381328
    } else if k == 43 {
        1322817450
    } else if k == 44 {
        1309030975
    } else if k == 45 {
        1295010133
    } else if k == 46 {
        1280742395
    } else if k == 47 {
        1266214404
    } else if k == 48 {
        1251411896
    } else if k == 49 {
        1236319610
    } else if k == 50 {
        1220921189
    } else if k == 51 {
        1205199065
    } else if k == 52 {
        1189134337
    } else if k == 53 {
        1172706624
    } else if k == 54 {
        1155893901
    } else if k == 55 {
        1138672315
    } else if k == 56 {
        1121015969
    } else if k == 57 {
        1102896679
    } else if k == 58 {
        1084283688
    } else if k == 59 {
        1065143343
    } else if k == 60 {
        1045438707
    } else if k == 61 {
        1025129118
    } else if k == 62 {
        1004169662
    } else if k == 63 {
        982510552
    } else if k == 64 {
        960096394
    } else if k == 65 {
        936865302
    } else if k == 66 {
        912747837
    } else if k == 67 {
        887665722
    } else if k == 68 {
        861530264
    } else if k == 69 {
        834240414
    } else if k == 70 {
        805680355
    } else if k == 71 {
        775716465
    } else if k == 72 {
        744193462
    } else if k == 73 {
        710929449
    } else if k == 74 {
        675709445
    } else if k == 75 {
        638276835
    } else if k == 76 {
        598321867
    } else if k == 77 {
        555465866
    } else if k == 78 {
        509239130
    } else if k == 79 {
        459049179
    } else if k == 80 {
        404133833
    } else if k == 81 {
        343489469
    } else if k == 82 {
        275756867
    } else if k == 83 {
        199030409
    } else if k == 84 {
        110519213
    } else if k == 85 {
        5896493
    } else if k == 86 {
        4717194
    } else if k == 87 {
        3537896
    } else if k == 88 {
        2358597
    } else if k == 89 {
        1179299
    } else {
        0
    }
}

/// The table strictly decreases, stays inside `[0, HALF_WORLD]`, and up to
/// 85 degrees every segment spans at least `LAT_SEG` units of y (the
/// Mercator curve stretches y away from the equator).
pub proof fn lemma_merc_table()
    ensures
        forall|k: int| 0 <= k <= 89 ==> #[trigger] merc_table(k) > merc_table(k + 1),
        forall|k: int| #[trigger] merc_table(k) <= 1800000000,
        forall|k: int| #[trigger] merc_table(k) >= 0,
        forall|k: int| 0 <= k <= 84 ==> #[trigger] merc_table(k) - merc_table(k + 1) >= 10000000,
{
}

/// Exact projection of longitude: a shift onto `[0, WORLD]`.
pub open spec fn lng_x_spec(lng: int) -> int {
    lng + 1800000000
}

/// Exact inverse projection of x.
pub open spec fn x_lng_spec(x: int) -> int {
    x - 1800000000
}

/// Projected y of a nonnegative latitude below the pole: linear
/// interpolation inside the latitude's one-degree segment.
pub open spec fn north_y_spec(lat: int) -> int
    recommends
        0 <= lat < 900000000,
{
    let k = lat / 10000000;
    let d = lat % 10000000;
    merc_table(k) - d * (merc_table(k) - merc_table(k + 1)) / 10000000
}

/// Projected y of any latitude; out-of-range latitudes saturate to the
/// edges of the world square. Southern latitudes mirror northern ones.
pub open spec fn lat_y_spec(lat: int) -> int {
    if lat >= 900000000 {
        0
    } else if lat <= -900000000 {
        3600000000
    } else if lat >= 0 {
        north_y_spec(lat)
    } else {
        3600000000 - north_y_spec(-lat)
    }
}

/// The segment whose y span contains `y`: the least `j' >= j` with
/// `y > merc_table(j' + 1)`, capped at 89.
pub open spec fn seg_of_spec(y: int, j: int) -> int
    decreases 89 - j,
{
    if j >= 89 {
        89
    } else if y > merc_table(j + 1) {
        j
    } else {
        seg_of_spec(y, j + 1)
    }
}

/// Latitude of a y coordinate in the northern half (`0 < y <= HALF_WORLD`):
/// inverse interpolation inside the segment found by `seg_of_spec`.
pub open spec fn north_lat_spec(y: int) -> int
    recommends
        0 < y <= 1800000000,
{
    let k = seg_of_spec(y, 0);
    k * 10000000 + (merc_table(k) - y) * 10000000 / (merc_table(k) - merc_table(k + 1))
}

/// Latitude of any y; out-of-range y saturates to the poles.
pub open spec fn y_lat_spec(y: int) -> int {
    if y <= 0 {
        900000000
    } else if y >= 3600000000 {
        -900000000
    } else if y <= 1800000000 {
        north_lat_spec(y)
    } else {
        -north_lat_spec(3600000000 - y)
    }
}

/// Projects a longitude in `[-180, 180]` degrees onto the x axis.
pub fn lng_x(lng: i64) -> (x: u64)
    requires
        -1800000000 <= lng <= 1800000000,
    ensures
        x == lng_x_spec(lng as int),
        x <= WORLD,
{
    (lng + 1800000000) as u64
}

/// Inverse projection of an x coordinate inside the world square.
pub fn x_lng(x: u64) -> (lng: i64)
    requires
        x <= WORLD,
    ensures
        lng == x_lng_spec(x as int),
        -1800000000 <= lng <= 1800000000,
{
    (x as i64) - 1800000000
}

/// The table entry `merc_table(k)`.
fn table_y(k: usize) -> (v: u64)
    ensures
        v == merc_table(k as int),
{
    if k == 0 {
        1800000000
    } else if k == 1 {
        1789999492
    } else if k == 2 {
        1779995937
    } else if k == 3 {
        1769986283
    } else if k == 4 {
        1759967468
    } else if k == 5 {
        1749936417
    } else if k == 6 {
        1739890036
    } else if k == 7 {
        1729825208
    } else if k == 8 {
        1719738786
    } else if k == 9 {
        1709627590
    } else if k == 10 {
        1699488403
    } else if k == 11 {
        1689317963
    } else if k == 12 {
        1679112957
    } else if k == 13 {
        1668870019
    } else if k == 14 {
        1658585721
    } else if k == 15 {
        1648256570
    } else if k == 16 {
        1637878996
    } else if k == 17 {
        1627449351
    } else if k == 18 {
        1616963900
    } else if k == 19 {
        1606418813
    } else if k == 20 {
        1595810158
    } else if k == 21 {
        1585133891
    } else if k == 22 {
        1574385850
    } else if k == 23 {
        1563561743
    } else if k == 24 {
        1552657141
    } else if k == 25 {
        1541667465
    } else if k == 26 {
        1530587975
    } else if k == 27 {
        1519413759
    } else if k == 28 {
        1508139719
    } else if k == 29 {
        1496760557
    } else if k == 30 {
        1485270763
    } else if k == 31 {
        1473664592
    } else if k == 32 {
        1461936054
    } else if k == 33 {
        1450078891
    } else if k == 34 {
        1438086556
    } else if k == 35 {
        1425952193
    } else if k == 36 {
        1413668609
    } else if k == 37 {
        1401228253
    } else if k == 38 {
        1388623180
    } else if k == 39 {
        1375845026
    } else if k == 40 {
        1362884968
    } else if k == 41 {
        1349733687
    } else if k == 42 {
        1336381328
    } else if k == 43 {
        1322817450
    } else if k == 44 {
        1309030975
    } else if k == 45 {
        1295010133
    } else if k == 46 {
        1280742395
    } else if k == 47 {
        1266214404
    } else if k == 48 {
        1251411896
    } else if k == 49 {
        1236319610
    } else if k == 50 {
        1220921189
    } else if k == 51 {
        1205199065
    } else if k == 52 {
        1189134337
    } else if k == 53 {
        1172706624
    } else if k == 54 {
        1155893901
    } else if k == 55 {
        1138672315
    } else if k == 56 {
        1121015969
    } else if k == 57 {
        1102896679
    } else if k == 58 {
        1084283688
    } else if k == 59 {
        1065143343
    } else if k == 60 {
        1045438707
    } else if k == 61 {
        1025129118
    } else if k == 62 {
        1004169662
    } else if k == 63 {
        982510552
    } else if k == 64 {
        960096394
    } else if k == 65 {
        936865302
    } else if k == 66 {
        912747837
    } else if k == 67 {
        887665722
    } else if k == 68 {
        861530264
    } else if k == 69 {
        834240414
    } else if k == 70 {
        805680355
    } else if k == 71 {
        775716465
    } else if k == 72 {
        744193462
    } else if k == 73 {
        710929449
    } else if k == 74 {
        675709445
    } else if k == 75 {
        638276835
    } else if k == 76 {
        598321867
    } else if k == 77 {
        555465866
    } else if k == 78 {
        509239130
    } else if k == 79 {
        459049179
    } else if k == 80 {
        404133833
    } else if k == 81 {
        343489469
    } else if k == 82 {
        275756867
    } else if k == 83 {
        199030409
    } else if k == 84 {
        110519213
    } else if k == 85 {
        5896493
    } else if k == 86 {
        4717194
    } else if k == 87 {
        3537896
    } else if k == 88 {
        2358597
    } else if k == 89 {
        1179299
    } else {
        0
    }
}

/// Projects a latitude onto the y axis; latitudes beyond the poles
/// saturate to the edges of the world square.
pub fn lat_y(lat: i64) -> (y: u64)
    ensures
        y == lat_y_spec(lat as int),
        y <= WORLD,
{
    proof {
        lemma_merc_table();
    }
    if lat >= 900000000 {
        0
    } else if lat <= -900000000 {
        WORLD
    } else if lat >= 0 {
        north_y(lat as u64)
    } else {
        let ny = north_y((-lat) as u64);
        WORLD - ny
    }
}

/// Interpolated y for a nonnegative latitude below the pole.
fn north_y(lat: u64) -> (y: u64)
    requires
        lat < 900000000,
    ensures
        y == north_y_spec(lat as int),
        y <= 1800000000,
{
    proof {
        lemma_merc_table();
    }
    let k = lat / LAT_SEG;
    let d = lat % LAT_SEG;
    assert(k <= 89) by {
        lemma_div_is_ordered(lat as int, 899999999, 10000000);
    }
    let t0 = table_y(k as usize);
    let t1 = table_y(k as usize + 1);
    let q = t0 - t1;
    proof {
        assert(d < 10000000);
        assert(d * q <= 10000000 * 1800000000) by (nonlinear_arith)
            requires
                0 <= d <= 10000000,
                0 <= q <= 1800000000,
        ;
    }
    let dy = d * q / LAT_SEG;
    proof {
        lemma_interp_bounds(d as int, 10000000, q as int);
    }
    t0 - dy
}

/// Inverse projection of a y coordinate; y beyond the world square
/// saturates to the poles.
pub fn y_lat(y: u64) -> (lat: i64)
    ensures
        lat == y_lat_spec(y as int),
        -900000000 <= lat <= 900000000,
{
    proof {
        lemma_merc_table();
    }
    if y == 0 {
        900000000
    } else if y >= WORLD {
        -900000000
    } else if y <= HALF_WORLD {
        north_lat(y)
    } else {
        let nl = north_lat(WORLD - y);
        -nl
    }
}

/// Latitude of a y in the northern half of the world square.
fn north_lat(y: u64) -> (lat: i64)
    requires
        0 < y <= 1800000000,
    ensures
        lat == north_lat_spec(y as int),
        0 <= lat < 900000000,
{
    proof {
        lemma_merc_table();
    }
    let mut k: usize = 0;
    let mut t1: u64 = table_y(1);
    while k < 89 && y <= t1
        invariant
            k <= 89,
            t1 == merc_table(k as int + 1),
            seg_of_spec(y as int, 0) == seg_of_spec(y as int, k as int),
        decreases 89 - k,
    {
        k = k + 1;
        t1 = table_y(k + 1);
    }
    assert(seg_of_spec(y as int, k as int) == k);
    let t0: u64 = table_y(k);
    assert(y <= t0) by {
        lemma_seg_upper(y as int, k as int);
    }
    assert(y > merc_table(k as int + 1));
    let q: u64 = t0 - t1;
    let e: u64 = (t0 - y) * LAT_SEG / q;
    proof {
        lemma_interp_bounds((t0 - y) as int, q as int, 10000000);
    }
    (k as i64) * 10000000 + (e as i64)
}

/// If `y` lies above the start of the scan, the scan never runs past a
/// segment containing `y`: `y <= merc_table(j)` for every `j` at or before
/// the found segment.
proof fn lemma_seg_upper(y: int, k: int)
    requires
        0 <= k <= 89,
        seg_of_spec(y, 0) == k,
        y <= merc_table(0),
    ensures
        y <= merc_table(k),
    decreases k,
{
    if k > 0 {
        lemma_seg_upper_from(y, 0, k);
    }
}

/// The scan never returns a segment before its starting point, and caps at
/// the last segment.
proof fn lemma_seg_of_ge(y: int, j: int)
    ensures
        seg_of_spec(y, j) >= j || seg_of_spec(y, j) == 89,
        j <= 89 ==> j <= seg_of_spec(y, j) <= 89,
    decreases 89 - j,
{
    if j >= 89 {
    } else if y > merc_table(j + 1) {
    } else {
        lemma_seg_of_ge(y, j + 1);
    }
}

/// Helper: walking the scan from `j` to its result `k` shows
/// `y <= merc_table(k)`.
proof fn lemma_seg_upper_from(y: int, j: int, k: int)
    requires
        0 <= j <= k <= 89,
        seg_of_spec(y, j) == k,
        y <= merc_table(j),
    ensures
        y <= merc_table(k),
    decreases 89 - j,
{
    if j < 89 {
        if y > merc_table(j + 1) {
            // the scan stops here, so k == j
        } else {
            lemma_seg_of_ge(y, j + 1);
            lemma_seg_upper_from(y, j + 1, k);
        }
    }
}

/// The table is non-increasing between any two positions, not only
/// adjacent ones.
proof fn lemma_merc_ge(a: int, b: int)
    requires
        a <= b,
    ensures
        merc_table(a) >= merc_table(b),
    decreases b - a,
{
    lemma_merc_table();
    if a < b {
        if b > 90 {
            assert(merc_table(b) == 0);
        } else {
            lemma_merc_ge(a, b - 1);
        }
    }
}

/// The scan started at or before segment `k` finds exactly `k` when `y`
/// lies in segment `k`'s y span.
proof fn lemma_seg_of_finds(y: int, j: int, k: int)
    requires
        0 <= j <= k <= 89,
        merc_table(k + 1) < y <= merc_table(k),
    ensures
        seg_of_spec(y, j) == k,
    decreases k - j,
{
    lemma_merc_table();
    if j == k {
    } else {
        lemma_merc_ge(j + 1, k);
        lemma_seg_of_finds(y, j + 1, k);
    }
}

/// Round trip through one interpolation segment: projecting a latitude
/// strictly below 85 degrees and inverting lands within one unit below it.
proof fn lemma_north_round_trip(lat: int)
    requires
        0 <= lat < 850000000,
    ensures
        merc_table(lat / 10000000 + 1) < north_y_spec(lat) <= merc_table(lat / 10000000),
        lat / 10000000 <= 84,
        0 < north_y_spec(lat) <= 1800000000,
        0 < lat ==> north_y_spec(lat) < 1800000000,
        lat - 1 <= north_lat_spec(north_y_spec(lat)) <= lat,
{
    lemma_merc_table();
    let s = 10000000;
    let k = lat / s;
    let d = lat % s;
    lemma_fundamental_div_mod(lat, s);
    lemma_div_pos_is_pos(lat, s);
    lemma_div_is_ordered(lat, 849999999, s);
    assert(849999999int / 10000000 == 84);
    let t0 = merc_table(k);
    let t1 = merc_table(k + 1);
    let q = t0 - t1;
    assert(q >= s);
    let dy = d * q / s;
    lemma_interp_bounds(d, s, q);
    let y = t0 - dy;
    assert(y == north_y_spec(lat));
    assert(t1 < y <= t0);
    assert(y > merc_table(89)) by {
        lemma_merc_ge(k + 1, 89);
    }
    assert(t0 <= 1800000000);
    // strictness below the equator entry when the latitude is positive
    if 0 < lat {
        if d >= 1 {
            assert(d * q >= q) by (nonlinear_arith)
                requires
                    d >= 1,
                    q >= 0,
            ;
            lemma_div_is_ordered(q, d * q, s);
            lemma_div_is_ordered(s, q, s);
            assert(10000000int / 10000000 == 1);
            assert(dy >= 1);
            assert(y < t0);
        } else {
            assert(k >= 1);
            assert(t0 < merc_table(0)) by {
                lemma_merc_ge(1, k);
            }
        }
        assert(y < 1800000000);
    }
    // the inverse interpolation picks the same segment
    lemma_seg_of_finds(y, 0, k);
    let e = (t0 - y) * s / (t0 - t1);
    assert(north_lat_spec(y) == k * s + e);
    assert(t0 - y == dy);
    // relate the two integer divisions through their fundamental identities
    lemma_fundamental_div_mod(d * q, s);
    let r1 = (d * q) % s;
    lemma_interp_bounds(dy, q, s);
    lemma_fundamental_div_mod(dy * s, q);
    let r2 = (dy * s) % q;
    assert(dy * s == q * e + r2);
    assert(d * q == s * dy + r1);
    assert(e <= d) by (nonlinear_arith)
        requires
            dy * s == q * e + r2,
            d * q == s * dy + r1,
            r1 >= 0,
            r2 >= 0,
            q > 0,
            s > 0,
    ;
    assert(d <= e + 1) by (nonlinear_arith)
        requires
            dy * s == q * e + r2,
            d * q == s * dy + r1,
            r1 < s,
            r2 < q,
            s <= q,
            q > 0,
            s > 0,
    ;
    assert(k * s + e <= lat);
    assert(k * s + e >= lat - 1);
}

/// The interpolated y of a latitude below the pole stays inside the
/// northern half of the world square.
proof fn lemma_north_y_range(lat: int)
    requires
        0 <= lat < 900000000,
    ensures
        0 <= north_y_spec(lat) <= 1800000000,
{
    lemma_merc_table();
    let s = 10000000;
    let k = lat / s;
    let d = lat % s;
    lemma_div_pos_is_pos(lat, s);
    lemma_div_is_ordered(lat, 899999999, s);
    assert(899999999int / 10000000 == 89);
    vstd::arithmetic::div_mod::lemma_mod_division_less_than_divisor(lat, s);
    let q = merc_table(k) - merc_table(k + 1);
    lemma_interp_bounds(d, s, q);
}

/// The projected y of any latitude stays inside the world square.
pub proof fn lemma_lat_y_range(lat: int)
    ensures
        0 <= lat_y_spec(lat) <= 3600000000,
{
    if lat >= 900000000 {
    } else if lat <= -900000000 {
    } else if lat >= 0 {
        lemma_north_y_range(lat);
    } else {
        lemma_north_y_range(-lat);
    }
}

/// Projection round trip: inverting a projected longitude gives it back
/// exactly, and inverting a projected latitude strictly between -85 and 85
/// degrees lands within one fixed-point unit (1e-7 degree) of it.
pub proof fn lemma_projection_round_trip(lng: int, lat: int)
    requires
        -1800000000 <= lng <= 1800000000,
        -850000000 < lat < 850000000,
    ensures
        x_lng_spec(lng_x_spec(lng)) == lng,
        lat - 1 <= y_lat_spec(lat_y_spec(lat)) <= lat + 1,
{
    lemma_merc_table();
    if lat >= 0 {
        lemma_north_round_trip(lat);
        let y = north_y_spec(lat);
        assert(y > merc_table(89));
        assert(lat_y_spec(lat) == y);
        assert(y_lat_spec(y) == north_lat_spec(y));
    } else {
        let l2 = -lat;
        lemma_north_round_trip(l2);
        let y2 = north_y_spec(l2);
        let y = 3600000000 - y2;
        assert(lat_y_spec(lat) == y);
        assert(y2 < 1800000000);
        assert(y > 1800000000);
        assert(y < 3600000000);
        assert(y_lat_spec(y) == -north_lat_spec(3600000000 - y));
        assert(3600000000 - y == y2);
        assert(l2 - 1 <= north_lat_spec(y2) <= l2);
    }
}

/// Linear interpolation with a positive slope `q / p` stays below `q`:
/// for `0 <= d < p` and `p, q > 0`, `0 <= d*q/p < q`.
proof fn lemma_interp_bounds(d: int, p: int, q: int)
    requires
        0 <= d < p,
        0 < q,
    ensures
        0 <= d * q / p < q,
{
    let dy = d * q / p;
    assert(d * q >= 0) by (nonlinear_arith)
        requires
            d >= 0,
            q > 0,
    ;
    lemma_div_pos_is_pos(d * q, p);
    lemma_fundamental_div_mod(d * q, p);
    let r = (d * q) % p;
    assert(d * q == p * dy + r);
    assert(0 <= r < p);
    assert(d * q <= (p - 1) * q) by (nonlinear_arith)
        requires
            d <= p - 1,
            q > 0,
    ;
    assert(p * dy <= (p - 1) * q);
    assert(dy < q) by (nonlinear_arith)
        requires
            p * dy <= (p - 1) * q,
            p > 0,
            q > 0,
    ;
}

} // verus!
