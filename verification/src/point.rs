//! Source feature model.
//!
//! A feature is a geographic point with an opaque property map. Coordinates
//! are fixed-point integers in units of 1e-7 degree, so a longitude of
//! 12.3456789 degrees is stored as 123_456_789.

use vstd::prelude::*;

verus! {

/// A point geometry in fixed-point degrees (1e-7 degree units).
#[derive(Clone, Copy, Debug)]
pub struct Geometry {
    pub lng_e7: i64,
    pub lat_e7: i64,
}

/// A source feature: a point plus its properties, immutable once loaded.
#[derive(Debug)]
pub struct Feature {
    pub geometry: Geometry,
    pub properties: Vec<(String, String)>,
}

impl Geometry {
    /// Longitude within [-180, 180] degrees and latitude within [-90, 90]
    /// degrees. Features outside this range are rejected at load time.
    pub open spec fn in_range(self) -> bool {
        &&& -1800000000 <= self.lng_e7 <= 1800000000
        &&& -900000000 <= self.lat_e7 <= 900000000
    }
}

/// The mathematical content of a feature: its coordinates and the sequence
/// of its property pairs.
pub struct FeatureView {
    pub lng_e7: int,
    pub lat_e7: int,
    pub properties: Seq<(Seq<char>, Seq<char>)>,
}

impl View for Feature {
    type V = FeatureView;

    open spec fn view(&self) -> FeatureView {
        FeatureView {
            lng_e7: self.geometry.lng_e7 as int,
            lat_e7: self.geometry.lat_e7 as int,
            properties: self.properties@.map_values(|p: (String, String)| (p.0@, p.1@)),
        }
    }
}

impl Feature {
    /// An exact copy of this feature.
    pub fn duplicate(&self) -> (r: Feature)
        ensures
            r@ == self@,
            r.geometry == self.geometry,
    {
        let mut props: Vec<(String, String)> = Vec::new();
        let mut i: usize = 0;
        while i < self.properties.len()
            invariant
                i <= self.properties.len(),
                props@ =~= self.properties@.take(i as int),
            decreases self.properties.len() - i,
        {
            let k = self.properties[i].0.clone();
            let v = self.properties[i].1.clone();
            props.push((k, v));
            i = i + 1;
        }
        let r = Feature { geometry: self.geometry, properties: props };
        proof {
            assert(props@ =~= self.properties@);
            assert(r@.properties =~= self@.properties);
        }
        r
    }
}

} // verus!
