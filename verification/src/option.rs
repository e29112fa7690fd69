//! Configuration options for the cluster store.
//!
//! Every option is optional at the surface; `new` yields the documented
//! defaults and `merge` lays user-supplied values over them, so the store
//! always works with a fully resolved set.

use vstd::prelude::*;

verus! {

/// Recognized configuration options. A `None` field means "use the default".
///
/// - `min_zoom` / `max_zoom`: lowest and highest zoom level at which
///   clustering is performed; above `max_zoom` points render unclustered.
/// - `min_points`: minimum number of contributing nodes needed to form an
///   aggregate.
/// - `radius`: cluster radius in pixels.
/// - `extent`: tile size in pixels, relating the pixel radius to projected
///   distance.
/// - `node_size`: spatial-index bulk-build tuning parameter; it does not
///   affect query results.
/// - `log`: diagnostic toggle with no semantic effect.
/// - `generate_id`: whether unmerged leaves are also given a stable id on
///   query output.
#[derive(Clone, Copy, Debug)]
pub struct DefaultOptions {
    pub min_zoom: Option<u8>,
    pub max_zoom: Option<u8>,
    pub min_points: Option<u8>,
    pub radius: Option<u8>,
    pub extent: Option<u16>,
    pub node_size: Option<u8>,
    pub log: Option<bool>,
    pub generate_id: Option<bool>,
}

impl DefaultOptions {
    /// Every field carries a value.
    pub open spec fn is_complete(self) -> bool {
        &&& self.min_zoom is Some
        &&& self.max_zoom is Some
        &&& self.min_points is Some
        &&& self.radius is Some
        &&& self.extent is Some
        &&& self.node_size is Some
        &&& self.log is Some
        &&& self.generate_id is Some
    }

    /// The documented default configuration.
    pub open spec fn defaults() -> DefaultOptions {
        DefaultOptions {
            min_zoom: Some(0u8),
            max_zoom: Some(16u8),
            min_points: Some(2u8),
            radius: Some(40u8),
            extent: Some(512u16),
            node_size: Some(64u8),
            log: Some(false),
            generate_id: Some(false),
        }
    }

    /// `other` laid over `self`: each field takes `other`'s value where
    /// present, else `self`'s.
    pub open spec fn merge_spec(self, other: DefaultOptions) -> DefaultOptions {
        DefaultOptions {
            min_zoom: Some(if other.min_zoom is Some { other.min_zoom->0 } else { self.min_zoom->0 }),
            max_zoom: Some(if other.max_zoom is Some { other.max_zoom->0 } else { self.max_zoom->0 }),
            min_points: Some(
                if other.min_points is Some { other.min_points->0 } else { self.min_points->0 },
            ),
            radius: Some(if other.radius is Some { other.radius->0 } else { self.radius->0 }),
            extent: Some(if other.extent is Some { other.extent->0 } else { self.extent->0 }),
            node_size: Some(
                if other.node_size is Some { other.node_size->0 } else { self.node_size->0 },
            ),
            log: Some(if other.log is Some { other.log->0 } else { self.log->0 }),
            generate_id: Some(
                if other.generate_id is Some { other.generate_id->0 } else { self.generate_id->0 },
            ),
        }
    }

    /// The default configuration, with every field set.
    pub fn new() -> (r: DefaultOptions)
        ensures
            r == DefaultOptions::defaults(),
    {
        DefaultOptions {
            min_zoom: Some(0),
            max_zoom: Some(16),
            min_points: Some(2),
            radius: Some(40),
            extent: Some(512),
            node_size: Some(64),
            log: Some(false),
            generate_id: Some(false),
        }
    }

    /// Lays `other` over `self` and returns the result, which carries a value
    /// in every field.
    pub fn merge(&self, other: &DefaultOptions) -> (r: DefaultOptions)
        requires
            self.is_complete(),
        ensures
            r == self.merge_spec(*other),
            r.is_complete(),
    {
        DefaultOptions {
            min_zoom: Some(match other.min_zoom {
                Some(v) => v,
                None => self.min_zoom.unwrap(),
            }),
            max_zoom: Some(match other.max_zoom {
                Some(v) => v,
                None => self.max_zoom.unwrap(),
            }),
            min_points: Some(match other.min_points {
                Some(v) => v,
                None => self.min_points.unwrap(),
            }),
            radius: Some(match other.radius {
                Some(v) => v,
                None => self.radius.unwrap(),
            }),
            extent: Some(match other.extent {
                Some(v) => v,
                None => self.extent.unwrap(),
            }),
            node_size: Some(match other.node_size {
                Some(v) => v,
                None => self.node_size.unwrap(),
            }),
            log: Some(match other.log {
                Some(v) => v,
                None => self.log.unwrap(),
            }),
            generate_id: Some(match other.generate_id {
                Some(v) => v,
                None => self.generate_id.unwrap(),
            }),
        }
    }
}

impl Default for DefaultOptions {
    /// An entirely unset configuration: merging it changes nothing.
    fn default() -> (r: DefaultOptions)
        ensures
            r.min_zoom is None,
            r.max_zoom is None,
            r.min_points is None,
            r.radius is None,
            r.extent is None,
            r.node_size is None,
            r.log is None,
            r.generate_id is None,
    {
        DefaultOptions {
            min_zoom: None,
            max_zoom: None,
            min_points: None,
            radius: None,
            extent: None,
            node_size: None,
            log: None,
            generate_id: None,
        }
    }
}

} // verus!
