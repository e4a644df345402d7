//! Shared coordinate bounds across entity collections.
//!
//! Several heterogeneous datasets are plotted on one canvas, so the bounding
//! box is computed across all of them: each call widens an optional
//! pre-existing bound with the minima and maxima of one collection, and
//! widening never narrows the box.

use vstd::prelude::*;

use crate::entity::COORD_LIMIT;
use crate::entity::EntityCollection;
use crate::entity::coords_limited;
use crate::entity::RawEntity;
use crate::seq_util::lemma_take_all;
use crate::seq_util::lemma_take_step;

verus! {

/// The merged bounding box of every collection seen so far.
#[derive(Clone, Copy, PartialEq, Eq, Structural, Debug)]
pub struct Bounds {
    pub min_lat: i64,
    pub max_lat: i64,
    pub min_long: i64,
    pub max_long: i64,
}

impl Bounds {
    /// Ordered and within the range the projection arithmetic supports.
    pub open spec fn wf(self) -> bool {
        &&& self.min_lat <= self.max_lat
        &&& self.min_long <= self.max_long
        &&& -COORD_LIMIT <= self.min_lat
        &&& self.max_lat <= COORD_LIMIT
        &&& -COORD_LIMIT <= self.min_long
        &&& self.max_long <= COORD_LIMIT
    }

    /// Whether a coordinate pair lies inside the box.
    pub open spec fn contains(self, lat: int, long: int) -> bool {
        &&& self.min_lat <= lat <= self.max_lat
        &&& self.min_long <= long <= self.max_long
    }
}

/// Smallest latitude of a non-empty entity sequence.
pub open spec fn lat_min_of(s: Seq<RawEntity>) -> int
    recommends
        s.len() > 0,
    decreases s.len(),
{
    if s.len() <= 1 {
        if s.len() == 1 {
            s[0].lat as int
        } else {
            0
        }
    } else {
        let m = lat_min_of(s.drop_last());
        if s.last().lat < m {
            s.last().lat as int
        } else {
            m
        }
    }
}

/// Largest latitude of a non-empty entity sequence.
pub open spec fn lat_max_of(s: Seq<RawEntity>) -> int
    recommends
        s.len() > 0,
    decreases s.len(),
{
    if s.len() <= 1 {
        if s.len() == 1 {
            s[0].lat as int
        } else {
            0
        }
    } else {
        let m = lat_max_of(s.drop_last());
        if s.last().lat > m {
            s.last().lat as int
        } else {
            m
        }
    }
}

/// Smallest longitude of a non-empty entity sequence.
pub open spec fn long_min_of(s: Seq<RawEntity>) -> int
    recommends
        s.len() > 0,
    decreases s.len(),
{
    if s.len() <= 1 {
        if s.len() == 1 {
            s[0].long as int
        } else {
            0
        }
    } else {
        let m = long_min_of(s.drop_last());
        if s.last().long < m {
            s.last().long as int
        } else {
            m
        }
    }
}

/// Largest longitude of a non-empty entity sequence.
pub open spec fn long_max_of(s: Seq<RawEntity>) -> int
    recommends
        s.len() > 0,
    decreases s.len(),
{
    if s.len() <= 1 {
        if s.len() == 1 {
            s[0].long as int
        } else {
            0
        }
    } else {
        let m = long_max_of(s.drop_last());
        if s.last().long > m {
            s.last().long as int
        } else {
            m
        }
    }
}

/// A pre-existing bound only takes part when both of its halves are present.
pub open spec fn pair_present(lo: Option<i64>, hi: Option<i64>) -> bool {
    lo is Some && hi is Some
}

/// The widened lower bound: the smaller of the computed minimum and the
/// pre-existing one, when a pre-existing pair is given.
pub open spec fn merged_lo(computed: int, lo: Option<i64>, hi: Option<i64>) -> int {
    if pair_present(lo, hi) && (lo->Some_0 as int) < computed {
        lo->Some_0 as int
    } else {
        computed
    }
}

/// The widened upper bound, symmetrically.
pub open spec fn merged_hi(computed: int, lo: Option<i64>, hi: Option<i64>) -> int {
    if pair_present(lo, hi) && (hi->Some_0 as int) > computed {
        hi->Some_0 as int
    } else {
        computed
    }
}

/// The latitude minimum and maximum bound every latitude in the sequence,
/// and each is attained by some entity.
pub proof fn lemma_lat_extrema(s: Seq<RawEntity>)
    requires
        s.len() > 0,
    ensures
        forall|i: int| 0 <= i < s.len() ==> lat_min_of(s) <= #[trigger] s[i].lat as int,
        forall|i: int| 0 <= i < s.len() ==> lat_max_of(s) >= #[trigger] s[i].lat as int,
        exists|i: int| 0 <= i < s.len() && lat_min_of(s) == s[i].lat as int,
        exists|i: int| 0 <= i < s.len() && lat_max_of(s) == s[i].lat as int,
    decreases s.len(),
{
    if s.len() > 1 {
        lemma_lat_extrema(s.drop_last());
        let last = s.len() - 1;
        assert forall|i: int| 0 <= i < s.len() implies lat_min_of(s) <= #[trigger] s[i].lat as int
            && lat_max_of(s) >= #[trigger] s[i].lat as int by {
            if i < last {
                assert(s.drop_last()[i] == s[i]);
            }
        }
        if (s.last().lat as int) < lat_min_of(s.drop_last()) {
            assert(0 <= last < s.len() && lat_min_of(s) == s[last].lat as int);
        } else {
            let j = choose|j: int|
                0 <= j < s.drop_last().len() && lat_min_of(s.drop_last()) == s.drop_last()[j].lat
                    as int;
            assert(s.drop_last()[j] == s[j]);
            assert(0 <= j < s.len() && lat_min_of(s) == s[j].lat as int);
        }
        if (s.last().lat as int) > lat_max_of(s.drop_last()) {
            assert(0 <= last < s.len() && lat_max_of(s) == s[last].lat as int);
        } else {
            let m = choose|m: int|
                0 <= m < s.drop_last().len() && lat_max_of(s.drop_last()) == s.drop_last()[m].lat
                    as int;
            assert(s.drop_last()[m] == s[m]);
            assert(0 <= m < s.len() && lat_max_of(s) == s[m].lat as int);
        }
    }
}

/// The longitude minimum and maximum bound every longitude in the sequence,
/// and each is attained by some entity.
pub proof fn lemma_long_extrema(s: Seq<RawEntity>)
    requires
        s.len() > 0,
    ensures
        forall|i: int| 0 <= i < s.len() ==> long_min_of(s) <= #[trigger] s[i].long as int,
        forall|i: int| 0 <= i < s.len() ==> long_max_of(s) >= #[trigger] s[i].long as int,
        exists|i: int| 0 <= i < s.len() && long_min_of(s) == s[i].long as int,
        exists|i: int| 0 <= i < s.len() && long_max_of(s) == s[i].long as int,
    decreases s.len(),
{
    if s.len() > 1 {
        lemma_long_extrema(s.drop_last());
        let last = s.len() - 1;
        assert forall|i: int| 0 <= i < s.len() implies long_min_of(s) <= #[trigger] s[i].long as int
            && long_max_of(s) >= #[trigger] s[i].long as int by {
            if i < last {
                assert(s.drop_last()[i] == s[i]);
            }
        }
        if (s.last().long as int) < long_min_of(s.drop_last()) {
            assert(0 <= last < s.len() && long_min_of(s) == s[last].long as int);
        } else {
            let j = choose|j: int|
                0 <= j < s.drop_last().len() && long_min_of(s.drop_last()) == s.drop_last()[j].long
                    as int;
            assert(s.drop_last()[j] == s[j]);
            assert(0 <= j < s.len() && long_min_of(s) == s[j].long as int);
        }
        if (s.last().long as int) > long_max_of(s.drop_last()) {
            assert(0 <= last < s.len() && long_max_of(s) == s[last].long as int);
        } else {
            let m = choose|m: int|
                0 <= m < s.drop_last().len() && long_max_of(s.drop_last()) == s.drop_last()[m].long
                    as int;
            assert(s.drop_last()[m] == s[m]);
            assert(0 <= m < s.len() && long_max_of(s) == s[m].long as int);
        }
    }
}

/// Widen an optional pre-existing latitude bound with the latitude extrema
/// of one collection. The result is always present; the pre-existing pair
/// takes part only when both halves are present.
pub fn calculate_lat_bounds(entities: &Vec<RawEntity>, min_lat: Option<i64>, max_lat: Option<i64>)
    -> (r: (Option<i64>, Option<i64>))
    requires
        entities@.len() > 0,
    ensures
        r.0 is Some && r.1 is Some,
        r.0->Some_0 as int == merged_lo(lat_min_of(entities@), min_lat, max_lat),
        r.1->Some_0 as int == merged_hi(lat_max_of(entities@), min_lat, max_lat),
{
    let n = entities.len();
    let mut lo: i64 = entities[0].lat;
    let mut hi: i64 = entities[0].lat;
    let mut i: usize = 1;
    while i < n
        invariant
            n == entities@.len(),
            1 <= i <= n,
            lo as int == lat_min_of(entities@.take(i as int)),
            hi as int == lat_max_of(entities@.take(i as int)),
        decreases n - i,
    {
        proof {
            lemma_take_step(entities@, i as int);
        }
        let v = entities[i].lat;
        if v < lo {
            lo = v;
        }
        if v > hi {
            hi = v;
        }
        i += 1;
    }
    proof {
        lemma_take_all(entities@);
    }
    match (min_lat, max_lat) {
        (Some(plo), Some(phi)) => {
            let new_lo = if lo <= plo {
                lo
            } else {
                plo
            };
            let new_hi = if hi >= phi {
                hi
            } else {
                phi
            };
            (Some(new_lo), Some(new_hi))
        },
        _ => (Some(lo), Some(hi)),
    }
}

/// Widen an optional pre-existing longitude bound with the longitude
/// extrema of one collection, as [`calculate_lat_bounds`] does for latitude.
pub fn calculate_long_bounds(entities: &Vec<RawEntity>, min_long: Option<i64>, max_long: Option<
    i64,
>) -> (r: (Option<i64>, Option<i64>))
    requires
        entities@.len() > 0,
    ensures
        r.0 is Some && r.1 is Some,
        r.0->Some_0 as int == merged_lo(long_min_of(entities@), min_long, max_long),
        r.1->Some_0 as int == merged_hi(long_max_of(entities@), min_long, max_long),
{
    let n = entities.len();
    let mut lo: i64 = entities[0].long;
    let mut hi: i64 = entities[0].long;
    let mut i: usize = 1;
    while i < n
        invariant
            n == entities@.len(),
            1 <= i <= n,
            lo as int == long_min_of(entities@.take(i as int)),
            hi as int == long_max_of(entities@.take(i as int)),
        decreases n - i,
    {
        proof {
            lemma_take_step(entities@, i as int);
        }
        let v = entities[i].long;
        if v < lo {
            lo = v;
        }
        if v > hi {
            hi = v;
        }
        i += 1;
    }
    proof {
        lemma_take_all(entities@);
    }
    match (min_long, max_long) {
        (Some(plo), Some(phi)) => {
            let new_lo = if lo <= plo {
                lo
            } else {
                plo
            };
            let new_hi = if hi >= phi {
                hi
            } else {
                phi
            };
            (Some(new_lo), Some(new_hi))
        },
        _ => (Some(lo), Some(hi)),
    }
}

/// Assemble a [`Bounds`] from the two widened pairs. Present exactly when
/// all four halves are present.
pub fn make_bounds(lat: (Option<i64>, Option<i64>), long: (Option<i64>, Option<i64>)) -> (r:
    Option<Bounds>)
    ensures
        r is Some <==> (lat.0 is Some && lat.1 is Some && long.0 is Some && long.1 is Some),
        r is Some ==> r->Some_0 == (Bounds {
            min_lat: lat.0->Some_0,
            max_lat: lat.1->Some_0,
            min_long: long.0->Some_0,
            max_long: long.1->Some_0,
        }),
{
    match (lat, long) {
        ((Some(min_lat), Some(max_lat)), (Some(min_long), Some(max_long))) => Some(
            Bounds { min_lat, max_lat, min_long, max_long },
        ),
        _ => None,
    }
}

/// The latitude halves of an optional prior box, as a pre-existing pair.
pub open spec fn prior_lat_pair(prior: Option<Bounds>) -> (Option<i64>, Option<i64>) {
    match prior {
        Some(p) => (Some(p.min_lat), Some(p.max_lat)),
        None => (None, None),
    }
}

/// The longitude halves of an optional prior box, as a pre-existing pair.
pub open spec fn prior_long_pair(prior: Option<Bounds>) -> (Option<i64>, Option<i64>) {
    match prior {
        Some(p) => (Some(p.min_long), Some(p.max_long)),
        None => (None, None),
    }
}

/// Widen an optional prior box with one collection's own bounding box:
/// each side of the result is exactly the union of the prior box and the
/// collection's extrema. The result is therefore well-formed, contains
/// every entity of the collection, and never narrows the prior box:
/// chaining this call across several collections yields one box that
/// contains them all.
pub fn widen_bounds(coll: &EntityCollection, prior: Option<Bounds>) -> (r: Bounds)
    requires
        coll.entities@.len() > 0,
        coords_limited(coll.entities@),
        prior is Some ==> prior->Some_0.wf(),
    ensures
        r.min_lat as int == merged_lo(
            lat_min_of(coll.entities@),
            prior_lat_pair(prior).0,
            prior_lat_pair(prior).1,
        ),
        r.max_lat as int == merged_hi(
            lat_max_of(coll.entities@),
            prior_lat_pair(prior).0,
            prior_lat_pair(prior).1,
        ),
        r.min_long as int == merged_lo(
            long_min_of(coll.entities@),
            prior_long_pair(prior).0,
            prior_long_pair(prior).1,
        ),
        r.max_long as int == merged_hi(
            long_max_of(coll.entities@),
            prior_long_pair(prior).0,
            prior_long_pair(prior).1,
        ),
        r.wf(),
        forall|i: int|
            0 <= i < coll.entities@.len() ==> r.contains(
                #[trigger] coll.entities@[i].lat as int,
                coll.entities@[i].long as int,
            ),
        r.min_lat as int <= lat_min_of(coll.entities@),
        r.max_lat as int >= lat_max_of(coll.entities@),
        r.min_long as int <= long_min_of(coll.entities@),
        r.max_long as int >= long_max_of(coll.entities@),
        prior is Some ==> {
            &&& r.min_lat <= prior->Some_0.min_lat
            &&& r.max_lat >= prior->Some_0.max_lat
            &&& r.min_long <= prior->Some_0.min_long
            &&& r.max_long >= prior->Some_0.max_long
        },
{
    proof {
        lemma_lat_extrema(coll.entities@);
        lemma_long_extrema(coll.entities@);
    }
    let (lat_lo, lat_hi) = match prior {
        Some(p) => (Some(p.min_lat), Some(p.max_lat)),
        None => (None, None),
    };
    let (long_lo, long_hi) = match prior {
        Some(p) => (Some(p.min_long), Some(p.max_long)),
        None => (None, None),
    };
    let lat = calculate_lat_bounds(&coll.entities, lat_lo, lat_hi);
    let long = calculate_long_bounds(&coll.entities, long_lo, long_hi);
    match make_bounds(lat, long) {
        Some(b) => b,
        None => {
            // `calculate_lat_bounds` and `calculate_long_bounds` always
            // return both halves, so the box is always assembled.
            proof {
                assert(false);
            }
            Bounds { min_lat: 0, max_lat: 0, min_long: 0, max_long: 0 }
        },
    }
}

/// Merging the bounds of two collections never narrows the box: the merged
/// minimum is at or below each collection's own minimum, and the merged
/// maximum at or above each collection's own maximum. The merged values are
/// exactly what chaining [`calculate_lat_bounds`] and
/// [`calculate_long_bounds`] over the two collections produces.
pub proof fn lemma_merged_bounds_widen(s1: Seq<RawEntity>, s2: Seq<RawEntity>)
    requires
        s1.len() > 0,
        s2.len() > 0,
    ensures
        ({
            let lat1 = (lat_min_of(s1), lat_max_of(s1));
            let lat2 = (lat_min_of(s2), lat_max_of(s2));
            let long1 = (long_min_of(s1), long_max_of(s1));
            let long2 = (long_min_of(s2), long_max_of(s2));
            let merged_min_lat = if lat2.0 < lat1.0 { lat2.0 } else { lat1.0 };
            let merged_max_lat = if lat2.1 > lat1.1 { lat2.1 } else { lat1.1 };
            let merged_min_long = if long2.0 < long1.0 { long2.0 } else { long1.0 };
            let merged_max_long = if long2.1 > long1.1 { long2.1 } else { long1.1 };
            &&& merged_min_lat <= lat1.0 && merged_min_lat <= lat2.0
            &&& merged_max_lat >= lat1.1 && merged_max_lat >= lat2.1
            &&& merged_min_long <= long1.0 && merged_min_long <= long2.0
            &&& merged_max_long >= long1.1 && merged_max_long >= long2.1
        }),
{
}

} // verus!
