//! The coordinate normalizer: projecting geographic coordinates onto the
//! shared logical canvas.
//!
//! The projection maps a bounding box linearly onto a caller-chosen canvas
//! range, inverting the y axis so increasing latitude maps to decreasing y
//! (the downstream rendering convention). A degenerate box (a single
//! distinct latitude or longitude) projects every entity onto the canvas
//! centre instead of dividing by zero. All arithmetic is fixed-point
//! integer arithmetic and is proved free of overflow.

use vstd::arithmetic::div_mod::lemma_div_by_multiple;
use vstd::arithmetic::div_mod::lemma_div_is_ordered;
use vstd::arithmetic::div_mod::lemma_div_pos_is_pos;
use vstd::arithmetic::mul::lemma_mul_inequality;
use vstd::arithmetic::mul::lemma_mul_is_commutative;
use vstd::arithmetic::mul::lemma_mul_upper_bound;
use vstd::prelude::*;

use crate::bounds::Bounds;
use crate::entity::COORD_LIMIT;
use crate::entity::EntityCollection;
use crate::entity::EntityKind;
use crate::entity::RawEntity;
use crate::entity::has_key;
use crate::entity::index_of_key;
use crate::entity::lemma_index_of_key;

verus! {

/// The fixed logical coordinate range every dataset is projected onto,
/// historically a symmetric square such as `[-16000, 16000]` on both axes.
#[derive(Clone, Copy, PartialEq, Eq, Structural, Debug)]
pub struct Canvas {
    pub min_x: i64,
    pub max_x: i64,
    pub min_y: i64,
    pub max_y: i64,
}

impl Canvas {
    /// Ordered and within the range the projection arithmetic supports.
    pub open spec fn wf(self) -> bool {
        &&& self.min_x <= self.max_x
        &&& self.min_y <= self.max_y
        &&& -COORD_LIMIT <= self.min_x
        &&& self.max_x <= COORD_LIMIT
        &&& -COORD_LIMIT <= self.min_y
        &&& self.max_y <= COORD_LIMIT
    }
}

/// The canvas x for a longitude: the box maps linearly onto
/// `[min_x, max_x]`, preserving orientation. A degenerate box maps
/// everything to the x centre.
pub open spec fn spec_project_x(long: int, b: Bounds, c: Canvas) -> int {
    if b.min_long == b.max_long {
        c.min_x + (c.max_x - c.min_x) / 2
    } else {
        (long - b.min_long) * (c.max_x - c.min_x) / (b.max_long - b.min_long) + c.min_x
    }
}

/// The canvas y for a latitude: the box maps linearly onto
/// `[min_y, max_y]` and the result is negated, so the smallest latitude
/// lands on `-min_y` and the largest on `-max_y`. A degenerate box maps
/// everything to the negated y centre.
pub open spec fn spec_project_y(lat: int, b: Bounds, c: Canvas) -> int {
    if b.min_lat == b.max_lat {
        -(c.min_y + (c.max_y - c.min_y) / 2)
    } else {
        -((lat - b.min_lat) * (c.max_y - c.min_y) / (b.max_lat - b.min_lat) + c.min_y)
    }
}

/// The linear interpolation `delta * width / range`, proved to stay
/// between `0` and `width`.
fn scale_interval(delta: i64, range: i64, width: i64) -> (r: i64)
    requires
        0 <= delta <= range,
        0 < range <= 2 * COORD_LIMIT,
        0 <= width <= 2 * COORD_LIMIT,
    ensures
        r as int == (delta as int) * (width as int) / (range as int),
        0 <= r <= width,
{
    proof {
        let d = delta as int;
        let w = width as int;
        let g = range as int;
        lemma_mul_upper_bound(d, 2 * (COORD_LIMIT as int), w, 2 * (COORD_LIMIT as int));
        assert((2 * (COORD_LIMIT as int)) * (2 * (COORD_LIMIT as int))
            == 4000000000000000000000000000000000000int) by (nonlinear_arith);
        assert(d * w <= 4000000000000000000000000000000000000int);
        lemma_div_pos_is_pos(d * w, g);
        lemma_mul_inequality(d, g, w);
        lemma_mul_is_commutative(g, w);
        lemma_div_is_ordered(d * w, w * g, g);
        lemma_div_by_multiple(w, g);
    }
    let q: u128 = ((delta as u128) * (width as u128)) / (range as u128);
    q as i64
}

/// Project one coordinate pair onto the canvas.
pub fn project(lat: i64, long: i64, b: &Bounds, c: &Canvas) -> (r: (i64, i64))
    requires
        b.wf(),
        c.wf(),
        b.contains(lat as int, long as int),
    ensures
        r.0 as int == spec_project_x(long as int, *b, *c),
        r.1 as int == spec_project_y(lat as int, *b, *c),
{
    let x: i64 = if b.min_long == b.max_long {
        let width = c.max_x - c.min_x;
        c.min_x + (((width as u64) / 2) as i64)
    } else {
        let q = scale_interval(long - b.min_long, b.max_long - b.min_long, c.max_x - c.min_x);
        c.min_x + q
    };
    let y: i64 = if b.min_lat == b.max_lat {
        let height = c.max_y - c.min_y;
        -(c.min_y + (((height as u64) / 2) as i64))
    } else {
        let q = scale_interval(lat - b.min_lat, b.max_lat - b.min_lat, c.max_y - c.min_y);
        -(c.min_y + q)
    };
    (x, y)
}

/// The two results of any two calls of [`project`] on the same input are
/// identical: the projection is deterministic, so re-running the
/// normalizer with the same bounds and canvas reproduces every (x, y).
pub proof fn lemma_project_deterministic(
    lat: i64,
    long: i64,
    b: Bounds,
    c: Canvas,
    r1: (i64, i64),
    r2: (i64, i64),
)
    requires
        call_ensures(project, (lat, long, &b, &c), r1),
        call_ensures(project, (lat, long, &b, &c), r2),
    ensures
        r1 == r2,
{
}

/// The bounding box's extremes land on the canvas extremes: the smallest
/// and largest longitude map to `min_x` and `max_x` (orientation
/// preserved), while the smallest and largest latitude map to `-min_y`
/// and `-max_y` (sign inverted).
pub proof fn lemma_projection_extremes(b: Bounds, c: Canvas)
    requires
        b.wf(),
        c.wf(),
        b.min_lat < b.max_lat,
        b.min_long < b.max_long,
    ensures
        spec_project_x(b.min_long as int, b, c) == c.min_x,
        spec_project_x(b.max_long as int, b, c) == c.max_x,
        spec_project_y(b.min_lat as int, b, c) == -(c.min_y as int),
        spec_project_y(b.max_lat as int, b, c) == -(c.max_y as int),
{
    let w = c.max_x - c.min_x;
    let gx = b.max_long - b.min_long;
    let h = c.max_y - c.min_y;
    let gy = b.max_lat - b.min_lat;
    assert(0int * w == 0) by (nonlinear_arith);
    assert(0int * h == 0) by (nonlinear_arith);
    lemma_div_pos_is_pos(0, gx);
    lemma_div_is_ordered(0, 0, gx);
    assert(0int / gx == 0);
    lemma_div_pos_is_pos(0, gy);
    assert(0int / gy == 0);
    lemma_div_by_multiple(w, gx);
    lemma_mul_is_commutative(w, gx);
    lemma_div_by_multiple(h, gy);
    lemma_mul_is_commutative(h, gy);
}

/// An entity together with its projected canvas position. Created only by
/// the normalizer and never mutated afterwards.
#[derive(Debug, Clone, PartialEq)]
pub struct NormalizedEntity {
    pub kind: EntityKind,
    pub key: String,
    pub name: String,
    pub lat: i64,
    pub long: i64,
    pub x: i64,
    pub y: i64,
    pub zone: Option<String>,
    pub postcode: Option<String>,
}

/// The normalized image of one entity.
pub open spec fn normalized_entity_of(e: RawEntity, b: Bounds, c: Canvas) -> NormalizedEntity {
    NormalizedEntity {
        kind: e.kind,
        key: e.key,
        name: e.name,
        lat: e.lat,
        long: e.long,
        x: spec_project_x(e.long as int, b, c) as i64,
        y: spec_project_y(e.lat as int, b, c) as i64,
        zone: e.zone,
        postcode: e.postcode,
    }
}

/// A keyed collection of normalized entities, still partitioned by source.
#[derive(Debug)]
pub struct NormalizedCollection {
    pub entities: Vec<NormalizedEntity>,
}

/// No two normalized entities share a key.
pub open spec fn norm_keys_unique(s: Seq<NormalizedEntity>) -> bool {
    forall|i: int, j: int| 0 <= i < j < s.len() ==> s[i].key@ != s[j].key@
}

/// Index of the first normalized entity with key `k`, or `-1`.
pub open spec fn norm_index_of_key(s: Seq<NormalizedEntity>, k: Seq<char>) -> int
    decreases s.len(),
{
    if s.len() == 0 {
        -1
    } else if s[0].key@ == k {
        0
    } else {
        let rest = norm_index_of_key(s.drop_first(), k);
        if rest == -1 {
            -1
        } else {
            rest + 1
        }
    }
}

/// Whether some normalized entity in `s` carries key `k`.
pub open spec fn norm_has_key(s: Seq<NormalizedEntity>, k: Seq<char>) -> bool {
    norm_index_of_key(s, k) >= 0
}

/// What `norm_index_of_key` returns: a first occurrence, or absence.
pub proof fn lemma_norm_index_of_key(s: Seq<NormalizedEntity>, k: Seq<char>)
    ensures
        -1 <= norm_index_of_key(s, k) < s.len(),
        norm_index_of_key(s, k) == -1 ==> forall|i: int|
            0 <= i < s.len() ==> s[i].key@ != k,
        norm_index_of_key(s, k) >= 0 ==> {
            &&& s[norm_index_of_key(s, k)].key@ == k
            &&& forall|i: int| 0 <= i < norm_index_of_key(s, k) ==> s[i].key@ != k
        },
    decreases s.len(),
{
    if s.len() > 0 && s[0].key@ != k {
        lemma_norm_index_of_key(s.drop_first(), k);
        let rest = norm_index_of_key(s.drop_first(), k);
        if rest == -1 {
            assert forall|i: int| 0 <= i < s.len() implies s[i].key@ != k by {
                if i > 0 {
                    assert(s.drop_first()[i - 1] == s[i]);
                }
            }
        } else {
            assert(s.drop_first()[rest] == s[rest + 1]);
            assert forall|i: int| 0 <= i < rest + 1 implies s[i].key@ != k by {
                if i > 0 {
                    assert(s.drop_first()[i - 1] == s[i]);
                }
            }
        }
    }
}

/// If position `i` holds key `k` and no earlier position does, then `i` is
/// what `norm_index_of_key` returns.
pub proof fn lemma_norm_index_of_key_first_hit(s: Seq<NormalizedEntity>, k: Seq<char>, i: int)
    requires
        0 <= i < s.len(),
        s[i].key@ == k,
        forall|j: int| 0 <= j < i ==> s[j].key@ != k,
    ensures
        norm_index_of_key(s, k) == i,
    decreases s.len(),
{
    if i > 0 {
        lemma_norm_index_of_key_first_hit(s.drop_first(), k, i - 1);
    }
}

impl NormalizedCollection {
    /// The collection's invariant: keys are unique, so it denotes a map.
    pub open spec fn wf(self) -> bool {
        norm_keys_unique(self.entities@)
    }

    /// Whether `k` is a key of the collection.
    pub open spec fn spec_contains_key(self, k: Seq<char>) -> bool {
        norm_has_key(self.entities@, k)
    }

    /// The set of keys the collection holds.
    pub open spec fn key_set(self) -> Set<Seq<char>> {
        Set::new(|k: Seq<char>| norm_has_key(self.entities@, k))
    }

    pub fn len(&self) -> (r: usize)
        ensures
            r == self.entities@.len(),
    {
        self.entities.len()
    }

    /// Linear search for the first normalized entity with key `k`.
    pub fn find(&self, k: &String) -> (r: Option<usize>)
        ensures
            match r {
                Some(i) => i == norm_index_of_key(self.entities@, k@),
                None => !self.spec_contains_key(k@),
            },
    {
        let n = self.entities.len();
        let mut i: usize = 0;
        while i < n
            invariant
                n == self.entities@.len(),
                i <= n,
                forall|j: int| 0 <= j < i ==> self.entities@[j].key@ != k@,
            decreases n - i,
        {
            if self.entities[i].key == *k {
                proof {
                    lemma_norm_index_of_key_first_hit(self.entities@, k@, i as int);
                }
                return Some(i);
            }
            i += 1;
        }
        proof {
            lemma_norm_index_of_key(self.entities@, k@);
        }
        None
    }

    /// Whether the collection holds an entity under key `k`.
    pub fn contains_key(&self, k: &String) -> (r: bool)
        ensures
            r == self.spec_contains_key(k@),
    {
        proof {
            lemma_norm_index_of_key(self.entities@, k@);
        }
        self.find(k).is_some()
    }

    /// The entity under key `k`, when the collection holds one.
    pub fn get(&self, k: &String) -> (r: Option<&NormalizedEntity>)
        ensures
            match r {
                Some(e) => self.spec_contains_key(k@) && *e == self.entities@[norm_index_of_key(
                    self.entities@,
                    k@,
                )],
                None => !self.spec_contains_key(k@),
            },
    {
        proof {
            lemma_norm_index_of_key(self.entities@, k@);
        }
        match self.find(k) {
            Some(i) => Some(&self.entities[i]),
            None => None,
        }
    }
}

/// Clone an optional string, preserving the value exactly.
fn clone_opt_string(o: &Option<String>) -> (r: Option<String>)
    ensures
        r == *o,
{
    match o {
        Some(s) => Some(s.clone()),
        None => None,
    }
}

/// The normalizer is deterministic: any two entity sequences that meet
/// [`normalize_collection`]'s contract against the same collection, bounds
/// and canvas are identical, so re-running the normalizer with the same
/// bounds reproduces every (x, y).
pub proof fn lemma_normalize_deterministic(
    coll: EntityCollection,
    b: Bounds,
    c: Canvas,
    s1: Seq<NormalizedEntity>,
    s2: Seq<NormalizedEntity>,
)
    requires
        s1.len() == coll.entities@.len(),
        s2.len() == coll.entities@.len(),
        forall|i: int|
            0 <= i < coll.entities@.len() ==> s1[i] == normalized_entity_of(
                #[trigger] coll.entities@[i],
                b,
                c,
            ),
        forall|i: int|
            0 <= i < coll.entities@.len() ==> s2[i] == normalized_entity_of(
                #[trigger] coll.entities@[i],
                b,
                c,
            ),
    ensures
        s1 == s2,
{
    assert forall|i: int| 0 <= i < s1.len() implies s1[i] == s2[i] by {
        assert(s1[i] == normalized_entity_of(coll.entities@[i], b, c));
        assert(s2[i] == normalized_entity_of(coll.entities@[i], b, c));
    }
    assert(s1 =~= s2);
}

/// Project every entity of a collection onto the canvas. Entity order,
/// keys and all raw fields are kept; only (x, y) is added.
pub fn normalize_collection(coll: &EntityCollection, b: &Bounds, c: &Canvas) -> (r:
    NormalizedCollection)
    requires
        b.wf(),
        c.wf(),
        forall|i: int|
            0 <= i < coll.entities@.len() ==> b.contains(
                #[trigger] coll.entities@[i].lat as int,
                coll.entities@[i].long as int,
            ),
    ensures
        r.entities@.len() == coll.entities@.len(),
        forall|i: int|
            0 <= i < coll.entities@.len() ==> r.entities@[i] == normalized_entity_of(
                #[trigger] coll.entities@[i],
                *b,
                *c,
            ),
        coll.wf() ==> r.wf(),
        r.key_set() == coll.key_set(),
{
    let n = coll.entities.len();
    let mut out: Vec<NormalizedEntity> = Vec::new();
    let mut i: usize = 0;
    while i < n
        invariant
            n == coll.entities@.len(),
            i <= n,
            out@.len() == i,
            b.wf(),
            c.wf(),
            forall|j: int|
                0 <= j < n ==> b.contains(
                    #[trigger] coll.entities@[j].lat as int,
                    coll.entities@[j].long as int,
                ),
            forall|j: int|
                0 <= j < i ==> out@[j] == normalized_entity_of(
                    #[trigger] coll.entities@[j],
                    *b,
                    *c,
                ),
        decreases n - i,
    {
        let e = &coll.entities[i];
        let (x, y) = project(e.lat, e.long, b, c);
        let ne = NormalizedEntity {
            kind: e.kind,
            key: e.key.clone(),
            name: e.name.clone(),
            lat: e.lat,
            long: e.long,
            x,
            y,
            zone: clone_opt_string(&e.zone),
            postcode: clone_opt_string(&e.postcode),
        };
        out.push(ne);
        i += 1;
    }
    let r = NormalizedCollection { entities: out };
    proof {
        if coll.wf() {
            assert forall|i0: int, j0: int|
                0 <= i0 < j0 < r.entities@.len() implies r.entities@[i0].key@
                != r.entities@[j0].key@ by {
                assert(r.entities@[i0].key == coll.entities@[i0].key);
                assert(r.entities@[j0].key == coll.entities@[j0].key);
            }
        }
        assert forall|k: Seq<char>| #[trigger] norm_has_key(r.entities@, k) implies has_key(
            coll.entities@,
            k,
        ) by {
            lemma_norm_index_of_key(r.entities@, k);
            let i0 = norm_index_of_key(r.entities@, k);
            assert(r.entities@[i0].key == coll.entities@[i0].key);
            lemma_index_of_key(coll.entities@, k);
        }
        assert forall|k: Seq<char>| #[trigger] has_key(coll.entities@, k) implies norm_has_key(
            r.entities@,
            k,
        ) by {
            lemma_index_of_key(coll.entities@, k);
            let i0 = index_of_key(coll.entities@, k);
            assert(r.entities@[i0].key == coll.entities@[i0].key);
            lemma_norm_index_of_key(r.entities@, k);
        }
        assert(r.key_set() =~= coll.key_set());
    }
    r
}

} // verus!
