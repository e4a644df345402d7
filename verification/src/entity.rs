//! Entities and the keyed entity collection.
//!
//! A raw row is what the tabular reader hands over: a key, a display name,
//! the two fixed-point coordinates (absent when the source field was missing
//! or unreadable) and optional extra attributes. The builder turns rows into
//! an [`EntityCollection`]: a key-unique sequence of entities in which the
//! last row wins on a duplicate key while the key keeps the position of its
//! first occurrence.

use vstd::prelude::*;

use crate::errors::IngestError;
use crate::seq_util::lemma_take_all;
use crate::seq_util::lemma_take_step;

verus! {

/// Largest coordinate magnitude the pipeline accepts, in fixed-point units.
/// Keeping every latitude, longitude and canvas bound within this range lets
/// the projection arithmetic be proved free of overflow.
pub const COORD_LIMIT: i64 = 1_000_000_000_000_000_000;

/// Whether an entity is a rail station or a road stop. The kind is carried
/// as data on one shared entity type; it picks the node label in the store.
#[derive(Clone, Copy, PartialEq, Eq, Structural, Debug)]
pub enum EntityKind {
    Station,
    Stop,
}

/// One raw tabular record, exactly as the reader delivered it.
/// Coordinates are fixed-point integers; `None` stands for a field that was
/// missing or unreadable in the source.
#[derive(Debug, Clone, PartialEq)]
pub struct RawRow {
    pub key: String,
    pub name: String,
    pub lat: Option<i64>,
    pub long: Option<i64>,
    pub zone: Option<String>,
    pub postcode: Option<String>,
}

/// An entity whose required fields passed structural validation.
/// Immutable once built; the coordinate normalizer reads `lat` and `long`
/// and never writes them back.
#[derive(Debug, Clone, PartialEq)]
pub struct RawEntity {
    pub kind: EntityKind,
    pub key: String,
    pub name: String,
    pub lat: i64,
    pub long: i64,
    pub zone: Option<String>,
    pub postcode: Option<String>,
}

/// A row is structurally valid when both coordinates are present and within
/// the range the projection arithmetic supports.
pub open spec fn row_valid(row: RawRow) -> bool {
    &&& row.lat is Some
    &&& row.long is Some
    &&& -COORD_LIMIT <= row.lat->Some_0 <= COORD_LIMIT
    &&& -COORD_LIMIT <= row.long->Some_0 <= COORD_LIMIT
}

/// The entity a valid row denotes.
pub open spec fn entity_of_row(row: RawRow, kind: EntityKind) -> RawEntity
    recommends
        row_valid(row),
{
    RawEntity {
        kind,
        key: row.key,
        name: row.name,
        lat: row.lat->Some_0,
        long: row.long->Some_0,
        zone: row.zone,
        postcode: row.postcode,
    }
}

/// Index of the first entity with key `k`, or `-1` when no entity has it.
pub open spec fn index_of_key(s: Seq<RawEntity>, k: Seq<char>) -> int
    decreases s.len(),
{
    if s.len() == 0 {
        -1
    } else if s[0].key@ == k {
        0
    } else {
        let rest = index_of_key(s.drop_first(), k);
        if rest == -1 {
            -1
        } else {
            rest + 1
        }
    }
}

/// Whether some entity in `s` carries key `k`.
pub open spec fn has_key(s: Seq<RawEntity>, k: Seq<char>) -> bool {
    index_of_key(s, k) >= 0
}

/// What `index_of_key` returns: a first occurrence, or proof of absence.
pub proof fn lemma_index_of_key(s: Seq<RawEntity>, k: Seq<char>)
    ensures
        -1 <= index_of_key(s, k) < s.len(),
        index_of_key(s, k) == -1 ==> forall|i: int|
            0 <= i < s.len() ==> s[i].key@ != k,
        index_of_key(s, k) >= 0 ==> {
            &&& s[index_of_key(s, k)].key@ == k
            &&& forall|i: int| 0 <= i < index_of_key(s, k) ==> s[i].key@ != k
        },
    decreases s.len(),
{
    if s.len() > 0 && s[0].key@ != k {
        lemma_index_of_key(s.drop_first(), k);
        let rest = index_of_key(s.drop_first(), k);
        if rest == -1 {
            assert forall|i: int| 0 <= i < s.len() implies s[i].key@ != k by {
                if i > 0 {
                    assert(s.drop_first()[i - 1] == s[i]);
                }
            }
        } else {
            assert(s.drop_first()[rest] == s[rest + 1]);
            assert forall|i: int| 0 <= i < rest + 1 implies s[i].key@ != k by {
                if i > 0 {
                    assert(s.drop_first()[i - 1] == s[i]);
                }
            }
        }
    }
}

/// Replace the first entity carrying `e`'s key, or append `e` when the key
/// is new. The key of a replaced entity keeps its position.
pub open spec fn upsert_entity(s: Seq<RawEntity>, e: RawEntity) -> Seq<RawEntity> {
    if has_key(s, e.key@) {
        s.update(index_of_key(s, e.key@), e)
    } else {
        s.push(e)
    }
}

/// The entity sequence the builder produces from `rows`: invalid rows are
/// ignored, valid rows are upserted in order, so the last row wins on a
/// duplicate key.
pub open spec fn built_entities(rows: Seq<RawRow>, kind: EntityKind) -> Seq<RawEntity>
    decreases rows.len(),
{
    if rows.len() == 0 {
        Seq::empty()
    } else {
        let prev = built_entities(rows.drop_last(), kind);
        if row_valid(rows.last()) {
            upsert_entity(prev, entity_of_row(rows.last(), kind))
        } else {
            prev
        }
    }
}

/// Index of the first structurally invalid row, or `-1` when every row is
/// valid.
pub open spec fn first_invalid_row(rows: Seq<RawRow>) -> int
    decreases rows.len(),
{
    if rows.len() == 0 {
        -1
    } else if !row_valid(rows[0]) {
        0
    } else {
        let rest = first_invalid_row(rows.drop_first());
        if rest == -1 {
            -1
        } else {
            rest + 1
        }
    }
}

/// Every coordinate of the sequence is within the range the projection
/// arithmetic supports. The builder only ever produces such entities.
pub open spec fn coords_limited(s: Seq<RawEntity>) -> bool {
    forall|i: int|
        0 <= i < s.len() ==> {
            &&& -COORD_LIMIT <= (#[trigger] s[i]).lat <= COORD_LIMIT
            &&& -COORD_LIMIT <= s[i].long <= COORD_LIMIT
        }
}

/// Built entities keep their coordinates in range: they all come from
/// valid rows.
pub proof fn lemma_built_entities_coords_limited(rows: Seq<RawRow>, kind: EntityKind)
    ensures
        coords_limited(built_entities(rows, kind)),
    decreases rows.len(),
{
    if rows.len() > 0 {
        lemma_built_entities_coords_limited(rows.drop_last(), kind);
        let prev = built_entities(rows.drop_last(), kind);
        if row_valid(rows.last()) {
            let e = entity_of_row(rows.last(), kind);
            lemma_index_of_key(prev, e.key@);
            assert forall|i: int|
                0 <= i < upsert_entity(prev, e).len() implies {
                &&& -COORD_LIMIT <= (#[trigger] upsert_entity(prev, e)[i]).lat <= COORD_LIMIT
                &&& -COORD_LIMIT <= upsert_entity(prev, e)[i].long <= COORD_LIMIT
            } by {
                if upsert_entity(prev, e)[i] != e {
                    assert(upsert_entity(prev, e)[i] == prev[i]);
                }
            }
        }
    }
}

/// A keyed collection of entities from one source dataset.
#[derive(Debug)]
pub struct EntityCollection {
    pub entities: Vec<RawEntity>,
}

/// No two entities of `s` share a key.
pub open spec fn keys_unique(s: Seq<RawEntity>) -> bool {
    forall|i: int, j: int| 0 <= i < j < s.len() ==> s[i].key@ != s[j].key@
}

impl EntityCollection {
    /// The collection's invariant: keys are unique, so it denotes a map.
    pub open spec fn wf(self) -> bool {
        keys_unique(self.entities@)
    }

    /// Whether `k` is a key of the collection.
    pub open spec fn spec_contains_key(self, k: Seq<char>) -> bool {
        has_key(self.entities@, k)
    }

    /// The set of keys the collection holds.
    pub open spec fn key_set(self) -> Set<Seq<char>> {
        Set::new(|k: Seq<char>| has_key(self.entities@, k))
    }

    pub fn len(&self) -> (r: usize)
        ensures
            r == self.entities@.len(),
    {
        self.entities.len()
    }

    /// Linear search for the first entity with key `k`.
    pub fn find(&self, k: &String) -> (r: Option<usize>)
        ensures
            match r {
                Some(i) => i == index_of_key(self.entities@, k@),
                None => !self.spec_contains_key(k@),
            },
    {
        find_key_in(&self.entities, k)
    }

    /// Whether the collection holds an entity under key `k`.
    pub fn contains_key(&self, k: &String) -> (r: bool)
        ensures
            r == self.spec_contains_key(k@),
    {
        proof {
            lemma_index_of_key(self.entities@, k@);
        }
        self.find(k).is_some()
    }

    /// The entity under key `k`, when the collection holds one.
    pub fn get(&self, k: &String) -> (r: Option<&RawEntity>)
        ensures
            match r {
                Some(e) => self.spec_contains_key(k@) && *e == self.entities@[index_of_key(
                    self.entities@,
                    k@,
                )],
                None => !self.spec_contains_key(k@),
            },
    {
        proof {
            lemma_index_of_key(self.entities@, k@);
        }
        match self.find(k) {
            Some(i) => Some(&self.entities[i]),
            None => None,
        }
    }
}

/// Linear search for the first position in `entities` whose key is `k`.
fn find_key_in(entities: &Vec<RawEntity>, k: &String) -> (r: Option<usize>)
    ensures
        match r {
            Some(i) => i == index_of_key(entities@, k@),
            None => !has_key(entities@, k@),
        },
{
    let n = entities.len();
    let mut i: usize = 0;
    while i < n
        invariant
            n == entities@.len(),
            i <= n,
            forall|j: int| 0 <= j < i ==> entities@[j].key@ != k@,
        decreases n - i,
    {
        if entities[i].key == *k {
            proof {
                lemma_index_of_key_first_hit(entities@, k@, i as int);
            }
            return Some(i);
        }
        i += 1;
    }
    proof {
        lemma_index_of_key(entities@, k@);
    }
    None
}

/// If position `i` holds key `k` and no earlier position does, then `i` is
/// what `index_of_key` returns.
pub proof fn lemma_index_of_key_first_hit(s: Seq<RawEntity>, k: Seq<char>, i: int)
    requires
        0 <= i < s.len(),
        s[i].key@ == k,
        forall|j: int| 0 <= j < i ==> s[j].key@ != k,
    ensures
        index_of_key(s, k) == i,
    decreases s.len(),
{
    if i > 0 {
        lemma_index_of_key_first_hit(s.drop_first(), k, i - 1);
    }
}

/// What `first_invalid_row` returns: the first invalid row, or proof that
/// every row is valid.
pub proof fn lemma_first_invalid_row(rows: Seq<RawRow>)
    ensures
        -1 <= first_invalid_row(rows) < rows.len(),
        first_invalid_row(rows) == -1 ==> forall|i: int|
            0 <= i < rows.len() ==> row_valid(rows[i]),
        first_invalid_row(rows) >= 0 ==> {
            &&& !row_valid(rows[first_invalid_row(rows)])
            &&& forall|i: int| 0 <= i < first_invalid_row(rows) ==> row_valid(rows[i])
        },
    decreases rows.len(),
{
    if rows.len() > 0 && row_valid(rows[0]) {
        lemma_first_invalid_row(rows.drop_first());
        let rest = first_invalid_row(rows.drop_first());
        if rest == -1 {
            assert forall|i: int| 0 <= i < rows.len() implies row_valid(rows[i]) by {
                if i > 0 {
                    assert(rows.drop_first()[i - 1] == rows[i]);
                }
            }
        } else {
            assert(rows.drop_first()[rest] == rows[rest + 1]);
            assert forall|i: int| 0 <= i < rest + 1 implies row_valid(rows[i]) by {
                if i > 0 {
                    assert(rows.drop_first()[i - 1] == rows[i]);
                }
            }
        }
    }
}

/// If row `i` is invalid and every earlier row is valid, then `i` is what
/// `first_invalid_row` returns.
pub proof fn lemma_first_invalid_row_hit(rows: Seq<RawRow>, i: int)
    requires
        0 <= i < rows.len(),
        !row_valid(rows[i]),
        forall|j: int| 0 <= j < i ==> row_valid(rows[j]),
    ensures
        first_invalid_row(rows) == i,
    decreases rows.len(),
{
    if i > 0 {
        lemma_first_invalid_row_hit(rows.drop_first(), i - 1);
    }
}

/// Upserting keeps keys unique.
pub proof fn lemma_upsert_preserves_unique(s: Seq<RawEntity>, e: RawEntity)
    requires
        keys_unique(s),
    ensures
        keys_unique(upsert_entity(s, e)),
{
    lemma_index_of_key(s, e.key@);
    let t = upsert_entity(s, e);
    if has_key(s, e.key@) {
        let idx = index_of_key(s, e.key@);
        assert forall|i: int, j: int| 0 <= i < j < t.len() implies t[i].key@ != t[j].key@ by {
            assert(s[i].key@ != s[j].key@);
        }
    } else {
        assert forall|i: int, j: int| 0 <= i < j < t.len() implies t[i].key@ != t[j].key@ by {
            if j == s.len() {
                assert(t[i] == s[i]);
            } else {
                assert(s[i].key@ != s[j].key@);
            }
        }
    }
}

/// Clone an optional string, preserving the value exactly.
fn clone_opt_string(o: &Option<String>) -> (r: Option<String>)
    ensures
        r == *o,
{
    match o {
        Some(s) => Some(s.clone()),
        None => None,
    }
}

/// Build an [`EntityCollection`] from raw rows.
///
/// Invalid rows (a missing or out-of-range coordinate) are skipped in
/// lenient mode; in strict mode the first one aborts the whole build. On a
/// duplicate key the last row wins, keeping the position of the key's first
/// occurrence.
pub fn build_collection(rows: &Vec<RawRow>, kind: EntityKind, strict: bool) -> (r: Result<
    EntityCollection,
    IngestError,
>)
    ensures
        match r {
            Ok(c) => {
                &&& c.wf()
                &&& c.entities@ == built_entities(rows@, kind)
                &&& coords_limited(c.entities@)
                &&& (strict ==> first_invalid_row(rows@) == -1)
            },
            Err(e) => {
                &&& strict
                &&& e matches IngestError::RowParse { row } && row == first_invalid_row(rows@)
                &&& 0 <= first_invalid_row(rows@) < rows@.len()
            },
        },
{
    let mut entities: Vec<RawEntity> = Vec::new();
    let n = rows.len();
    let mut i: usize = 0;
    while i < n
        invariant
            n == rows@.len(),
            i <= n,
            keys_unique(entities@),
            entities@ == built_entities(rows@.take(i as int), kind),
            strict ==> forall|j: int| 0 <= j < i ==> row_valid(rows@[j]),
        decreases n - i,
    {
        proof {
            lemma_take_step(rows@, i as int);
        }
        let row = &rows[i];
        let (valid, la, lo) = match (row.lat, row.long) {
            (Some(la), Some(lo)) => (
                -COORD_LIMIT <= la && la <= COORD_LIMIT && -COORD_LIMIT <= lo && lo
                    <= COORD_LIMIT,
                la,
                lo,
            ),
            _ => (false, 0i64, 0i64),
        };
        if !valid {
            if strict {
                proof {
                    lemma_first_invalid_row_hit(rows@, i as int);
                }
                return Err(IngestError::RowParse { row: i });
            }
        } else {
            let e = RawEntity {
                kind,
                key: row.key.clone(),
                name: row.name.clone(),
                lat: la,
                long: lo,
                zone: clone_opt_string(&row.zone),
                postcode: clone_opt_string(&row.postcode),
            };
            proof {
                assert(e == entity_of_row(rows@[i as int], kind));
                lemma_upsert_preserves_unique(entities@, e);
                lemma_index_of_key(entities@, e.key@);
            }
            match find_key_in(&entities, &e.key) {
                Some(j) => {
                    entities.set(j, e);
                },
                None => {
                    entities.push(e);
                },
            }
        }
        i += 1;
    }
    proof {
        lemma_take_all(rows@);
        lemma_built_entities_coords_limited(rows@, kind);
        if strict {
            lemma_first_invalid_row(rows@);
        }
    }
    Ok(EntityCollection { entities })
}

} // verus!
