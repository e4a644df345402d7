//! The adjacency resolver: deriving edges from ordered sequence rows and
//! from explicit connection rows.
//!
//! A sequence table lists stops along a route run in file order; an edge is
//! emitted for a consecutive row pair exactly when the two rows share route
//! and run and both entity keys resolve in the collection. A connection
//! table names both endpoints on one row. Unresolved references are never
//! fatal: the edge is dropped and counted. Edges are not deduplicated — the
//! same key pair may yield several edges under different runs, by design.
//! The direction mode decides whether each adjacency is emitted once
//! (source to target) or mirrored in both directions.

use vstd::prelude::*;

use crate::label::clean_label;
use crate::label::clean_label_spec;
use crate::normalize::NormalizedCollection;

verus! {

/// One row of an ordered sequence table: a stop-on-route record.
#[derive(Debug, Clone, PartialEq)]
pub struct SequenceRow {
    pub route_id: String,
    pub run_id: i64,
    pub seq_no: i64,
    pub entity_key: String,
}

/// One row of a fixed-topology connection table: both endpoints named,
/// with an optional numeric attribute such as a travel time or load.
#[derive(Debug, Clone, PartialEq)]
pub struct ConnectionRow {
    pub key1: String,
    pub key2: String,
    pub route: String,
    pub weight: Option<i64>,
}

/// A directed relationship between two entities.
#[derive(Debug, Clone, PartialEq)]
pub struct Edge {
    pub source_key: String,
    pub target_key: String,
    pub label: String,
    pub weight: Option<i64>,
}

/// Whether each adjacency is emitted once or in both directions.
#[derive(Clone, Copy, PartialEq, Eq, Structural, Debug)]
pub enum DirectionMode {
    Single,
    Mirrored,
}

/// How many edges one adjacency yields under a direction mode.
pub open spec fn direction_factor(mode: DirectionMode) -> int {
    match mode {
        DirectionMode::Single => 1,
        DirectionMode::Mirrored => 2,
    }
}

/// The resolver's output: the edges, and how many adjacencies were dropped
/// because an entity key did not resolve.
#[derive(Debug)]
pub struct EdgeResolution {
    pub edges: Vec<Edge>,
    pub dropped: usize,
}

/// Two consecutive sequence rows belong to the same group: same route and
/// same run.
pub open spec fn rows_joined(a: SequenceRow, b: SequenceRow) -> bool {
    a.route_id@ == b.route_id@ && a.run_id == b.run_id
}

/// Pair `i` (rows `i` and `i + 1`) shares route and run.
pub open spec fn spec_joined_pair(rows: Seq<SequenceRow>, i: int) -> bool {
    0 <= i < rows.len() - 1 && rows_joined(rows[i], rows[i + 1])
}

/// Pair `i` shares route and run and both its entity keys resolve.
pub open spec fn spec_valid_pair(rows: Seq<SequenceRow>, keys: Set<Seq<char>>, i: int) -> bool {
    &&& spec_joined_pair(rows, i)
    &&& keys.contains(rows[i].entity_key@)
    &&& keys.contains(rows[i + 1].entity_key@)
}

/// How many of the first `n` pairs share route and run.
pub open spec fn joined_count_to(rows: Seq<SequenceRow>, n: int) -> int
    decreases n,
{
    if n <= 0 {
        0
    } else {
        joined_count_to(rows, n - 1) + if spec_joined_pair(rows, n - 1) {
            1int
        } else {
            0int
        }
    }
}

/// The indices of the valid pairs among the first `n`, in order.
pub open spec fn valid_pair_indices_to(
    rows: Seq<SequenceRow>,
    keys: Set<Seq<char>>,
    n: int,
) -> Seq<int>
    decreases n,
{
    if n <= 0 {
        Seq::empty()
    } else {
        valid_pair_indices_to(rows, keys, n - 1) + if spec_valid_pair(rows, keys, n - 1) {
            seq![n - 1]
        } else {
            Seq::empty()
        }
    }
}

/// The indices of all valid consecutive pairs, in order.
pub open spec fn valid_pair_indices(rows: Seq<SequenceRow>, keys: Set<Seq<char>>) -> Seq<int> {
    valid_pair_indices_to(rows, keys, rows.len() - 1)
}

/// How many valid consecutive pairs the sequence table holds.
pub open spec fn valid_pair_count(rows: Seq<SequenceRow>, keys: Set<Seq<char>>) -> int {
    valid_pair_indices(rows, keys).len() as int
}

/// An index is listed among the first `n` pair indices exactly when its
/// pair is valid: an edge is produced for a consecutive pair if and only
/// if the rows share route and run and both keys resolve.
pub proof fn lemma_valid_pair_indices_to(rows: Seq<SequenceRow>, keys: Set<Seq<char>>, n: int)
    ensures
        forall|i: int|
            #[trigger] valid_pair_indices_to(rows, keys, n).contains(i) <==> (i < n
                && spec_valid_pair(rows, keys, i)),
        forall|k: int|
            0 <= k < valid_pair_indices_to(rows, keys, n).len() ==> spec_valid_pair(
                rows,
                keys,
                #[trigger] valid_pair_indices_to(rows, keys, n)[k],
            ),
    decreases n,
{
    if n > 0 {
        lemma_valid_pair_indices_to(rows, keys, n - 1);
        let prev = valid_pair_indices_to(rows, keys, n - 1);
        let cur = valid_pair_indices_to(rows, keys, n);
        assert forall|i: int| #[trigger] cur.contains(i) implies (i < n && spec_valid_pair(rows, keys, i)) by {
            let k = choose|k: int| 0 <= k < cur.len() && cur[k] == i;
            if k < prev.len() {
                assert(prev[k] == i);
                assert(prev.contains(i));
            }
        }
        assert forall|i: int| (i < n && spec_valid_pair(rows, keys, i)) implies #[trigger] cur
            .contains(i) by {
            if i < n - 1 {
                assert(prev.contains(i));
                let k = choose|k: int| 0 <= k < prev.len() && prev[k] == i;
                assert(cur[k] == i);
            } else {
                assert(cur[cur.len() - 1] == i);
            }
        }
    }
}

/// Every edge of a listed pair relates its two rows: source from the
/// first, target from the second, the label cleaned from the route name.
pub open spec fn edge_matches_pair(e: Edge, a: SequenceRow, b: SequenceRow) -> bool {
    &&& e.source_key@ == a.entity_key@
    &&& e.target_key@ == b.entity_key@
    &&& e.label@ == clean_label_spec(b.route_id@)
    &&& e.weight is None
}

/// Scan consecutive sequence-row pairs and emit the edges of the valid
/// ones, in order; count the adjacencies dropped for an unresolved key.
pub fn resolve_sequence_edges(
    rows: &Vec<SequenceRow>,
    coll: &NormalizedCollection,
    mode: DirectionMode,
) -> (r: EdgeResolution)
    ensures
        r.edges@.len() == direction_factor(mode) * valid_pair_count(rows@, coll.key_set()),
        mode is Single ==> forall|k: int|
            0 <= k < valid_pair_count(rows@, coll.key_set()) ==> edge_matches_pair(
                #[trigger] r.edges@[k],
                rows@[valid_pair_indices(rows@, coll.key_set())[k]],
                rows@[valid_pair_indices(rows@, coll.key_set())[k] + 1],
            ),
        mode is Mirrored ==> forall|k: int|
            0 <= k < valid_pair_count(rows@, coll.key_set()) ==> {
                &&& edge_matches_pair(
                    #[trigger] r.edges@[2 * k],
                    rows@[valid_pair_indices(rows@, coll.key_set())[k]],
                    rows@[valid_pair_indices(rows@, coll.key_set())[k] + 1],
                )
                &&& edge_matches_pair(
                    r.edges@[2 * k + 1],
                    rows@[valid_pair_indices(rows@, coll.key_set())[k] + 1],
                    rows@[valid_pair_indices(rows@, coll.key_set())[k]],
                )
            },
        r.dropped == joined_count_to(rows@, rows@.len() - 1) - valid_pair_count(rows@, coll.key_set()),
{
    let n = rows.len();
    let mut edges: Vec<Edge> = Vec::new();
    let mut dropped: usize = 0;
    if n < 2 {
        return EdgeResolution { edges, dropped };
    }
    let mut i: usize = 0;
    while i < n - 1
        invariant
            n == rows@.len(),
            n >= 2,
            i <= n - 1,
            dropped <= i,
            edges@.len() == direction_factor(mode) * valid_pair_indices_to(
                rows@,
                coll.key_set(),
                i as int,
            ).len(),
            mode is Single ==> forall|k: int|
                0 <= k < valid_pair_indices_to(rows@, coll.key_set(), i as int).len()
                    ==> edge_matches_pair(
                    #[trigger] edges@[k],
                    rows@[valid_pair_indices_to(rows@, coll.key_set(), i as int)[k]],
                    rows@[valid_pair_indices_to(rows@, coll.key_set(), i as int)[k] + 1],
                ),
            mode is Mirrored ==> forall|k: int|
                0 <= k < valid_pair_indices_to(rows@, coll.key_set(), i as int).len() ==> {
                    &&& edge_matches_pair(
                        #[trigger] edges@[2 * k],
                        rows@[valid_pair_indices_to(rows@, coll.key_set(), i as int)[k]],
                        rows@[valid_pair_indices_to(rows@, coll.key_set(), i as int)[k] + 1],
                    )
                    &&& edge_matches_pair(
                        edges@[2 * k + 1],
                        rows@[valid_pair_indices_to(rows@, coll.key_set(), i as int)[k] + 1],
                        rows@[valid_pair_indices_to(rows@, coll.key_set(), i as int)[k]],
                    )
                },
            dropped == joined_count_to(rows@, i as int) - valid_pair_indices_to(
                rows@,
                coll.key_set(),
                i as int,
            ).len(),
        decreases n - 1 - i,
    {
        let a = &rows[i];
        let b = &rows[i + 1];
        let joined = a.route_id == b.route_id && a.run_id == b.run_id;
        if joined {
            let both = coll.contains_key(&a.entity_key) && coll.contains_key(&b.entity_key);
            if both {
                let label = clean_label(b.route_id.as_str());
                match mode {
                    DirectionMode::Single => {
                        edges.push(
                            Edge {
                                source_key: a.entity_key.clone(),
                                target_key: b.entity_key.clone(),
                                label,
                                weight: None,
                            },
                        );
                    },
                    DirectionMode::Mirrored => {
                        let label_back = label.clone();
                        edges.push(
                            Edge {
                                source_key: a.entity_key.clone(),
                                target_key: b.entity_key.clone(),
                                label,
                                weight: None,
                            },
                        );
                        edges.push(
                            Edge {
                                source_key: b.entity_key.clone(),
                                target_key: a.entity_key.clone(),
                                label: label_back,
                                weight: None,
                            },
                        );
                    },
                }
            } else {
                dropped += 1;
            }
        }
        i += 1;
    }
    EdgeResolution { edges, dropped }
}

/// Connection row `i` resolves: both named entity keys are in the
/// collection.
pub open spec fn spec_valid_conn(rows: Seq<ConnectionRow>, keys: Set<Seq<char>>, i: int) -> bool {
    &&& 0 <= i < rows.len()
    &&& keys.contains(rows[i].key1@)
    &&& keys.contains(rows[i].key2@)
}

/// The indices of the resolving rows among the first `n`, in order.
pub open spec fn valid_conn_indices_to(
    rows: Seq<ConnectionRow>,
    keys: Set<Seq<char>>,
    n: int,
) -> Seq<int>
    decreases n,
{
    if n <= 0 {
        Seq::empty()
    } else {
        valid_conn_indices_to(rows, keys, n - 1) + if spec_valid_conn(rows, keys, n - 1) {
            seq![n - 1]
        } else {
            Seq::empty()
        }
    }
}

/// The indices of all resolving connection rows, in order.
pub open spec fn valid_conn_indices(rows: Seq<ConnectionRow>, keys: Set<Seq<char>>) -> Seq<int> {
    valid_conn_indices_to(rows, keys, rows.len() as int)
}

/// How many connection rows resolve.
pub open spec fn valid_conn_count(rows: Seq<ConnectionRow>, keys: Set<Seq<char>>) -> int {
    valid_conn_indices(rows, keys).len() as int
}

/// An index is listed among the first `n` connection indices exactly when
/// its row resolves: an edge is produced for a connection row if and only
/// if both its keys resolve.
pub proof fn lemma_valid_conn_indices_to(rows: Seq<ConnectionRow>, keys: Set<Seq<char>>, n: int)
    ensures
        forall|i: int|
            #[trigger] valid_conn_indices_to(rows, keys, n).contains(i) <==> (i < n
                && spec_valid_conn(rows, keys, i)),
        forall|k: int|
            0 <= k < valid_conn_indices_to(rows, keys, n).len() ==> spec_valid_conn(
                rows,
                keys,
                #[trigger] valid_conn_indices_to(rows, keys, n)[k],
            ),
    decreases n,
{
    if n > 0 {
        lemma_valid_conn_indices_to(rows, keys, n - 1);
        let prev = valid_conn_indices_to(rows, keys, n - 1);
        let cur = valid_conn_indices_to(rows, keys, n);
        assert forall|i: int| #[trigger] cur.contains(i) implies (i < n && spec_valid_conn(
            rows,
            keys,
            i,
        )) by {
            let k = choose|k: int| 0 <= k < cur.len() && cur[k] == i;
            if k < prev.len() {
                assert(prev[k] == i);
                assert(prev.contains(i));
            }
        }
        assert forall|i: int| (i < n && spec_valid_conn(rows, keys, i)) implies #[trigger] cur
            .contains(i) by {
            if i < n - 1 {
                assert(prev.contains(i));
                let k = choose|k: int| 0 <= k < prev.len() && prev[k] == i;
                assert(cur[k] == i);
            } else {
                assert(cur[cur.len() - 1] == i);
            }
        }
    }
}

/// A forward edge of a connection row: first key to second key, the label
/// cleaned from the route name, the numeric attribute carried over.
pub open spec fn edge_matches_conn(e: Edge, row: ConnectionRow) -> bool {
    &&& e.source_key@ == row.key1@
    &&& e.target_key@ == row.key2@
    &&& e.label@ == clean_label_spec(row.route@)
    &&& e.weight == row.weight
}

/// The mirrored edge of a connection row: second key to first key.
pub open spec fn edge_matches_conn_rev(e: Edge, row: ConnectionRow) -> bool {
    &&& e.source_key@ == row.key2@
    &&& e.target_key@ == row.key1@
    &&& e.label@ == clean_label_spec(row.route@)
    &&& e.weight == row.weight
}

/// Emit the edges of the connection rows whose two endpoints both
/// resolve, in order; count the rows dropped for an unresolved key.
pub fn resolve_connection_edges(
    rows: &Vec<ConnectionRow>,
    coll: &NormalizedCollection,
    mode: DirectionMode,
) -> (r: EdgeResolution)
    ensures
        r.edges@.len() == direction_factor(mode) * valid_conn_count(rows@, coll.key_set()),
        mode is Single ==> forall|k: int|
            0 <= k < valid_conn_count(rows@, coll.key_set()) ==> edge_matches_conn(
                #[trigger] r.edges@[k],
                rows@[valid_conn_indices(rows@, coll.key_set())[k]],
            ),
        mode is Mirrored ==> forall|k: int|
            0 <= k < valid_conn_count(rows@, coll.key_set()) ==> {
                &&& edge_matches_conn(
                    #[trigger] r.edges@[2 * k],
                    rows@[valid_conn_indices(rows@, coll.key_set())[k]],
                )
                &&& edge_matches_conn_rev(
                    r.edges@[2 * k + 1],
                    rows@[valid_conn_indices(rows@, coll.key_set())[k]],
                )
            },
        r.dropped == rows@.len() - valid_conn_count(rows@, coll.key_set()),
{
    let n = rows.len();
    let mut edges: Vec<Edge> = Vec::new();
    let mut dropped: usize = 0;
    let mut i: usize = 0;
    while i < n
        invariant
            n == rows@.len(),
            i <= n,
            dropped <= i,
            edges@.len() == direction_factor(mode) * valid_conn_indices_to(
                rows@,
                coll.key_set(),
                i as int,
            ).len(),
            mode is Single ==> forall|k: int|
                0 <= k < valid_conn_indices_to(rows@, coll.key_set(), i as int).len()
                    ==> edge_matches_conn(
                    #[trigger] edges@[k],
                    rows@[valid_conn_indices_to(rows@, coll.key_set(), i as int)[k]],
                ),
            mode is Mirrored ==> forall|k: int|
                0 <= k < valid_conn_indices_to(rows@, coll.key_set(), i as int).len() ==> {
                    &&& edge_matches_conn(
                        #[trigger] edges@[2 * k],
                        rows@[valid_conn_indices_to(rows@, coll.key_set(), i as int)[k]],
                    )
                    &&& edge_matches_conn_rev(
                        edges@[2 * k + 1],
                        rows@[valid_conn_indices_to(rows@, coll.key_set(), i as int)[k]],
                    )
                },
            dropped == i - valid_conn_indices_to(rows@, coll.key_set(), i as int).len(),
        decreases n - i,
    {
        let row = &rows[i];
        let both = coll.contains_key(&row.key1) && coll.contains_key(&row.key2);
        if both {
            let label = clean_label(row.route.as_str());
            match mode {
                DirectionMode::Single => {
                    edges.push(
                        Edge {
                            source_key: row.key1.clone(),
                            target_key: row.key2.clone(),
                            label,
                            weight: row.weight,
                        },
                    );
                },
                DirectionMode::Mirrored => {
                    let label_back = label.clone();
                    edges.push(
                        Edge {
                            source_key: row.key1.clone(),
                            target_key: row.key2.clone(),
                            label,
                            weight: row.weight,
                        },
                    );
                    edges.push(
                        Edge {
                            source_key: row.key2.clone(),
                            target_key: row.key1.clone(),
                            label: label_back,
                            weight: row.weight,
                        },
                    );
                },
            }
        } else {
            dropped += 1;
        }
        i += 1;
    }
    EdgeResolution { edges, dropped }
}

} // verus!
