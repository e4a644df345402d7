//! The whole in-memory pipeline for one source dataset: normalize the
//! collection, resolve the adjacencies, batch the write operations and
//! partition them into chunks, ready for the transactional loader.
//!
//! Callers build the collection per source, widen the shared bounds across
//! every source, and then plan each source's ingest against those bounds so
//! all datasets land on one canvas. Everything up to the store boundary is
//! computed here; sending the chunks is the outer loop's job, driven by
//! [`crate::loader::Loader`].

use vstd::prelude::*;

use crate::adjacency::ConnectionRow;
use crate::adjacency::DirectionMode;
use crate::adjacency::Edge;
use crate::adjacency::SequenceRow;
use crate::adjacency::direction_factor;
use crate::adjacency::edge_matches_conn;
use crate::adjacency::edge_matches_conn_rev;
use crate::adjacency::edge_matches_pair;
use crate::adjacency::joined_count_to;
use crate::adjacency::lemma_valid_conn_indices_to;
use crate::adjacency::lemma_valid_pair_indices_to;
use crate::adjacency::resolve_connection_edges;
use crate::adjacency::resolve_sequence_edges;
use crate::adjacency::spec_valid_conn;
use crate::adjacency::spec_valid_pair;
use crate::adjacency::valid_conn_count;
use crate::adjacency::valid_conn_indices;
use crate::adjacency::valid_pair_count;
use crate::adjacency::valid_pair_indices;
use crate::bounds::Bounds;
use crate::entity::EntityCollection;
use crate::errors::IngestError;
use crate::label::clean_label_spec;
use crate::label::spec_valid_label;
use crate::loader::ceil_div;
use crate::loader::chunk_operations;
use crate::loader::chunk_views;
use crate::normalize::Canvas;
use crate::normalize::NormalizedCollection;
use crate::normalize::normalize_collection;
use crate::normalize::normalized_entity_of;
use crate::ops::WriteOperation;
use crate::ops::build_operations;
use crate::ops::first_invalid_label;
use crate::ops::lemma_first_invalid_label;
use crate::ops::ops_model;

verus! {

/// The configuration surface of one run.
pub struct IngestConfig {
    /// Operations per transaction; must be positive.
    pub chunk_size: usize,
    /// Abort the collection build on the first structurally invalid row
    /// instead of skipping it.
    pub strict: bool,
    /// The canvas every dataset is projected onto.
    pub canvas: Canvas,
    /// Emit each adjacency once or mirrored in both directions.
    pub mode: DirectionMode,
    /// Wipe the graph before the first chunk of this run.
    pub clear_first: bool,
}

/// Everything one planned run will send, with the counts the caller
/// reports: entities and edges loaded, and references dropped per table.
#[derive(Debug)]
pub struct IngestPlan {
    pub collection: NormalizedCollection,
    pub edges: Vec<Edge>,
    pub chunks: Vec<Vec<WriteOperation>>,
    pub entity_count: usize,
    pub edge_count: usize,
    pub dropped_sequence_refs: usize,
    pub dropped_connection_refs: usize,
}

/// Some adjacency that would be materialized carries a route or line name
/// whose cleaned label fails the allow-list.
pub open spec fn some_label_invalid(
    seq_rows: Seq<SequenceRow>,
    conn_rows: Seq<ConnectionRow>,
    keys: Set<Seq<char>>,
) -> bool {
    ||| exists|i: int|
        spec_valid_pair(seq_rows, keys, i) && !spec_valid_label(
            clean_label_spec(seq_rows[i + 1].route_id@),
        )
    ||| exists|i: int|
        spec_valid_conn(conn_rows, keys, i) && !spec_valid_label(
            clean_label_spec(conn_rows[i].route@),
        )
}

/// Plan one source's ingest: project every entity onto the canvas, derive
/// the edges from both tables, validate every label, and batch and chunk
/// the write operations. Fails exactly when some edge's cleaned label
/// fails the allow-list.
#[verifier::rlimit(50)]
pub fn plan_ingest(
    coll: &EntityCollection,
    b: &Bounds,
    seq_rows: &Vec<SequenceRow>,
    conn_rows: &Vec<ConnectionRow>,
    config: &IngestConfig,
) -> (r: Result<IngestPlan, IngestError>)
    requires
        coll.wf(),
        b.wf(),
        config.canvas.wf(),
        config.chunk_size > 0,
        forall|i: int|
            0 <= i < coll.entities@.len() ==> b.contains(
                #[trigger] coll.entities@[i].lat as int,
                coll.entities@[i].long as int,
            ),
    ensures
        match r {
            Ok(plan) => {
                let keys = coll.key_set();
                let factor = direction_factor(config.mode);
                let spc = valid_pair_count(seq_rows@, keys);
                let ccc = valid_conn_count(conn_rows@, keys);
                let model = ops_model(plan.collection, plan.edges@, config.clear_first);
                &&& !some_label_invalid(seq_rows@, conn_rows@, keys)
                &&& plan.collection.entities@.len() == coll.entities@.len()
                &&& forall|i: int|
                    0 <= i < coll.entities@.len() ==> plan.collection.entities@[i]
                        == normalized_entity_of(#[trigger] coll.entities@[i], *b, config.canvas)
                &&& plan.collection.wf()
                &&& plan.collection.key_set() == keys
                &&& plan.edges@.len() == factor * (spc + ccc)
                &&& (config.mode is Single ==> forall|k: int|
                    0 <= k < spc ==> edge_matches_pair(
                        #[trigger] plan.edges@[k],
                        seq_rows@[valid_pair_indices(seq_rows@, keys)[k]],
                        seq_rows@[valid_pair_indices(seq_rows@, keys)[k] + 1],
                    ))
                &&& (config.mode is Mirrored ==> forall|k: int|
                    0 <= k < spc ==> {
                        &&& edge_matches_pair(
                            #[trigger] plan.edges@[2 * k],
                            seq_rows@[valid_pair_indices(seq_rows@, keys)[k]],
                            seq_rows@[valid_pair_indices(seq_rows@, keys)[k] + 1],
                        )
                        &&& edge_matches_pair(
                            plan.edges@[2 * k + 1],
                            seq_rows@[valid_pair_indices(seq_rows@, keys)[k] + 1],
                            seq_rows@[valid_pair_indices(seq_rows@, keys)[k]],
                        )
                    })
                &&& (config.mode is Single ==> forall|k: int|
                    0 <= k < ccc ==> edge_matches_conn(
                        #[trigger] plan.edges@[spc + k],
                        conn_rows@[valid_conn_indices(conn_rows@, keys)[k]],
                    ))
                &&& (config.mode is Mirrored ==> forall|k: int|
                    0 <= k < ccc ==> {
                        &&& edge_matches_conn(
                            #[trigger] plan.edges@[2 * spc + 2 * k],
                            conn_rows@[valid_conn_indices(conn_rows@, keys)[k]],
                        )
                        &&& edge_matches_conn_rev(
                            plan.edges@[2 * spc + 2 * k + 1],
                            conn_rows@[valid_conn_indices(conn_rows@, keys)[k]],
                        )
                    })
                &&& first_invalid_label(plan.edges@) == -1
                &&& chunk_views(plan.chunks@).flatten() == model
                &&& plan.chunks@.len() == ceil_div(model.len() as int, config.chunk_size as int)
                &&& (forall|i: int|
                    0 <= i < plan.chunks@.len() ==> (#[trigger] plan.chunks@[i])@.len()
                        <= config.chunk_size)
                &&& (forall|i: int|
                    0 <= i < plan.chunks@.len() - 1 ==> (#[trigger] plan.chunks@[i])@.len()
                        == config.chunk_size)
                &&& plan.entity_count == coll.entities@.len()
                &&& plan.edge_count == plan.edges@.len()
                &&& plan.dropped_sequence_refs == joined_count_to(seq_rows@, seq_rows@.len() - 1)
                    - spc
                &&& plan.dropped_connection_refs == conn_rows@.len() - ccc
            },
            Err(e) => {
                &&& some_label_invalid(seq_rows@, conn_rows@, coll.key_set())
                &&& e matches IngestError::InvalidLabel { label } && !spec_valid_label(label@)
            },
        },
{
    let ghost keys = coll.key_set();
    let nc = normalize_collection(coll, b, &config.canvas);
    let seq_res = resolve_sequence_edges(seq_rows, &nc, config.mode);
    let conn_res = resolve_connection_edges(conn_rows, &nc, config.mode);
    let ghost spc = valid_pair_count(seq_rows@, keys);
    let ghost ccc = valid_conn_count(conn_rows@, keys);
    let ghost factor = direction_factor(config.mode);
    let ghost seq_part = seq_res.edges@;
    let mut edges = seq_res.edges;
    let mut conn_edges = conn_res.edges;
    let ghost conn_part = conn_edges@;
    edges.append(&mut conn_edges);
    proof {
        assert(edges@ == seq_part + conn_part);
        assert(edges@.len() == factor * spc + factor * ccc);
        assert(factor * (spc + ccc) == factor * spc + factor * ccc) by (nonlinear_arith);
    }
    let entity_count = coll.entities.len();
    let edge_count = edges.len();
    match build_operations(&nc, &edges, config.clear_first) {
        Err(e) => {
            proof {
                let fi = first_invalid_label(edges@);
                lemma_first_invalid_label(edges@);
                let bad = edges@[fi];
                lemma_valid_pair_indices_to(seq_rows@, keys, seq_rows@.len() - 1);
                lemma_valid_conn_indices_to(conn_rows@, keys, conn_rows@.len() as int);
                if fi < seq_part.len() {
                    assert(edges@[fi] == seq_part[fi]);
                    let idx = valid_pair_indices(seq_rows@, keys);
                    let k = if factor == 2 {
                        fi / 2
                    } else {
                        fi
                    };
                    if factor == 2 {
                        vstd::arithmetic::div_mod::lemma_fundamental_div_mod(fi, 2);
                        vstd::arithmetic::div_mod::lemma_mod_division_less_than_divisor(fi, 2);
                        vstd::arithmetic::div_mod::lemma_div_pos_is_pos(fi, 2);
                        assert(fi == 2 * k || fi == 2 * k + 1);
                        assert(k < spc) by {
                            if k >= spc {
                                assert(2 * k >= 2 * spc) by (nonlinear_arith)
                                    requires
                                        k >= spc,
                                ;
                            }
                        }
                        let i = idx[k];
                        assert(edge_matches_pair(
                            seq_part[2 * k],
                            seq_rows@[idx[k]],
                            seq_rows@[idx[k] + 1],
                        ));
                        assert(edge_matches_pair(
                            seq_part[2 * k + 1],
                            seq_rows@[idx[k] + 1],
                            seq_rows@[idx[k]],
                        ));
                        assert(0 <= k < idx.len() && idx[k] == i);
                        assert(idx.contains(i));
                        assert(spec_valid_pair(seq_rows@, keys, i));
                        assert(seq_rows@[i].route_id@ == seq_rows@[i + 1].route_id@);
                        assert(bad.label@ == clean_label_spec(seq_rows@[i + 1].route_id@));
                    } else {
                        let i = idx[k];
                        assert(edge_matches_pair(
                            seq_part[k],
                            seq_rows@[idx[k]],
                            seq_rows@[idx[k] + 1],
                        ));
                        assert(0 <= k < idx.len() && idx[k] == i);
                        assert(idx.contains(i));
                        assert(spec_valid_pair(seq_rows@, keys, i));
                        assert(bad.label@ == clean_label_spec(seq_rows@[i + 1].route_id@));
                    }
                } else {
                    let idx = valid_conn_indices(conn_rows@, keys);
                    let off = fi - seq_part.len();
                    assert(edges@[fi] == conn_part[off]);
                    let k = if factor == 2 {
                        off / 2
                    } else {
                        off
                    };
                    if factor == 2 {
                        vstd::arithmetic::div_mod::lemma_fundamental_div_mod(off, 2);
                        vstd::arithmetic::div_mod::lemma_mod_division_less_than_divisor(off, 2);
                        vstd::arithmetic::div_mod::lemma_div_pos_is_pos(off, 2);
                        assert(off == 2 * k || off == 2 * k + 1);
                        assert(k < ccc) by {
                            if k >= ccc {
                                assert(2 * k >= 2 * ccc) by (nonlinear_arith)
                                    requires
                                        k >= ccc,
                                ;
                            }
                        }
                        let i = idx[k];
                        assert(edge_matches_conn(conn_part[2 * k], conn_rows@[idx[k]]));
                        assert(edge_matches_conn_rev(conn_part[2 * k + 1], conn_rows@[idx[k]]));
                        assert(0 <= k < idx.len() && idx[k] == i);
                        assert(idx.contains(i));
                        assert(spec_valid_conn(conn_rows@, keys, i));
                        assert(bad.label@ == clean_label_spec(conn_rows@[i].route@));
                    } else {
                        let i = idx[k];
                        assert(edge_matches_conn(conn_part[k], conn_rows@[idx[k]]));
                        assert(0 <= k < idx.len() && idx[k] == i);
                        assert(idx.contains(i));
                        assert(spec_valid_conn(conn_rows@, keys, i));
                        assert(bad.label@ == clean_label_spec(conn_rows@[i].route@));
                    }
                }
            }
            Err(e)
        },
        Ok(ops) => {
            proof {
                lemma_first_invalid_label(edges@);
                lemma_valid_pair_indices_to(seq_rows@, keys, seq_rows@.len() - 1);
                lemma_valid_conn_indices_to(conn_rows@, keys, conn_rows@.len() as int);
                assert(!some_label_invalid(seq_rows@, conn_rows@, keys)) by {
                    if exists|i: int|
                        spec_valid_pair(seq_rows@, keys, i) && !spec_valid_label(
                            clean_label_spec(seq_rows@[i + 1].route_id@),
                        ) {
                        let i = choose|i: int|
                            spec_valid_pair(seq_rows@, keys, i) && !spec_valid_label(
                                clean_label_spec(seq_rows@[i + 1].route_id@),
                            );
                        let idx = valid_pair_indices(seq_rows@, keys);
                        assert(idx.contains(i));
                        let k = choose|k: int| 0 <= k < idx.len() && idx[k] == i;
                        if factor == 2 {
                            assert(0 <= 2 * k && 2 * k < seq_part.len()) by (nonlinear_arith)
                                requires
                                    0 <= k < spc,
                                    seq_part.len() == 2 * spc,
                            ;
                            assert(edge_matches_pair(
                                seq_part[2 * k],
                                seq_rows@[idx[k]],
                                seq_rows@[idx[k] + 1],
                            ));
                            assert(edges@[2 * k] == seq_part[2 * k]);
                            assert(edges@[2 * k].label@ == clean_label_spec(
                                seq_rows@[i + 1].route_id@,
                            ));
                        } else {
                            assert(edge_matches_pair(
                                seq_part[k],
                                seq_rows@[idx[k]],
                                seq_rows@[idx[k] + 1],
                            ));
                            assert(edges@[k] == seq_part[k]);
                            assert(edges@[k].label@ == clean_label_spec(
                                seq_rows@[i + 1].route_id@,
                            ));
                        }
                    }
                    if exists|i: int|
                        spec_valid_conn(conn_rows@, keys, i) && !spec_valid_label(
                            clean_label_spec(conn_rows@[i].route@),
                        ) {
                        let i = choose|i: int|
                            spec_valid_conn(conn_rows@, keys, i) && !spec_valid_label(
                                clean_label_spec(conn_rows@[i].route@),
                            );
                        let idx = valid_conn_indices(conn_rows@, keys);
                        assert(idx.contains(i));
                        let k = choose|k: int| 0 <= k < idx.len() && idx[k] == i;
                        if factor == 2 {
                            assert(0 <= 2 * k && 2 * k < conn_part.len()) by (nonlinear_arith)
                                requires
                                    0 <= k < ccc,
                                    conn_part.len() == 2 * ccc,
                            ;
                            assert(edge_matches_conn(conn_part[2 * k], conn_rows@[idx[k]]));
                            assert(edges@[seq_part.len() + 2 * k] == conn_part[2 * k]);
                            assert(edges@[seq_part.len() + 2 * k].label@ == clean_label_spec(
                                conn_rows@[i].route@,
                            ));
                        } else {
                            assert(edge_matches_conn(conn_part[k], conn_rows@[idx[k]]));
                            assert(edges@[seq_part.len() + k] == conn_part[k]);
                            assert(edges@[seq_part.len() + k].label@ == clean_label_spec(
                                conn_rows@[i].route@,
                            ));
                        }
                    }
                }
            }
            let chunks = chunk_operations(ops, config.chunk_size);
            let dropped_sequence_refs = seq_res.dropped;
            let dropped_connection_refs = conn_res.dropped;
            Ok(
                IngestPlan {
                    collection: nc,
                    edges,
                    chunks,
                    entity_count,
                    edge_count,
                    dropped_sequence_refs,
                    dropped_connection_refs,
                },
            )
        },
    }
}

} // verus!
