use transit_graph::adjacency::{
    resolve_connection_edges, resolve_sequence_edges, ConnectionRow, DirectionMode, Edge,
    SequenceRow,
};
use transit_graph::bounds::Bounds;
use transit_graph::entity::{build_collection, EntityKind, RawRow};
use transit_graph::errors::IngestError;
use transit_graph::loader::{apply_outcomes, chunk_operations, Loader, RunStatus};
use transit_graph::normalize::{normalize_collection, Canvas, NormalizedEntity};
use transit_graph::ops::{build_operations, WriteOperation};
use transit_graph::pipeline::{plan_ingest, IngestConfig};
use transit_graph::query::to_queries;

fn row(key: &str, lat: i64, long: i64) -> RawRow {
    RawRow {
        key: key.to_string(),
        name: key.to_string(),
        lat: Some(lat),
        long: Some(long),
        zone: None,
        postcode: None,
    }
}

fn seq_row(route: &str, run: i64, seq: i64, key: &str) -> SequenceRow {
    SequenceRow {
        route_id: route.to_string(),
        run_id: run,
        seq_no: seq,
        entity_key: key.to_string(),
    }
}

fn norm_entity(key: &str, x: i64, y: i64) -> NormalizedEntity {
    NormalizedEntity {
        kind: EntityKind::Stop,
        key: key.to_string(),
        name: key.to_string(),
        lat: 0,
        long: 0,
        x,
        y,
        zone: None,
        postcode: None,
    }
}

fn small_collection(keys: &[&str]) -> transit_graph::normalize::NormalizedCollection {
    let rows: Vec<RawRow> = keys
        .iter()
        .enumerate()
        .map(|(i, k)| row(k, i as i64, i as i64))
        .collect();
    let coll = build_collection(&rows, EntityKind::Stop, false).unwrap();
    let b = Bounds {
        min_lat: 0,
        max_lat: 100,
        min_long: 0,
        max_long: 100,
    };
    let canvas = Canvas {
        min_x: -100,
        max_x: 100,
        min_y: -100,
        max_y: 100,
    };
    normalize_collection(&coll, &b, &canvas)
}

#[test]
fn sequence_edges_example() {
    // Rows (route 1, run 1, seq 1, A), (route 1, run 1, seq 2, B) and
    // (route 1, run 2, seq 1, C): exactly one edge A -> B, none touching C.
    let nc = small_collection(&["A", "B", "C"]);
    let rows = vec![
        seq_row("1", 1, 1, "A"),
        seq_row("1", 1, 2, "B"),
        seq_row("1", 2, 1, "C"),
    ];
    let res = resolve_sequence_edges(&rows, &nc, DirectionMode::Single);
    assert_eq!(res.edges.len(), 1);
    assert_eq!(res.edges[0].source_key, "A");
    assert_eq!(res.edges[0].target_key, "B");
    assert_eq!(res.edges[0].label, "1");
    assert_eq!(res.edges[0].weight, None);
    assert!(res
        .edges
        .iter()
        .all(|e| e.source_key != "C" && e.target_key != "C"));
    assert_eq!(res.dropped, 0);
}

#[test]
fn sequence_edges_mirrored_mode() {
    let nc = small_collection(&["A", "B"]);
    let rows = vec![seq_row("7", 3, 1, "A"), seq_row("7", 3, 2, "B")];
    let res = resolve_sequence_edges(&rows, &nc, DirectionMode::Mirrored);
    assert_eq!(res.edges.len(), 2);
    assert_eq!(res.edges[0].source_key, "A");
    assert_eq!(res.edges[0].target_key, "B");
    assert_eq!(res.edges[1].source_key, "B");
    assert_eq!(res.edges[1].target_key, "A");
}

#[test]
fn sequence_edges_drop_unresolved_counted() {
    // The pair shares route and run but one key is unknown: the edge is
    // dropped, counted, and the run goes on.
    let nc = small_collection(&["A", "B"]);
    let rows = vec![
        seq_row("9", 1, 1, "A"),
        seq_row("9", 1, 2, "GHOST"),
        seq_row("9", 1, 3, "B"),
    ];
    let res = resolve_sequence_edges(&rows, &nc, DirectionMode::Single);
    assert_eq!(res.edges.len(), 0);
    assert_eq!(res.dropped, 2);
}

#[test]
fn connection_edges_carry_weight() {
    let nc = small_collection(&["A", "B", "C"]);
    let rows = vec![
        ConnectionRow {
            key1: "A".to_string(),
            key2: "B".to_string(),
            route: "Northern Line".to_string(),
            weight: Some(12),
        },
        ConnectionRow {
            key1: "B".to_string(),
            key2: "MISSING".to_string(),
            route: "Northern Line".to_string(),
            weight: None,
        },
    ];
    let res = resolve_connection_edges(&rows, &nc, DirectionMode::Single);
    assert_eq!(res.edges.len(), 1);
    assert_eq!(res.edges[0].source_key, "A");
    assert_eq!(res.edges[0].target_key, "B");
    assert_eq!(res.edges[0].label, "NORTHERN");
    assert_eq!(res.edges[0].weight, Some(12));
    assert_eq!(res.dropped, 1);

    let mirrored = resolve_connection_edges(&rows, &nc, DirectionMode::Mirrored);
    assert_eq!(mirrored.edges.len(), 2);
    assert_eq!(mirrored.edges[1].source_key, "B");
    assert_eq!(mirrored.edges[1].target_key, "A");
    assert_eq!(mirrored.edges[1].weight, Some(12));
}

#[test]
fn batch_orders_nodes_before_edges() {
    let nc = small_collection(&["A", "B"]);
    let edges = vec![Edge {
        source_key: "A".to_string(),
        target_key: "B".to_string(),
        label: "ROUTE_1".to_string(),
        weight: None,
    }];
    let ops = build_operations(&nc, &edges, true).unwrap();
    assert_eq!(ops.len(), 4);
    assert!(matches!(ops[0], WriteOperation::ClearAll));
    assert!(matches!(ops[1], WriteOperation::CreateNode { .. }));
    assert!(matches!(ops[2], WriteOperation::CreateNode { .. }));
    assert!(matches!(ops[3], WriteOperation::CreateEdge { .. }));

    let no_clear = build_operations(&nc, &edges, false).unwrap();
    assert_eq!(no_clear.len(), 3);
    assert!(matches!(no_clear[0], WriteOperation::CreateNode { .. }));
}

#[test]
fn batch_rejects_invalid_label() {
    let nc = small_collection(&["A", "B"]);
    let edges = vec![Edge {
        source_key: "A".to_string(),
        target_key: "B".to_string(),
        label: "BAD-LABEL".to_string(),
        weight: None,
    }];
    let err = build_operations(&nc, &edges, false).unwrap_err();
    assert_eq!(
        err,
        IngestError::InvalidLabel {
            label: "BAD-LABEL".to_string()
        }
    );
    assert!(!err.describe().is_empty());
}

fn node_ops(n: usize) -> Vec<WriteOperation> {
    (0..n)
        .map(|i| WriteOperation::CreateNode {
            entity: norm_entity(&format!("K{}", i), i as i64, -(i as i64)),
        })
        .collect()
}

#[test]
fn chunking_exact() {
    // 5 operations with chunk size 2: ceil(5/2) = 3 chunks of sizes
    // 2, 2, 1, and concatenating them reproduces the original list.
    let ops = node_ops(5);
    let chunks = chunk_operations(ops.clone(), 2);
    assert_eq!(chunks.len(), 3);
    assert_eq!(chunks[0].len(), 2);
    assert_eq!(chunks[1].len(), 2);
    assert_eq!(chunks[2].len(), 1);
    let flat: Vec<WriteOperation> = chunks.into_iter().flatten().collect();
    assert_eq!(flat, ops);
}

#[test]
fn chunking_exact_multiples_and_empty() {
    let ops = node_ops(4);
    let chunks = chunk_operations(ops.clone(), 2);
    assert_eq!(chunks.len(), 2);
    let flat: Vec<WriteOperation> = chunks.into_iter().flatten().collect();
    assert_eq!(flat, ops);

    let none = chunk_operations(Vec::new(), 10);
    assert_eq!(none.len(), 0);

    let one = chunk_operations(node_ops(3), 10);
    assert_eq!(one.len(), 1);
    assert_eq!(one[0].len(), 3);
}

#[test]
fn partial_failure_keeps_prefix_only() {
    // Three chunks, the second fails: chunk one's operations are durable,
    // chunks two and three are absent, and the report names chunk index 1.
    let ops = node_ops(5);
    let chunks = chunk_operations(ops.clone(), 2);
    let outcomes = vec![true, false, true];
    let (report, durable) = apply_outcomes(&chunks, &outcomes);
    assert_eq!(report.chunks_committed, 1);
    assert_eq!(report.failed_chunk, Some(1));
    assert_eq!(durable, ops[0..2].to_vec());
    for op in &ops[2..] {
        assert!(!durable.contains(op));
    }
}

#[test]
fn all_chunks_commit() {
    let ops = node_ops(5);
    let chunks = chunk_operations(ops.clone(), 2);
    let outcomes = vec![true, true, true];
    let (report, durable) = apply_outcomes(&chunks, &outcomes);
    assert_eq!(report.chunks_committed, 3);
    assert_eq!(report.failed_chunk, None);
    assert_eq!(durable, ops);
}

#[test]
fn loader_machine_transitions() {
    let mut machine = Loader::start(2);
    assert_eq!(machine.status, RunStatus::Idle);
    assert_eq!(machine.next_chunk(), Some(0));
    assert_eq!(machine.status, RunStatus::ChunkInFlight);
    machine.record_outcome(true);
    assert_eq!(machine.status, RunStatus::Idle);
    assert_eq!(machine.next_chunk(), Some(1));
    machine.record_outcome(true);
    assert_eq!(machine.status, RunStatus::Committed);
    assert_eq!(machine.committed, 2);
    assert_eq!(machine.next_chunk(), None);

    let mut failing = Loader::start(3);
    assert_eq!(failing.next_chunk(), Some(0));
    failing.record_outcome(true);
    assert_eq!(failing.next_chunk(), Some(1));
    failing.record_outcome(false);
    assert_eq!(failing.status, RunStatus::Failed);
    assert_eq!(failing.committed, 1);
    assert_eq!(failing.next_chunk(), None);

    let empty = Loader::start(0);
    assert_eq!(empty.status, RunStatus::Committed);
}

fn example_config(chunk_size: usize, clear_first: bool) -> IngestConfig {
    IngestConfig {
        chunk_size,
        strict: false,
        canvas: Canvas {
            min_x: -100,
            max_x: 100,
            min_y: -100,
            max_y: 100,
        },
        mode: DirectionMode::Single,
        clear_first,
    }
}

#[test]
fn plan_ingest_end_to_end() {
    let rows = vec![row("A", 0, 0), row("B", 10, 10)];
    let coll = build_collection(&rows, EntityKind::Station, false).unwrap();
    let b = Bounds {
        min_lat: 0,
        max_lat: 10,
        min_long: 0,
        max_long: 10,
    };
    let seq_rows = vec![
        seq_row("1", 1, 1, "A"),
        seq_row("1", 1, 2, "B"),
        seq_row("1", 2, 1, "GHOST"),
    ];
    let conn_rows = Vec::new();
    let plan = plan_ingest(&coll, &b, &seq_rows, &conn_rows, &example_config(2, true)).unwrap();
    assert_eq!(plan.entity_count, 2);
    assert_eq!(plan.edge_count, 1);
    assert_eq!(plan.dropped_sequence_refs, 0);
    assert_eq!(plan.dropped_connection_refs, 0);
    // clear-all + two nodes + one edge = 4 operations in 2 chunks of 2.
    assert_eq!(plan.chunks.len(), 2);
    let flat: Vec<WriteOperation> = plan.chunks.iter().flatten().cloned().collect();
    assert_eq!(flat.len(), 4);
    assert!(matches!(flat[0], WriteOperation::ClearAll));
    assert!(matches!(flat[1], WriteOperation::CreateNode { .. }));
    assert!(matches!(flat[2], WriteOperation::CreateNode { .. }));
    match &flat[3] {
        WriteOperation::CreateEdge { edge } => {
            assert_eq!(edge.source_key, "A");
            assert_eq!(edge.target_key, "B");
        }
        other => panic!("expected an edge operation, got {:?}", other),
    }
    // The normalized collection landed on the canvas corners.
    assert_eq!(
        (plan.collection.entities[0].x, plan.collection.entities[0].y),
        (-100, 100)
    );
    assert_eq!(
        (plan.collection.entities[1].x, plan.collection.entities[1].y),
        (100, -100)
    );
}

#[test]
fn plan_ingest_rejects_invalid_label() {
    let rows = vec![row("A", 0, 0), row("B", 10, 10)];
    let coll = build_collection(&rows, EntityKind::Station, false).unwrap();
    let b = Bounds {
        min_lat: 0,
        max_lat: 10,
        min_long: 0,
        max_long: 10,
    };
    // The cleaned label of "A/B route" keeps the slash and fails the
    // allow-list.
    let seq_rows = vec![seq_row("A/B route", 1, 1, "A"), seq_row("A/B route", 1, 2, "B")];
    let conn_rows = Vec::new();
    let err = plan_ingest(&coll, &b, &seq_rows, &conn_rows, &example_config(2, false)).unwrap_err();
    match err {
        IngestError::InvalidLabel { label } => assert_eq!(label, "A/B_ROUTE"),
        other => panic!("expected an invalid-label error, got {:?}", other),
    }
}

#[test]
fn queries_bind_parameters() {
    let nc = small_collection(&["A", "B"]);
    let edges = vec![Edge {
        source_key: "A".to_string(),
        target_key: "B".to_string(),
        label: "ROUTE_1".to_string(),
        weight: Some(5),
    }];
    let ops = build_operations(&nc, &edges, true).unwrap();
    let queries = to_queries(&ops);
    assert_eq!(queries.len(), 4);
    // The clear-all carries no parameters.
    assert!(!queries[0].has_param_key("x"));
    // Node queries bind coordinates, name, key and zone.
    assert!(queries[1].has_param_key("x"));
    assert!(queries[1].has_param_key("y"));
    assert!(queries[1].has_param_key("name"));
    assert!(queries[1].has_param_key("key"));
    assert!(queries[1].has_param_key("zone"));
    assert!(!queries[1].has_param_key("akey"));
    // Edge queries bind the endpoints and the weight.
    assert!(queries[3].has_param_key("akey"));
    assert!(queries[3].has_param_key("bkey"));
    assert!(queries[3].has_param_key("weight"));
}
