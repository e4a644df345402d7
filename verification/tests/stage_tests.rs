use transit_graph::bounds::{
    calculate_lat_bounds, calculate_long_bounds, make_bounds, widen_bounds, Bounds,
};
use transit_graph::entity::{build_collection, EntityKind, RawRow};
use transit_graph::errors::IngestError;
use transit_graph::label::{clean_label, is_valid_label};
use transit_graph::normalize::{normalize_collection, project, Canvas};

fn row(key: &str, name: &str, lat: Option<i64>, long: Option<i64>) -> RawRow {
    RawRow {
        key: key.to_string(),
        name: name.to_string(),
        lat,
        long,
        zone: None,
        postcode: None,
    }
}

fn square_canvas(half: i64) -> Canvas {
    Canvas {
        min_x: -half,
        max_x: half,
        min_y: -half,
        max_y: half,
    }
}

#[test]
fn build_lenient_skips_invalid_rows() {
    let rows = vec![
        row("A", "Alpha", Some(1), Some(2)),
        row("B", "Beta", None, Some(3)),
        row("C", "Gamma", Some(4), None),
        row("D", "Delta", Some(5), Some(6)),
    ];
    let coll = build_collection(&rows, EntityKind::Station, false).unwrap();
    assert_eq!(coll.len(), 2);
    assert_eq!(coll.entities[0].key, "A");
    assert_eq!(coll.entities[1].key, "D");
}

#[test]
fn build_empty_input() {
    let coll = build_collection(&Vec::new(), EntityKind::Station, true).unwrap();
    assert_eq!(coll.len(), 0);
    assert!(!coll.contains_key(&"A".to_string()));
}

#[test]
fn build_strict_reports_first_invalid_row() {
    let rows = vec![
        row("A", "Alpha", Some(1), Some(2)),
        row("B", "Beta", None, Some(3)),
        row("C", "Gamma", Some(4), None),
    ];
    let err = build_collection(&rows, EntityKind::Station, true).unwrap_err();
    assert_eq!(err, IngestError::RowParse { row: 1 });
    assert!(!err.describe().is_empty());
}

#[test]
fn build_last_row_wins_on_duplicate_key() {
    let rows = vec![
        row("A", "Old name", Some(1), Some(1)),
        row("B", "Beta", Some(2), Some(2)),
        row("A", "New name", Some(9), Some(9)),
    ];
    let coll = build_collection(&rows, EntityKind::Stop, false).unwrap();
    assert_eq!(coll.len(), 2);
    assert_eq!(coll.entities[0].key, "A");
    assert_eq!(coll.entities[0].name, "New name");
    assert_eq!(coll.entities[0].lat, 9);
    assert_eq!(coll.entities[1].key, "B");
}

#[test]
fn collection_find_and_contains() {
    let rows = vec![
        row("A", "Alpha", Some(1), Some(2)),
        row("B", "Beta", Some(3), Some(4)),
    ];
    let coll = build_collection(&rows, EntityKind::Station, false).unwrap();
    assert_eq!(coll.find(&"B".to_string()), Some(1));
    assert!(coll.contains_key(&"A".to_string()));
    assert!(!coll.contains_key(&"Z".to_string()));
    assert_eq!(coll.find(&"Z".to_string()), None);
    assert_eq!(coll.get(&"B".to_string()).unwrap().name, "Beta");
    assert!(coll.get(&"Z".to_string()).is_none());
}

#[test]
fn bounds_widen_with_prior_pair() {
    let rows = vec![
        row("A", "Alpha", Some(5), Some(50)),
        row("B", "Beta", Some(15), Some(70)),
    ];
    let coll = build_collection(&rows, EntityKind::Station, false).unwrap();
    // No prior bound: the collection's own extrema.
    assert_eq!(
        calculate_lat_bounds(&coll.entities, None, None),
        (Some(5), Some(15))
    );
    // A wider prior bound survives; a narrower one is widened out.
    assert_eq!(
        calculate_lat_bounds(&coll.entities, Some(0), Some(10)),
        (Some(0), Some(15))
    );
    assert_eq!(
        calculate_long_bounds(&coll.entities, Some(60), Some(100)),
        (Some(50), Some(100))
    );
    // A half-given prior pair does not take part.
    assert_eq!(
        calculate_lat_bounds(&coll.entities, Some(0), None),
        (Some(5), Some(15))
    );
}

#[test]
fn merged_bounds_never_narrow() {
    let first = build_collection(
        &vec![
            row("A", "Alpha", Some(5), Some(50)),
            row("B", "Beta", Some(15), Some(60)),
        ],
        EntityKind::Station,
        false,
    )
    .unwrap();
    let second = build_collection(
        &vec![
            row("C", "Gamma", Some(0), Some(55)),
            row("D", "Delta", Some(10), Some(80)),
        ],
        EntityKind::Stop,
        false,
    )
    .unwrap();
    let (min_lat, max_lat) = calculate_lat_bounds(&first.entities, None, None);
    let (min_lat, max_lat) = calculate_lat_bounds(&second.entities, min_lat, max_lat);
    let (min_long, max_long) = calculate_long_bounds(&first.entities, None, None);
    let (min_long, max_long) = calculate_long_bounds(&second.entities, min_long, max_long);
    // Never narrower than either collection's own box.
    assert!(min_lat.unwrap() <= 5 && min_lat.unwrap() <= 0);
    assert!(max_lat.unwrap() >= 15 && max_lat.unwrap() >= 10);
    assert!(min_long.unwrap() <= 50 && min_long.unwrap() <= 55);
    assert!(max_long.unwrap() >= 60 && max_long.unwrap() >= 80);
    assert_eq!((min_lat, max_lat), (Some(0), Some(15)));
    assert_eq!((min_long, max_long), (Some(50), Some(80)));
}

#[test]
fn widen_bounds_chains_across_collections() {
    let first = build_collection(
        &vec![
            row("A", "Alpha", Some(5), Some(50)),
            row("B", "Beta", Some(15), Some(60)),
        ],
        EntityKind::Station,
        false,
    )
    .unwrap();
    let second = build_collection(
        &vec![
            row("C", "Gamma", Some(0), Some(55)),
            row("D", "Delta", Some(10), Some(80)),
        ],
        EntityKind::Stop,
        false,
    )
    .unwrap();
    let b1 = widen_bounds(&first, None);
    assert_eq!(
        b1,
        Bounds {
            min_lat: 5,
            max_lat: 15,
            min_long: 50,
            max_long: 60
        }
    );
    let merged = widen_bounds(&second, Some(b1));
    assert_eq!(
        merged,
        Bounds {
            min_lat: 0,
            max_lat: 15,
            min_long: 50,
            max_long: 80
        }
    );
    // Never narrower than the prior box.
    assert!(merged.min_lat <= b1.min_lat && merged.max_lat >= b1.max_lat);
    assert!(merged.min_long <= b1.min_long && merged.max_long >= b1.max_long);
}

#[test]
fn projection_example_canvas_corners() {
    // Entities A:(lat 0, long 0) and B:(lat 10, long 10) on a
    // [-100, 100] x [-100, 100] canvas land on opposite corners.
    let rows = vec![
        row("A", "Alpha", Some(0), Some(0)),
        row("B", "Beta", Some(10), Some(10)),
    ];
    let coll = build_collection(&rows, EntityKind::Station, false).unwrap();
    let lat = calculate_lat_bounds(&coll.entities, None, None);
    let long = calculate_long_bounds(&coll.entities, None, None);
    let b = make_bounds(lat, long).unwrap();
    let canvas = square_canvas(100);
    let nc = normalize_collection(&coll, &b, &canvas);
    assert_eq!((nc.entities[0].x, nc.entities[0].y), (-100, 100));
    assert_eq!((nc.entities[1].x, nc.entities[1].y), (100, -100));
}

#[test]
fn projection_extremes_orientation() {
    let b = Bounds {
        min_lat: 10,
        max_lat: 20,
        min_long: 30,
        max_long: 50,
    };
    let canvas = Canvas {
        min_x: -50,
        max_x: 150,
        min_y: -70,
        max_y: 30,
    };
    // Longitude extremes map to the x extremes, orientation preserved.
    assert_eq!(project(10, 30, &b, &canvas).0, -50);
    assert_eq!(project(10, 50, &b, &canvas).0, 150);
    // Latitude extremes map to the negated y extremes.
    assert_eq!(project(10, 30, &b, &canvas).1, 70);
    assert_eq!(project(20, 30, &b, &canvas).1, -30);
    // Midpoints stay inside the ranges.
    let (x, y) = project(15, 40, &b, &canvas);
    assert!((-50..=150).contains(&x));
    assert!((-70..=70).contains(&y));
}

#[test]
fn projection_rerun_is_identical() {
    let rows = vec![
        row("A", "Alpha", Some(3), Some(7)),
        row("B", "Beta", Some(12), Some(44)),
        row("C", "Gamma", Some(8), Some(20)),
    ];
    let coll = build_collection(&rows, EntityKind::Stop, false).unwrap();
    let lat = calculate_lat_bounds(&coll.entities, None, None);
    let long = calculate_long_bounds(&coll.entities, None, None);
    let b = make_bounds(lat, long).unwrap();
    let canvas = square_canvas(16000);
    let first = normalize_collection(&coll, &b, &canvas);
    let second = normalize_collection(&coll, &b, &canvas);
    assert_eq!(first.entities, second.entities);
}

#[test]
fn degenerate_bounds_project_to_center() {
    // A single distinct latitude and longitude: everything lands on the
    // canvas centre instead of dividing by zero.
    let rows = vec![row("A", "Alpha", Some(42), Some(7))];
    let coll = build_collection(&rows, EntityKind::Station, false).unwrap();
    let lat = calculate_lat_bounds(&coll.entities, None, None);
    let long = calculate_long_bounds(&coll.entities, None, None);
    let b = make_bounds(lat, long).unwrap();
    let canvas = square_canvas(16000);
    let nc = normalize_collection(&coll, &b, &canvas);
    assert_eq!((nc.entities[0].x, nc.entities[0].y), (0, 0));
}

#[test]
fn clean_label_strips_line_word() {
    assert_eq!(clean_label("Bakerloo Line"), "BAKERLOO");
    assert_eq!(clean_label("Victoria"), "VICTORIA");
}

#[test]
fn clean_label_ampersand_and_spaces() {
    assert_eq!(
        clean_label("Hammersmith & City Line"),
        "HAMMERSMITH_AND_CITY"
    );
}

#[test]
fn clean_label_trailing_spaces() {
    assert_eq!(clean_label("District Line   "), "DISTRICT");
    assert_eq!(clean_label("  Central  "), "__CENTRAL");
}

#[test]
fn label_allow_list() {
    assert!(is_valid_label(&"ROUTE_1".to_string()));
    assert!(is_valid_label(&"BAKERLOO".to_string()));
    assert!(!is_valid_label(&"A-B".to_string()));
    assert!(!is_valid_label(&"".to_string()));
    assert!(!is_valid_label(&"WITH SPACE".to_string()));
}
