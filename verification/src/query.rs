//! Rendering write operations as parameterized store queries.
//!
//! Every attribute value is passed as a bound parameter. The relationship
//! label is the one exception — the store's query language cannot
//! parameterize a relationship type — so it is interpolated into the query
//! text, and only after it passed the allow-list check in the batcher.
//!
//! The query values themselves come from the `neo4rs` driver and are opaque
//! here; what each one holds is named by [`query_text`] and
//! [`query_params`], and the wrappers below state over those names exactly
//! what the driver's constructors do.

use vstd::prelude::*;

use crate::entity::EntityKind;
use crate::label::spec_valid_label;
use crate::ops::WriteOperation;

verus! {

#[verifier::external_type_specification]
#[verifier::external_body]
pub struct ExQuery(neo4rs::Query);

/// The model of one bound parameter value: an integer or a text.
pub enum ParamValue {
    Int(i64),
    Text(Seq<char>),
}

/// The Cypher text a query was built with.
pub uninterp spec fn query_text(q: neo4rs::Query) -> Seq<char>;

/// The parameter bindings a query carries, keyed by parameter name.
pub uninterp spec fn query_params(q: neo4rs::Query) -> Map<Seq<char>, ParamValue>;

/// The empty parameter map.
pub open spec fn no_params() -> Map<Seq<char>, ParamValue> {
    Map::empty()
}

/// Relies on `neo4rs::query`: builds a query with the given Cypher text
/// and an empty parameter map.
#[verifier::external_body]
fn new_query(text: &str) -> (r: neo4rs::Query)
    ensures
        query_text(r) == text@,
        query_params(r) == no_params(),
{
    neo4rs::query(text)
}

/// Relies on `neo4rs::Query::param` with a `String` value: inserts the
/// binding (overwriting any previous one under the key) and keeps the
/// text.
#[verifier::external_body]
fn with_str_param(q: neo4rs::Query, key: &str, value: String) -> (r: neo4rs::Query)
    ensures
        query_text(r) == query_text(q),
        query_params(r) == query_params(q).insert(key@, ParamValue::Text(value@)),
{
    q.param(key, value)
}

/// Relies on `neo4rs::Query::param` with an `i64` value: inserts the
/// binding (overwriting any previous one under the key) and keeps the
/// text.
#[verifier::external_body]
fn with_int_param(q: neo4rs::Query, key: &str, value: i64) -> (r: neo4rs::Query)
    ensures
        query_text(r) == query_text(q),
        query_params(r) == query_params(q).insert(key@, ParamValue::Int(value)),
{
    q.param(key, value)
}

/// The node-creation text of an entity kind. The coordinates, name, key
/// and zone all travel as parameters.
pub open spec fn node_query_text(kind: EntityKind) -> Seq<char> {
    match kind {
        EntityKind::Station => "CREATE (s:Station {x: $x, y: $y, name: $name, key: $key, zone: $zone})"@,
        EntityKind::Stop => "CREATE (s:Stop {x: $x, y: $y, name: $name, key: $key, zone: $zone})"@,
    }
}

/// The edge-creation text for a validated label: endpoints are matched by
/// their key parameters, the label is interpolated, and a numeric
/// attribute, when present, travels as one more parameter.
pub open spec fn edge_query_text(label: Seq<char>, weighted: bool) -> Seq<char> {
    "MATCH (a), (b) WHERE a.key = $akey AND b.key = $bkey CREATE (a)-[r:"@ + label + (
    if weighted {
        " {weight: $weight}]->(b)"@
    } else {
        "]->(b)"@
    })
}

/// The text of the clear-all operation.
pub open spec fn clear_query_text() -> Seq<char> {
    "MATCH (n) DETACH DELETE n"@
}

/// The zone parameter: the zone when present, the empty text otherwise.
pub open spec fn zone_or_empty(zone: Option<String>) -> Seq<char> {
    match zone {
        Some(z) => z@,
        None => Seq::empty(),
    }
}

/// The query text of one write operation.
pub open spec fn op_query_text(op: WriteOperation) -> Seq<char> {
    match op {
        WriteOperation::ClearAll => clear_query_text(),
        WriteOperation::CreateNode { entity } => node_query_text(entity.kind),
        WriteOperation::CreateEdge { edge } => edge_query_text(edge.label@, edge.weight is Some),
    }
}

/// The parameter bindings of one write operation.
pub open spec fn op_query_params(op: WriteOperation) -> Map<Seq<char>, ParamValue> {
    match op {
        WriteOperation::ClearAll => Map::empty(),
        WriteOperation::CreateNode { entity } => Map::empty().insert(
            "x"@,
            ParamValue::Int(entity.x),
        ).insert("y"@, ParamValue::Int(entity.y)).insert(
            "name"@,
            ParamValue::Text(entity.name@),
        ).insert("key"@, ParamValue::Text(entity.key@)).insert(
            "zone"@,
            ParamValue::Text(zone_or_empty(entity.zone)),
        ),
        WriteOperation::CreateEdge { edge } => {
            let base = Map::empty().insert("akey"@, ParamValue::Text(edge.source_key@)).insert(
                "bkey"@,
                ParamValue::Text(edge.target_key@),
            );
            match edge.weight {
                Some(w) => base.insert("weight"@, ParamValue::Int(w)),
                None => base,
            }
        },
    }
}

/// Whether an operation's label, if it has one, passed the allow-list.
pub open spec fn op_label_valid(op: WriteOperation) -> bool {
    match op {
        WriteOperation::CreateEdge { edge } => spec_valid_label(edge.label@),
        _ => true,
    }
}

/// Render one write operation as a store query: the operation's text, and
/// every attribute bound as a parameter.
pub fn to_query(op: &WriteOperation) -> (r: neo4rs::Query)
    requires
        op_label_valid(*op),
    ensures
        query_text(r) == op_query_text(*op),
        query_params(r) == op_query_params(*op),
{
    match op {
        WriteOperation::ClearAll => new_query("MATCH (n) DETACH DELETE n"),
        WriteOperation::CreateNode { entity } => {
            let text: &str = match entity.kind {
                EntityKind::Station => "CREATE (s:Station {x: $x, y: $y, name: $name, key: $key, zone: $zone})",
                EntityKind::Stop => "CREATE (s:Stop {x: $x, y: $y, name: $name, key: $key, zone: $zone})",
            };
            let q = new_query(text);
            let q = with_int_param(q, "x", entity.x);
            let q = with_int_param(q, "y", entity.y);
            let q = with_str_param(q, "name", entity.name.clone());
            let q = with_str_param(q, "key", entity.key.clone());
            let zone = match &entity.zone {
                Some(z) => z.clone(),
                None => String::new(),
            };
            with_str_param(q, "zone", zone)
        },
        WriteOperation::CreateEdge { edge } => {
            let mut text = String::from_str(
                "MATCH (a), (b) WHERE a.key = $akey AND b.key = $bkey CREATE (a)-[r:",
            );
            text.append(edge.label.as_str());
            match edge.weight {
                Some(w) => {
                    text.append(" {weight: $weight}]->(b)");
                    let q = new_query(text.as_str());
                    let q = with_str_param(q, "akey", edge.source_key.clone());
                    let q = with_str_param(q, "bkey", edge.target_key.clone());
                    with_int_param(q, "weight", w)
                },
                None => {
                    text.append("]->(b)");
                    let q = new_query(text.as_str());
                    let q = with_str_param(q, "akey", edge.source_key.clone());
                    with_str_param(q, "bkey", edge.target_key.clone())
                },
            }
        },
    }
}

/// Render a whole operation list, in order.
pub fn to_queries(ops: &Vec<WriteOperation>) -> (r: Vec<neo4rs::Query>)
    requires
        forall|i: int| 0 <= i < ops@.len() ==> op_label_valid(#[trigger] ops@[i]),
    ensures
        r@.len() == ops@.len(),
        forall|i: int|
            0 <= i < ops@.len() ==> query_text(#[trigger] r@[i]) == op_query_text(ops@[i])
                && query_params(r@[i]) == op_query_params(ops@[i]),
{
    let n = ops.len();
    let mut r: Vec<neo4rs::Query> = Vec::new();
    let mut i: usize = 0;
    while i < n
        invariant
            n == ops@.len(),
            i <= n,
            r@.len() == i,
            forall|j: int| 0 <= j < ops@.len() ==> op_label_valid(#[trigger] ops@[j]),
            forall|j: int|
                0 <= j < i ==> query_text(#[trigger] r@[j]) == op_query_text(ops@[j])
                    && query_params(r@[j]) == op_query_params(ops@[j]),
        decreases n - i,
    {
        r.push(to_query(&ops[i]));
        i += 1;
    }
    r
}

} // verus!
