//! Verified core of a transit entity-graph ingestion pipeline.
//!
//! Tabular transit records (station and stop registries, ordered
//! route-membership sequences) are turned into a property graph: entities
//! become nodes, consecutive same-route same-run pairs become edges, and the
//! resulting write operations are delivered to a graph store in fixed-size
//! transactional chunks with a defined partial-failure story.
//!
//! Geographic coordinates are carried as fixed-point integers (the caller
//! picks the scale; the projection depends only on each coordinate's
//! position within the shared bounds), so the whole computation from raw
//! rows to chunked write operations is verified.
//! Reading the tabular files and talking to the store over the network happen
//! outside this crate; building the store queries themselves happens here.

pub mod adjacency;
pub mod bounds;
pub mod entity;
pub mod errors;
pub mod label;
pub mod loader;
pub mod normalize;
pub mod ops;
pub mod pipeline;
pub mod query;
pub mod seq_util;
