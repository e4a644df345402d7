[package]
name = "transit_graph"
version = "0.1.0"
edition = "2021"
publish = false

[dependencies]
neo4rs = "*"
csv = "*"
serde = { version = "*", features = ["derive"] }
tokio = { version = "*", features = ["macros", "rt-multi-thread"] }
