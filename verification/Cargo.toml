[package]
name = "promql_parser"
version = "0.1.0"
edition = "2021"
publish = false

[dependencies]
regex = "1"
lrlex = "*"
lrpar = "*"
serde = { version = "1", features = ["derive"] }

[dev-dependencies]
serde_json = "1"
