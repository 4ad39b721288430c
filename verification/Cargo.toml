[package]
name = "ggsql"
version = "0.1.0"
edition = "2021"
publish = false

[dependencies]
chrono = { version = "0.4", default-features = false, features = ["std"] }
csscolorparser = "0.7"
uuid = { version = "1", features = ["v4"] }
regex = "1"
palette = "0.7"
tree-sitter = "0.25"
arrow = { version = "*", default-features = false }
parquet = { version = "*", default-features = false, features = ["arrow"] }
duckdb = "*"
