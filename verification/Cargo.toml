[package]
name = "dsql-lint"
version = "0.1.0"
edition = "2021"
publish = false

[dependencies]
clap = { version = "=4.6.7", features = ["derive"] }
earlgrey = "=0.4.1"
indexmap = { version = "=2.14.2", features = ["serde"] }
serde = { version = "=1.0.229", features = ["derive"] }
serde_json = "=1.0.154"
sqlparser-dsql = { version = "=0.62.4", features = ["serde", "visitor"] }
tempfile = "=3.27.0"
