[package]
name = "recipes_simulation"
version = "0.1.0"
edition = "2021"
publish = false

[dependencies]
foundationdb = { version = "=0.11.0", features = ["fdb-7_3", "embedded-fdb-include"] }
foundationdb-simulation = { version = "=0.3.0", features = ["fdb-7_3"] }
foundationdb-tuple = { version = "=0.11.0", default-features = false }
futures = "=0.3.34"
tracing-core = "=0.1.36"
tracing-subscriber = "=0.3.23"
