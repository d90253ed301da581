[package]
name = "deqs"
version = "0.1.0"
edition = "2021"
publish = false

[dependencies]
hex = "0.4.3"
rust_decimal = "1"
serde = { version = "1", features = ["derive"] }
serde_json = "1"
itertools = "0.10"
backoff = "0.4"
rand = "0.8"
tokio = { version = "1", features = ["sync", "time", "rt-multi-thread", "macros"] }
futures = "0.3"
async-trait = "0.1"
clap = { version = "4", features = ["derive", "env"] }
prometheus = "0.13"
lazy_static = "1"
rayon = "1"

[dev-dependencies]
rand_core = "0.6"
