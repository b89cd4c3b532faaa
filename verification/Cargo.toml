[package]
name = "omer"
version = "0.1.0"
edition = "2021"
publish = false

[dependencies]
clap = { version = "4", features = ["derive"] }
crossbeam-channel = "0.5"
crossbeam-skiplist = "0.1"
dashmap = "6"
rand = { version = "0.8", features = ["small_rng"] }
rayon = "1"
rkyv = "0.8"
smallvec = "1"
thiserror = "2"
tokio = { version = "1", features = ["rt-multi-thread", "macros", "net", "io-util", "sync", "time"] }
