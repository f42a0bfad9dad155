[package]
name = "riak_async"
version = "0.1.0"
edition = "2021"
publish = false

[dependencies]
prost = "0.13"
deadpool = "0.12"
tokio = { version = "1", features = ["net", "io-util", "rt", "macros"] }
thiserror = "2"
tracing = "0.1"
