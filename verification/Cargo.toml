[package]
name = "tfl_gtfs"
version = "0.1.0"
edition = "2021"
publish = false

[dependencies]
csv = "1"
rustc-serialize = "0.3"
scoped_threadpool = "0.1"
