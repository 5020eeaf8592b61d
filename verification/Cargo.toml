[package]
name = "multi_thread_rust"
version = "0.1.0"
edition = "2021"
publish = false

[dependencies]
rayon = "1"
clap = { version = "4", features = ["derive"] }
colored = "2"
crossbeam = "0.8"
num_cpus = "1"
tokio = { version = "1", features = ["rt-multi-thread", "time", "macros"] }
