[package]
name = "qdb"
version = "0.1.0"
edition = "2021"
publish = false

[dependencies]
crossbeam = "*"
tokio = { version = "1", features = ["sync", "rt-multi-thread", "macros"] }
actix-web = "*"
num_cpus = "*"
