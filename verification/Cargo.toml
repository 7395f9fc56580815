[package]
name = "task_maker_exec"
version = "0.1.0"
edition = "2021"
publish = false

[dependencies]
which = "4"
blake2 = "0.10"
serde = { version = "1", features = ["derive"] }
serde_json = "1"
bincode = "1"
tempdir = "0.3"
