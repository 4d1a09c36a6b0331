[package]
name = "pyferris"
version = "0.1.0"
edition = "2021"
publish = false

[dependencies]
crossbeam-deque = "*"
dashmap = "*"
rayon = "*"
num_cpus = "*"
uuid = { version = "*", features = ["v4"] }
serde = { version = "*", features = ["derive"] }
serde_json = "*"
