[package]
name = "mentat"
version = "0.1.0"
edition = "2021"
publish = false

[dependencies]
chrono = { version = "0.4", default-features = false, features = ["std"] }
futures = "0.3"
http = "0.2"
hyper = { version = "0.14", features = ["client", "http1", "runtime", "tcp"] }
hyper-tls = "0.5"
itertools = "0.10"
mime = "0.3"
num = "0.4"
ordered-float = "2"
rusqlite = { version = "0.24", features = ["bundled"] }
serde = { version = "1", features = ["derive"] }
serde_json = "1"
uuid = { version = "0.8", features = ["v4", "serde"] }
