[package]
name = "todo_or_die"
version = "0.1.0"
edition = "2021"
publish = false

[dependencies]
anyhow = "1"
chrono = "0.4"
hyper = { version = "0.14", features = ["client", "http1", "http2", "runtime"] }
hyper-rustls = "0.22"
once_cell = "1"
proc-macro2 = "1"
quote = "1"
rustls = "0.19"
semver = "1"
serde = { version = "1", features = ["derive"] }
serde_json = "1"
syn = "1"
tokio = { version = "1", features = ["rt", "net", "time"] }
version_check = "0.9"
webpki-roots = "0.21"
