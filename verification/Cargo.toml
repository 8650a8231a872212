[package]
name = "codeg"
version = "0.1.0"
edition = "2021"
publish = false

[dependencies]
axum = { version = "0.8", default-features = false, features = ["http1", "tokio"] }
chrono = { version = "0.4", features = ["serde"] }
http = "1"
reqwest = { version = "0.12", default-features = false }
rustls = { version = "0.23", default-features = false, features = ["ring", "std", "tls12"] }
sea-orm = { version = "1", default-features = false, features = ["macros", "with-chrono"] }
serde = { version = "1", features = ["derive"] }
serde_json = "1"
thiserror = "2"
tokio = { version = "1", features = ["macros", "net", "rt", "sync", "time"] }
tokio-rustls = { version = "0.26", default-features = false, features = ["ring", "tls12"] }
tracing = "0.1"

[dev-dependencies]
tempfile = "3"
