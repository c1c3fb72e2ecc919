[package]
name = "pg_migrate"
version = "0.1.0"
edition = "2021"
publish = false

[dependencies]
bigdecimal = "=0.4.11"
chrono = { version = "=0.4.45", default-features = false, features = ["std"] }
ipnetwork = "=0.20.0"
serde = { version = "=1.0.229", features = ["derive"] }
serde_json = { version = "=1.0.154", features = ["float_roundtrip"] }
sqlx = { version = "=0.8.6", default-features = false, features = ["runtime-tokio", "tls-rustls", "postgres", "chrono", "bigdecimal", "ipnetwork", "json"] }
tokio = { version = "=1.54.1", features = ["sync", "rt", "time"] }
urlencoding = "=2.1.3"
uuid = { version = "=1.29.0", features = ["v4"] }
