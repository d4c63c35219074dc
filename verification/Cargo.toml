[package]
name = "iron_indexer"
version = "0.1.0"
edition = "2021"
publish = false

[dependencies]
scalable_cuckoo_filter = "=0.5.1"
rand = "=0.9.5"
alloy-primitives = { version = "=1.7.3", features = ["k256"] }
tokio = { version = "=1.54.1", features = ["full"] }
tokio-util = { version = "=0.7.20", features = ["rt"] }
serde = { version = "=1.0.229", features = ["derive"] }
serde_json = "=1.0.154"
toml = "=0.9.12"
clap = { version = "=4.6.7", features = ["derive", "env"] }
color-eyre = "=0.6.5"
tracing = "=0.1.44"
tracing-subscriber = { version = "=0.3.23", features = ["env-filter"] }
diesel = { version = "=2.3.14", default-features = false, features = ["postgres_backend"] }
diesel-async = { version = "=0.9.2", features = ["postgres", "deadpool"] }
axum = "=0.8.9"
axum-extra = { version = "=0.12.6", features = ["typed-header"] }
jsonwebtoken = { version = "=11.1.0", features = ["rust_crypto"] }
tower-http = { version = "=0.7.1", features = ["cors", "trace"] }
thiserror = "=2.0.21"

[dev-dependencies]
k256 = "=0.13.4"
