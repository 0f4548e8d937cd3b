[package]
name = "regicide"
version = "0.1.0"
edition = "2021"
publish = false

[dependencies]
arrayvec = { version = "=0.7.8", features = ["serde"] }
axum = { version = "=0.8.9", features = ["macros", "ws"] }
futures-util = { version = "=0.3.34", features = ["sink"] }
hyper = "=1.12.0"
kanal = "=0.1.1"
postcard = { version = "=1.1.3", features = ["use-std"] }
rand = "=0.9.5"
serde = { version = "=1.0.229", features = ["derive"] }
serde-wasm-bindgen = "=0.6.5"
thiserror = "=2.0.21"
tokio = { version = "=1.54.1", features = ["full"] }
tower-http = { version = "=0.6.11", features = ["compression-gzip", "fs", "trace"] }
tracing = "=0.1.44"
tracing-subscriber = { version = "=0.3.23", features = ["env-filter", "json"] }
ts-rs = { version = "=10.1.0", features = ["uuid-impl"] }
utoipa = { version = "=5.5.0", features = ["uuid"] }
utoipa-swagger-ui = { version = "=9.0.2", features = ["axum", "vendored"] }
uuid = { version = "=1.29.0", features = ["v7", "serde"] }
wasm-bindgen = "=0.2.129"
