[package]
name = "browser_engine"
version = "0.1.0"
edition = "2021"
publish = false

[dependencies]
blake3 = "=1.8.7"
hex = "=0.4.3"
tantivy = "=0.27.0"
dashmap = "=6.2.1"
swc_common = "=27.0.0"
swc_ecma_ast = "=30.0.0"
swc_ecma_parser = "=47.0.0"
html5ever = "=0.39.0"
markup5ever_rcdom = "=0.39.0+unofficial"
serde = { version = "=1.0.229", features = ["derive"] }
serde_json = "=1.0.154"
url = "=2.5.8"
thiserror = "=2.0.21"
axum = "0.8.9"
tokio = { version = "1", features = ["rt-multi-thread", "macros", "net"] }
reqwest = { version = "0.12.28", default-features = false, features = ["gzip", "brotli", "deflate", "http2"] }
