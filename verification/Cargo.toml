[package]
name = "iroh_http"
version = "0.1.0"
edition = "2021"
publish = false

[dependencies]
base32 = "=0.5.1"
bytes = "=1.12.1"
futures = "=0.3.34"
http = "=1.5.0"
http-body = "=1.1.0"
http-body-util = "=0.1.5"
hyper = { version = "=1.12.0", features = ["client", "server", "http1"] }
hyper-util = { version = "=0.1.21", features = ["tokio", "service"] }
iroh = { version = "=1.4.1", default-features = false, features = ["tls-ring"] }
moka = { version = "=0.12.16", features = ["future"] }
qpack = "=0.1.0"
serde = { version = "=1.0.229", features = ["derive"] }
serde_json = "=1.0.154"
slotmap = "=1.1.1"
thiserror = "=2.0.21"
tokio = { version = "=1.54.1", features = ["sync", "time", "rt", "io-util", "macros", "net"] }
tower = { version = "=0.5.3", features = ["util", "timeout", "load-shed", "limit"] }
tower-http = { version = "=0.6.11", features = ["add-extension", "compression-zstd", "decompression-zstd", "limit", "map-request-body", "map-response-body"] }
tracing = "=0.1.44"
url = "=2.5.8"
zstd = "=0.13.4"
