[package]
name = "axum-health"
version = "0.1.0"
edition = "2021"
publish = false

[dependencies]
axum = "=0.8.9"
futures = "=0.3.34"
ldap3 = { version = "=0.12.1", default-features = false, features = ["tls-rustls-ring"] }
libc = "=0.2.191"
moka = { version = "=0.12.16", features = ["future"] }
reqwest = { version = "=0.12.28", default-features = false, features = ["rustls-tls", "http2"] }
serde = { version = "=1.0.229", features = ["derive"] }
serde_json = { version = "=1.0.154", features = ["raw_value"] }
tokio = { version = "=1.54.1", features = ["macros", "net", "rt-multi-thread", "time"] }
tokio-rustls = { version = "=0.26.6", default-features = false, features = ["logging", "ring", "tls12"] }
toml = "=1.1.8"
tracing = "=0.1.44"
wasmtime = { version = "=45.0.3", default-features = false, features = ["async", "component-model", "component-model-async", "cranelift", "runtime", "std"] }
wasmtime-wasi = { version = "=45.0.3", default-features = false, features = ["p2"] }
