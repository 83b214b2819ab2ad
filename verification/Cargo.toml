[package]
name = "shazamio_core"
version = "0.1.0"
edition = "2021"
publish = false

[dependencies]
chfft = "0.3"
futures = "0.3"
log = "0.4"
pyo3 = { version = "0.20", features = ["extension-module"] }
pyo3-asyncio = { version = "0.20", features = ["tokio-runtime"] }
pyo3-log = "0.9"
rodio = { version = "0.17", default-features = false, features = ["symphonia-all"] }
rubato = "0.14"
serde = { version = "1", features = ["derive"] }
symphonia = { version = "0.5", features = ["all"] }
tempfile = "3"
tokio = { version = "1", features = ["rt-multi-thread"] }
