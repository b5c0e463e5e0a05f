[package]
name = "sat_core"
version = "0.1.0"
edition = "2021"
publish = false

[dependencies]
rand = "=0.10.3"
rand_chacha = "=0.10.0"
rand_pcg = "=0.10.2"
ndarray = "=0.17.2"
serde = { version = "=1.0.229", features = ["derive"] }
reqwest = { version = "=0.12.28", default-features = false, features = ["json", "gzip", "rustls-tls"] }
tokio = { version = "=1.54.1", features = ["process", "io-util", "time", "rt", "rt-multi-thread", "macros"] }
futures = "=0.3.34"
color-eyre = { version = "=0.6.5", default-features = false }
iso8601-duration = "=0.2.0"
pyo3 = { version = "=0.30.1", features = ["eyre"] }
numpy = "=0.30.0"
pyo3-async-runtimes = { version = "=0.30.0", features = ["tokio-runtime"] }

[dev-dependencies]
regex = "=1.13.1"
