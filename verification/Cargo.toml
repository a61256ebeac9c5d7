[package]
name = "chatspy"
version = "0.1.0"
edition = "2021"
publish = false

[dependencies]
serde = { version = "=1.0.229", features = ["derive"] }
serde_json = "=1.0.151"
tokio = { version = "=1.53.2", features = ["rt", "rt-multi-thread", "net", "sync", "io-util", "macros", "fs"] }
tokio-tungstenite = "=0.30.0"
futures = "=0.3.34"
rusqlite = { version = "=0.40.2", features = ["bundled"] }
clap = { version = "=4.6.7", features = ["derive"] }
crossbeam = "=0.8.5"
rayon = "=1.12.0"
hyper = { version = "=1.12.0", features = ["server", "http1"] }
hyper-util = { version = "*", features = ["tokio"] }
http-body-util = "=0.1.5"
