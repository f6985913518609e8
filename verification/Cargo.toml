[package]
name = "mev_engine"
version = "0.1.0"
edition = "2021"
publish = false

[dependencies]
dotenv = "0.15"
ethers = { version = "=2.0.14", default-features = false, features = ["ws", "rustls"] }
futures = { version = "=0.3.34", default-features = false, features = ["std"] }
futures-util = "=0.3.34"
hex = "=0.4.3"
serde = { version = "=1.0.229", features = ["derive"] }
sha3 = "=0.10.9"
tokio = { version = "=1.54.1", features = ["macros", "rt-multi-thread", "sync", "time", "signal"] }
tracing = "=0.1.44"
