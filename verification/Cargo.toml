[package]
name = "breaker"
version = "2.0.0"
edition = "2021"
publish = false

[dependencies]
parking_lot = "=0.12.5"
thiserror = "=2.0.21"
tokio = { version = "=1.54.1", features = ["time"] }
tower = { version = "=0.5.3", features = ["util"] }
tower-layer = "=0.3.3"
metrics = "=0.24.6"

[dev-dependencies]
tokio = { version = "=1.54.1", features = ["rt-multi-thread", "time"] }
