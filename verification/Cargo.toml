[package]
name = "event_pulse"
version = "0.1.0"
edition = "2021"
publish = false

[dependencies]
chrono = "=0.4.45"
dirs = "=5.0.1"
log = "=0.4.34"
rust_decimal = "=1.43.0"
structsy = { version = "=0.5.2", features = ["derive"] }
thiserror = "=1.0.69"
tracing = "=0.1.44"

[dev-dependencies]
regex = "=1.13.1"
