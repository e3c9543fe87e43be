[package]
name = "quantara"
version = "0.1.0"
edition = "2021"
publish = false

[dependencies]
rust_decimal = { version = "1", features = ["serde"] }
uuid = { version = "1", features = ["v4", "serde"] }
chrono = { version = "0.4", features = ["serde"] }
serde = { version = "1", features = ["derive"] }
axum = "0.7"
tower-http = { version = "0.5", features = ["cors"] }
pyo3 = "0.22"
