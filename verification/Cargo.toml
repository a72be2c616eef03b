[package]
name = "motd_store"
version = "0.1.0"
edition = "2021"
publish = false

[dependencies]
subtle = "2"
chrono = "0.4"
tokio = { version = "1", features = ["full"] }
axum = "*"
axum-extra = { version = "*", features = ["typed-header"] }
notify = "*"
tower-http = { version = "*", features = ["fs"] }
