[package]
name = "static_server"
version = "0.1.0"
edition = "2021"
publish = false

[dependencies]
askama = "0.13"
axum = "0.8"
axum-macros = "0.5"
base64 = "0.22"
clap = { version = "4", features = ["derive"] }
mime_guess = "2"
percent-encoding = "2"
time = { version = "0.3", features = ["formatting", "parsing"] }
tokio = { version = "1", features = ["full"] }
tower = { version = "0.5", features = ["util"] }
tower-http = { version = "0.6", features = ["fs", "trace"] }
tracing = "0.1"
tracing-subscriber = { version = "0.3", features = ["env-filter"] }
