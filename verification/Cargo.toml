[package]
name = "js_cgi"
version = "0.1.0"
edition = "2021"
publish = false

[dependencies]
axum = "0.8"
regex = "1"
rquickjs = "0.9"
tokio = { version = "1", features = ["full"] }
tower = { version = "0.5", features = ["util"] }
tower-http = { version = "0.6", features = ["fs", "trace"] }
