[package]
name = "mib_browser"
version = "0.1.0"
edition = "2021"
publish = false

[dependencies]
mib-rs = "*"
yaml-rust2 = "*"
slint = { version = "*", default-features = false, features = ["compat-1-2", "std"] }
rfd = { version = "0.15", default-features = false, features = ["xdg-portal", "tokio"] }
tokio = { version = "1", features = ["full"] }
tracing = "0.1"
tracing-subscriber = "0.3"
