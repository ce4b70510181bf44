[package]
name = "rustler_live_view_toy_engine"
version = "0.1.0"
edition = "2021"
publish = false

[dependencies]
bytes = "0.4"
futures = "0.1"
rand = "0.7"
serde_json = "1"
tokio = "0.1"
rustler = "0.21"
fps_clock = "*"
