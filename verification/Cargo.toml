[package]
name = "y2skk"
version = "0.1.0"
edition = "2021"
publish = false

[dependencies]
encoding_rs = "=0.8.44"
indexmap = "=2.14.2"
serde = { version = "=1.0.229", features = ["derive"] }
toml = "=0.8.23"
toml_edit = "=0.22.27"
dirs = "=5.0.1"
zbus = { version = "=4.4.0", default-features = false, features = ["tokio"] }
tokio = { version = "=1.54.1", features = ["macros", "rt-multi-thread", "sync", "signal"] }
