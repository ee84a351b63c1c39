[package]
name = "discretionary_engine"
version = "0.1.0"
edition = "2021"
publish = false

[dependencies]
eyre = "*"
color-eyre = "*"
serde = { version = "*", features = ["derive"] }
serde_json = "*"
serde_path_to_error = "*"
ahash = "*"
uuid = { version = "*", features = ["v4", "v7", "serde"] }
tokio = { version = "*", features = ["full"] }
redis = { version = "*", default-features = false, features = ["tokio-comp", "streams"] }
clap = { version = "*", features = ["derive"] }
tracing = "*"
futures-util = "*"
jiff = { version = "*", features = ["serde"] }
strum = { version = "*", features = ["derive"] }
thiserror = "*"
derive_more = { version = "*", features = ["full"] }
derive-new = "*"
reqwest = { version = "*", default-features = false, features = ["blocking", "json"] }
dirs = "*"
secrecy = "*"
parking_lot = "*"
arc-swap = "*"
smart-default = "*"
miette = "*"
v_utils = { version = "*", default-features = false }
