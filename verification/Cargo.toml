[package]
name = "json_eval_rs"
version = "0.1.0"
edition = "2021"
publish = false

[dependencies]
serde_json = { version = "=1.0.154", features = ["arbitrary_precision", "preserve_order"] }
ahash = "=0.8.12"
rustc-hash = "=2.1.3"
indexmap = "=2.14.2"
once_cell = "=1.21.4"
dashmap = "6"
