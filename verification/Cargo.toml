[package]
name = "file_lfu"
version = "0.1.0"
edition = "2021"
publish = false

[dependencies]
lfu_cache = "1"
uuid = { version = "1", features = ["v4"] }
async-trait = "0.1"
thiserror = "1"
