[package]
name = "rust_ccg"
version = "0.2.0"
edition = "2021"
publish = false

[dependencies]
im = "15"
rand = "0.8"
rand_chacha = "0.3"
rustc-hash = "2"
serde = { version = "1", features = ["derive"] }
smallvec = "1"
