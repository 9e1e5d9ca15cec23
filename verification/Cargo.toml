[package]
name = "static_key"
version = "0.1.0"
edition = "2021"
publish = false

[dependencies]
rustix = { version = "=1.1.6", features = ["mm", "param", "thread"] }
syn = { version = "=2.0.119", features = ["full"] }
quote = "=1.0.47"
proc-macro2 = "=1.0.107"
