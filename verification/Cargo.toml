[package]
name = "ufmt"
version = "0.2.0"
edition = "2021"
publish = false

[dependencies]
heapless = "0.5"
proc-macro2 = "1"
quote = "1"
syn = { version = "1", features = ["full"] }
