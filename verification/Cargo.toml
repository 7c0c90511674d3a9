[package]
name = "canopen-core"
version = "0.1.0"
edition = "2021"
publish = false

[dependencies]
heapless = "=0.8.0"
embedded-can = "=0.4.1"
nb = "=1.1.0"
critical-section = { version = "=1.2.0", features = ["std"] }
embassy-sync = "=0.6.2"
miniz_oxide = "=0.8.9"
proc-macro2 = { version = "=1.0.107", default-features = false }
quote = { version = "=1.0.47", default-features = false }
syn = { version = "=2.0.119", default-features = false, features = ["full", "extra-traits", "parsing", "printing"] }
