[package]
name = "yuri"
version = "0.1.0"
edition = "2021"
publish = false

[dependencies]
anyhow = "=1.0.104"
clap = { version = "=4.6.7", features = ["derive"] }
dirs = "=6.0.0"
hound = "=3.5.1"
include-flate = "0.3"
rodio = { version = "=0.20.1", default-features = false }
serde_json = "=1.0.154"
tempfile = "=3.27.0"
tracing = "=0.1.44"
wasmtime = { version = "=36.0.20", default-features = false, features = ["cranelift", "runtime", "std"] }
zip = { version = "=2.6.1", default-features = false, features = ["deflate"] }
