[package]
name = "texlab"
version = "0.1.0"
edition = "2021"
publish = false

[dependencies]
anyhow = "=1.0.104"
clap = "=2.34.0"
crossbeam-channel = "=0.5.17"
flate2 = "=1.1.10"
itertools = "=0.10.5"
log = "=0.4.34"
lsp-server = "=0.6.0"
lsp-types = { version = "=0.93.2", features = ["proposed"] }
notify = "=5.2.0"
once_cell = "=1.21.4"
rustc-hash = "=1.1.0"
serde = { version = "=1.0.229", features = ["derive"] }
serde_json = "=1.0.154"
smol_str = { version = "=0.1.24", features = ["serde"] }
stderrlog = "=0.5.4"
threadpool = "=1.8.1"
