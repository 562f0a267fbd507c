[package]
name = "sectora"
version = "0.1.0"
edition = "2021"
publish = false

[dependencies]
serde = { version = "1", features = ["derive"] }
serde_json = "1"
toml = "0.8"
hyper = { version = "0.14", features = ["client", "http1", "http2", "tcp"] }
hyper-tls = "0.5"
tokio = { version = "1", features = ["rt", "rt-multi-thread", "macros"] }
futures = "0.3"
glob = "0.3"
libc = "0.2"
nix = "0.29"
clap = { version = "4", features = ["derive"] }
clap_complete = "4"
sd-notify = "0.4"
log = "0.4"
once_cell = "1"
