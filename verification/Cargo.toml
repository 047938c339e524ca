[package]
name = "tailsrv"
version = "0.1.0"
edition = "2021"
publish = false

[dependencies]
bpaf = { version = "=0.9.28", features = ["derive"] }
rustix = { version = "=1.1.5", features = ["event", "fs", "pipe", "net"] }
rustix-uring = "=0.6.0"
tracing = "=0.1.44"
tracing-subscriber = { version = "=0.3.23", features = ["env-filter"] }
