[package]
name = "sunwalker_invoker"
version = "0.1.0"
edition = "2021"
publish = false

[dependencies]
nix = { version = "*", features = ["mount", "sched", "socket", "signal", "process", "fs", "uio", "user"] }
libc = "*"
serde = { version = "*", features = ["derive"] }
rmp-serde = "*"
tokio = { version = "*", features = ["process", "rt", "rt-multi-thread", "sync", "net", "io-util", "macros", "time"] }
tokio-seqpacket = "*"
futures = "*"
