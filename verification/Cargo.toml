[package]
name = "tokio-ns-jail"
version = "0.1.0"
edition = "2021"
publish = false

[dependencies]
nix = { version = "0.30", features = ["fs", "mount", "process", "sched", "signal", "term", "user"] }
pin-project-lite = "0.2"
tokio = { version = "1", features = ["fs", "io-util", "macros", "net", "rt"] }
