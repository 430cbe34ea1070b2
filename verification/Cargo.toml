[package]
name = "nix_cache_upload_daemon"
version = "0.1.0"
edition = "2021"
publish = false

[dependencies]
bpaf = "0.9"
daemonize = "0.5"
tokio = { version = "1", features = ["rt-multi-thread", "macros", "sync", "net", "signal", "process", "io-util"] }
tracing = "0.1"
tracing-subscriber = { version = "0.3", features = ["env-filter"] }
