[package]
name = "icmp_pacer"
version = "0.1.0"
edition = "2021"
publish = false

[dependencies]
clap = { version = "=4.6.7", features = ["derive"] }
rand = "=0.10.3"
serde_json = "=1.0.151"
socket2 = { version = "=0.6.5", features = ["all"] }
sysinfo = "=0.39.6"
tokio = { version = "=1.53.2", features = ["rt-multi-thread", "time", "process", "fs", "sync", "macros"] }
