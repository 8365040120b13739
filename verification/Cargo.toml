[package]
name = "logcrab"
version = "0.1.0"
edition = "2021"
publish = false

[dependencies]
anyhow = "=1.0.104"
arc-swap = "=1.9.3"
btsnoop = "=0.2.1"
chrono = "=0.4.45"
dashmap = "=6.2.1"
dirs = "=7.0.0"
dlt-core = "=0.18.0"
eframe = { version = "=0.33.3", default-features = false, features = ["default_fonts", "glow", "x11"] }
egui = "=0.33.3"
egui-toast = "=0.19.1"
fs2 = "=0.4.3"
indexmap = { version = "=2.14.2", features = ["rayon"] }
pcap-parser = { version = "=0.17.0", features = ["data"] }
profiling = "=1.0.18"
rayon = "=1.12.0"
rfd = { version = "=0.17.2", default-features = false, features = ["xdg-portal"] }
serde = { version = "=1.0.229", features = ["derive"] }
serde_json = "=1.0.154"
someip_parse = "=0.7.2"
tokio = { version = "=1.54.1", features = ["rt-multi-thread", "sync", "time", "macros", "net"] }
tokio-stream = "=0.1.19"
tonic = "=0.14.9"
tracing = "=0.1.44"
