[package]
name = "scrapdog"
version = "0.1.0"
edition = "2021"
publish = false

[dependencies]
regex = "=1.13.1"
minidom = "=0.13.0"
chrono = { version = "=0.4.45", features = ["serde"] }
bincode = "=1.3.3"
anyhow = "=1.0.104"
clap = { version = "=3.2.25", features = ["derive"] }
directories-next = "=2.0.0"
diesel = { version = "=1.4.8", features = ["sqlite", "chrono"] }
libsqlite3-sys = { version = "=0.22.2", features = ["bundled"] }
serde = { version = "=1.0.229", features = ["derive"] }
serde_json = "=1.0.154"
serde_repr = "=0.1.21"
fs_extra = "=1.3.0"
warp = "=0.3.7"
tokio = { version = "=1.54.1", features = ["full"] }
