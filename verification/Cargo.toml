[package]
name = "nipart"
version = "0.1.0"
edition = "2021"
publish = false

[dependencies]
log = "=0.4.35"
nispor = "=2.0.3"
rtnetlink = "=0.23.0"
serde = { version = "1", features = ["derive"] }
tokio = { version = "1", features = ["rt", "macros", "sync", "time", "net", "io-util"] }

[dev-dependencies]
rmsd_yaml = "=0.2.0"
