[package]
name = "clankerdiff-core"
version = "0.1.0"
edition = "2021"
publish = false

[dependencies]
similar = "=2.7.0"
blake3 = "=1.8.7"
diffy = "=0.5.2"
serde = { version = "=1.0.229", features = ["derive"] }
serde_json = "=1.0.154"
thiserror = "=2.0.21"
rand = "=0.9.5"
clap = { version = "=4.6.7", features = ["derive"] }
open = "=5.4.5"
http = "=1.5.0"
shlex = "1"
