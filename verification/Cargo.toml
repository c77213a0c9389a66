[package]
name = "pdiem"
version = "0.1.0"
edition = "2021"
publish = false

[dependencies]
anyhow = "1.0"
base64 = "0.13"
bcs = "0.1"
diem-client = "*"
diem-crypto = "*"
diem-json-rpc-types = "*"
diem-types = "*"
fnv = "=1.0.7"
hashbrown = { version = "=0.7.2", default-features = false }
reqwest = { version = "0.10", features = ["json"] }
serde = { version = "1.0", features = ["derive"] }
serde_json = "=1.0.154"
structopt = "0.3"
tokio = { version = "0.2", features = ["macros", "rt-threaded", "time"] }
