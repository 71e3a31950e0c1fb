[package]
name = "cdp_wire"
version = "0.1.0"
edition = "2021"
publish = false

[dependencies]
base64 = "0.13"
sha1 = "0.10"
httparse = "1"
serde_json = "1"
rand = "0.8"
serde = { version = "1", features = ["derive"] }
smol = "2"
async-net = "2"
async-std = "1"
colored_json = "*"
rustyline = "*"
structopt = "0.3"
url = "2"
