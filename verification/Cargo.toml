[package]
name = "proxy_core"
version = "0.1.0"
edition = "2021"
publish = false

[dependencies]
async-trait = "0.1"
bytes = "1"
futures-util = "0.3"
h2 = "0.4"
http = "1"
http-body-util = "0.1"
hyper = { version = "1", features = ["client", "http1", "server"] }
log = "0.4"
prost = { version = "0.13", default-features = false, features = ["std"] }
tokio = { version = "1", features = ["io-util", "macros", "net", "rt", "time"] }
