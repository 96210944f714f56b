[package]
name = "imitator"
version = "0.1.0"
edition = "2021"
publish = false

[dependencies]
regex = "1"
md5 = "0.7"
rand = "0.8"
sqlx = { version = "0.7", default-features = false, features = ["sqlite", "runtime-tokio"] }
warp = "0.3"
tokio = { version = "1", features = ["full"] }
tokio-stream = "0.1"
csv-async = { version = "1", features = ["tokio"] }
structopt = "0.3"
serde = { version = "1", features = ["derive"] }
serde_json = "1"
urlencoding = "2"
thiserror = "1"
