[package]
name = "ad_proxy"
version = "0.1.0"
edition = "2021"
publish = false

[dependencies]
chrono = "0.4"
dashmap = "6"
hls_m3u8 = "*"
json = "0.12"
url = "2"
uuid = { version = "1", features = ["v4"] }
vast4-rs = "*"
actix-cors = "*"
actix-web = { version = "4", default-features = false, features = ["macros"] }
awc = { version = "3", default-features = false, features = ["rustls-0_23"] }
clap = { version = "4", features = ["derive", "env"] }
env_logger = "0.11"
lazy_static = "1"
log = "0.4"
mime = "0.3"
mp4 = "*"
rustls = { version = "0.23", default-features = false, features = ["ring", "std", "tls12", "logging"] }
webpki-roots = "*"
