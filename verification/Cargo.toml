[package]
name = "minecraft_protocol"
version = "0.1.0"
edition = "2021"
publish = false

[dependencies]
aes = "0.8"
cfb8 = "0.8"
fastnbt = "2"
flate2 = "1"
num-bigint = "0.4"
rand = "0.9"
sha1 = "0.10"
uuid = "1"
serde = { version = "1", features = ["derive"] }
reqwest = { version = "0.12", default-features = false, features = ["json", "rustls-tls"] }
tokio = { version = "1", features = ["full"] }
warp = "0.3"
dotenv = "0.15"
open = "5"
