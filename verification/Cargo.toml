[package]
name = "assinador_livre"
version = "0.1.0"
edition = "2021"
publish = false

[dependencies]
base64 = "0.22"
lopdf = "*"
serde = { version = "1", features = ["derive"] }
serde_json = "1"
anyhow = "1"
tokio = { version = "1", features = ["rt-multi-thread", "sync", "time", "macros"] }
warp = "0.3"
futures-util = "0.3"
uuid = { version = "1", features = ["v4"] }
chrono = "0.4"
directories = "5"
hex = "0.4"
cryptoki = "0.6"
secrecy = "0.8"
openssl = "0.10"
x509-cert = "0.2"
cms = "0.2"
der = { version = "0.7", features = ["derive"] }
const-oid = "0.9"
rfd = { version = "0.14", default-features = false, features = ["xdg-portal", "tokio"] }
single-instance = "0.3"
auto-launch = "0.5"
