[package]
name = "udp2raw-ng"
version = "0.1.0"
edition = "2021"
publish = false

[dependencies]
aes-gcm = "0.10"
chacha20poly1305 = "0.10"
clap = { version = "4", features = ["derive"] }
getrandom = "0.2"
hkdf = "0.12"
hmac = "0.12"
pnet = "0.35"
sha2 = "0.10"
thiserror = "2"
tokio = { version = "1", features = ["macros", "net", "rt", "rt-multi-thread", "sync", "time"] }
tracing = "0.1"
tracing-subscriber = { version = "0.3", features = ["env-filter"] }
zeroize = "1"
