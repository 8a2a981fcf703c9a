[package]
name = "peerchat"
version = "0.1.0"
edition = "2021"
publish = false

[dependencies]
base64 = "0.22"
chacha20poly1305 = "0.10"
chrono = { version = "0.4", default-features = false, features = ["clock", "std"] }
futures = "0.3"
hex = "0.4"
hkdf = "0.12"
libp2p = { version = "0.54", features = ["tokio", "tcp", "dns", "noise", "yamux", "ping", "mdns", "kad", "request-response", "json", "macros", "ed25519"] }
rand = "0.8"
ratatui = "0.29"
rfd = { version = "0.17", default-features = false, features = ["xdg-portal"] }
serde = { version = "1", features = ["derive"] }
serde_json = "1"
sha2 = "0.10"
tokio = { version = "1", features = ["macros", "rt-multi-thread", "signal", "sync", "time"] }
x25519-dalek = { version = "2", features = ["static_secrets"] }
