[package]
name = "sqnr"
version = "0.1.0"
edition = "2021"
publish = false

[dependencies]
argon2 = "0.5"
bs58 = "0.5"
bytes = "1"
card-backend-pcsc = "*"
chacha20poly1305 = "0.10"
clap = { version = "4", features = ["derive"] }
dirs = "*"
ed25519-dalek = { version = "2", features = ["rand_core"] }
h3 = "*"
h3-quinn = "*"
hex = "0.4"
http = "1"
openpgp-card = "*"
quinn = "*"
rand_core = { version = "0.6", features = ["getrandom"] }
rpassword = "*"
secrecy = "*"
serde = { version = "1", features = ["derive"] }
serde_json = "1"
sha1 = "0.10"
sha2 = "0.10"
thiserror = "2"
tokio = { version = "1", features = ["rt-multi-thread", "macros", "sync"] }
toml = "*"
zeroize = "1"
