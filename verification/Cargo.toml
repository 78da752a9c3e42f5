[package]
name = "solx"
version = "0.1.0"
edition = "2021"
publish = false

[dependencies]
aes-gcm-siv = "0.11"
base64 = "0.22"
bip39 = { version = "2", features = ["zeroize"] }
bs58 = "0.5"
ed25519-dalek = { version = "2", features = ["zeroize"] }
ed25519-dalek-bip32 = "0.3"
getrandom = "0.2"
libc = "0.2"
reqwest = { version = "0.12", default-features = false, features = ["blocking", "json", "rustls-tls"] }
rpassword = "7"
scrypt = { version = "*", default-features = false }
serde = { version = "1", features = ["derive"] }
serde_json = "1"
solana-message = { version = "*", features = ["wincode"] }
solana-pubkey = { version = "*", features = ["curve25519"] }
solana-transaction = { version = "*", features = ["wincode"] }
toml = "*"
wincode = "*"
zeroize = "1"
