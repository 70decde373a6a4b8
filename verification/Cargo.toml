[package]
name = "ritcoin"
version = "0.1.0"
edition = "2021"
publish = false

[dependencies]
sha2 = "*"
ripemd = "*"
bs58 = "*"
hex = "*"
secp256k1 = { version = "*", features = ["rand"] }
serde = { version = "*", features = ["derive"] }
serde_json = "*"
reqwest = { version = "*", features = ["blocking", "json"] }
actix-web = "*"
