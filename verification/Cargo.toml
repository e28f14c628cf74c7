[package]
name = "blockchain"
version = "0.1.0"
edition = "2021"
publish = false

[dependencies]
sha2 = "=0.10.9"
ripemd = "=0.1.3"
bs58 = "=0.5.1"
hex = "=0.4.3"
num-bigint = "=0.4.8"
secp256k1 = { version = "=0.29.1", features = ["rand-std"] }
p256 = "=0.13.2"
rand_core = { version = "=0.6.4", features = ["getrandom"] }
serde = { version = "=1.0.229", features = ["derive"] }
rmp-serde = "=1.3.1"
bincode = "=1.3.3"
jammdb = "=0.11.0"
clap = { version = "=4.6.7", features = ["derive"] }
shlex = "=1.3.0"
tokio = { version = "=1.54.1", features = ["net", "sync", "rt-multi-thread", "macros", "time", "io-util"] }
