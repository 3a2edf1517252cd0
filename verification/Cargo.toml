[package]
name = "eth_light_client"
version = "0.1.0"
edition = "2021"
publish = false

[dependencies]
keccak-hash = "=0.4.1"
primitive-types = "=0.6.2"
ethereum-types = "=0.8.0"
ethbloom = "=0.8.1"
ethash = "=0.4.0"
parity-scale-codec = { version = "=3.7.5", features = ["derive"] }

[dev-dependencies]
rlp = "=0.6.1"
cita_trie = "=6.0.2"
cita-hasher = { version = "=0.1.0", features = ["hash-keccak"] }
