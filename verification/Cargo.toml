[package]
name = "zcash_transact"
version = "0.1.0"
edition = "2021"
publish = false

[dependencies]
ff = "=0.14.0"
incrementalmerkletree = { version = "=0.9.0", features = ["legacy-api"] }
jubjub = "=0.11.1"
rand = "=0.10.3"
rand_core = "=0.10.1"
rusqlite = { version = "=0.20.0", features = ["bundled"] }
sapling-crypto = "=0.9.0"
time = "=0.1.45"
zcash_client_backend = "=0.25.0"
zcash_keys = { version = "=0.17.0", features = ["sapling"] }
zcash_primitives = { version = "=0.31.0", features = ["non-standard-fees"] }
zcash_protocol = "=0.11.0"
zcash_transparent = "=0.11.0"

[dev-dependencies]
bls12_381 = "=0.9.0"
zcash_note_encryption = "=0.5.1"
