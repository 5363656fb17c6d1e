[package]
name = "zcash_light_client"
version = "0.1.0"
edition = "2021"
publish = false

[dependencies]
bech32 = "=0.8.1"
blake2s_simd = "1"
bs58 = { version = "=0.4.0", features = ["check"] }
bls12_381 = "=0.7.1"
group = "=0.12.1"
jubjub = "=0.9.0"
sha2 = "=0.9.9"
protobuf = "=2.28.0"
zcash_note_encryption = "=0.2.0"
rusqlite = { version = "=0.25.4", features = ["bundled"] }
schemer = "=0.2.1"
schemer-rusqlite = "=0.2.1"
secrecy = "=0.8.0"
hdwallet = "=0.3.1"
uuid = "=1.29.0"

[dev-dependencies]
rand_core = "=0.6.4"
rand_xorshift = "=0.3.0"
