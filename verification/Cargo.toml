[package]
name = "snark_core"
version = "0.1.0"
edition = "2021"
publish = false

[dependencies]
snarkvm-curves = "=4.12.0"
snarkvm-fields = "=4.12.0"
snarkvm-utilities = "=4.12.0"
serde = { version = "=1.0.229", features = ["derive"] }
serde_json = "=1.0.154"
enum_index = "=0.2.0"
enum_index_derive = "=0.2.0"
