[package]
name = "pyroclast"
version = "0.1.0"
edition = "2021"

[dependencies]
blake3 = "=1.8.7"
cargo_metadata = "=0.23.1"
clap = { version = "=4.6.7", features = ["derive"] }
framehop = "=0.16.0"
gimli = "=0.33.0"
hashbrown = "=0.17.1"
memmap2 = "=0.9.12"
object = "=0.40.0"
rustc-hash = "=2.1.3"
serde = { version = "=1.0.229", features = ["derive"] }
serde_json = "=1.0.154"

[dev-dependencies]
tempfile = "=3.27.0"
