[package]
name = "openvoxel"
version = "0.1.0"
edition = "2021"
publish = false

[dependencies]
rand = "=0.9.5"
bytes = "=1.12.1"
lz4_flex = "=0.11.6"
bitvec = "=1.1.1"
fxhash = "=0.2.1"
serde = { version = "=1.0.229", features = ["derive"] }
thiserror = "=2.0.21"
bytemuck = { version = "=1.25.2", features = ["derive"] }
zstd = "0.13"
serde_json = "1"
toml = "0.8"
crossbeam-channel = "0.5"
parking_lot = "0.12"
priority-queue = "2"
