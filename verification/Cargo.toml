[package]
name = "localize_npc_names"
version = "0.1.0"
edition = "2021"
publish = false

[dependencies]
crossbeam-channel = "=0.5.17"
indexmap = { version = "=2.14.2", features = ["serde"] }
isahc = "=1.8.3"
jemallocator = "=0.5.4"
once_cell = "=1.21.4"
onig = { version = "=6.5.3", default-features = false }
rayon = "=1.12.0"
regex = "=1.13.1"
select = "=0.6.1"
serde = { version = "=1.0.229", features = ["derive"] }
serde_yaml = "=0.9.34"
toml = { version = "=0.8.23", features = ["preserve_order"] }
walkdir = "=2.5.0"
winapi-util = "=0.1.11"
