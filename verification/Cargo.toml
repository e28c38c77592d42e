[package]
name = "kennel"
version = "0.1.0"
edition = "2021"
publish = false

[dependencies]
basic-toml = "=0.1.10"
lexopt = "=0.3.2"
libc = "=0.2.191"
object = { version = "=0.36.7", default-features = false, features = ["read_core", "elf", "std"] }
serde = { version = "=1.0.229", features = ["derive"] }
serde_json = { version = "=1.0.154", features = ["preserve_order"] }
