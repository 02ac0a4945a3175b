[package]
name = "slurm_docker"
version = "0.1.0"
edition = "2021"
publish = false

[dependencies]
serde = { version = "1", features = ["derive"] }
serde_json = "1"
shell-words = "1"
sha2 = "0.10"
hex = "0.4"
object_store = { version = "*", default-features = false }
uuid = { version = "1", features = ["v4", "serde"] }
clap = { version = "4", features = ["derive"] }
dirs = "*"
thiserror = "*"
