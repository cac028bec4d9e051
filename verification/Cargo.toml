[package]
name = "bonsai_git_mapping"
version = "0.1.0"
edition = "2021"
publish = false

[dependencies]
anyhow = "=1.0.104"
ascii = "=1.1.0"
async-trait = "=0.1.92"
bincode = { version = "=2.0.1", features = ["derive"] }
gix-hash = "=0.14.2"
serde = { version = "=1.0.229", features = ["derive"] }
slog = "=2.8.2"

[dev-dependencies]
bytes = "=1.12.1"
