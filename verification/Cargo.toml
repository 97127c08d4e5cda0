[package]
name = "niebo"
version = "0.1.0"
edition = "2021"
publish = false

[dependencies]
anyhow = "=1.0.104"
clang = { version = "=2.1.0", features = ["runtime"] }
clap = { version = "=4.6.7", features = ["derive"] }
inkwell = { version = "=0.5.0", features = ["llvm14-0-force-dynamic"] }
pretty_env_logger = "=0.5.0"
serde = { version = "=1.0.229", features = ["derive"] }
toml = "=0.8.23"
