[package]
name = "worldmapper"
version = "0.1.0"
edition = "2021"
publish = false

[dependencies]
clap = { version = "*", features = ["derive"] }
futures = "*"
image = "*"
log = "*"
log_err = "*"
minetestworld = "*"
pretty_env_logger = "*"
serde = { version = "*", features = ["derive"] }
serde_derive = "*"
thiserror = "*"
tokio = { version = "*", features = ["macros", "rt-multi-thread", "fs"] }
toml = "*"
