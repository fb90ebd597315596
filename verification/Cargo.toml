[package]
name = "embassy_boards"
version = "0.1.0"
edition = "2021"
publish = false

[dependencies]
serde = { version = "=1.0.229", features = ["derive"] }
toml = "=0.8.23"
clap = { version = "=4.6.7", features = ["derive", "env"] }
thiserror = "=2.0.21"
ratatui = { version = "=0.29.0", default-features = false }
embedded-hal = "=1.0.0"
cortex-m = "=0.7.10"
tracing = { version = "=0.1.44", default-features = false }
hashbrown = "=0.15.5"
embedded-graphics = "0.8"
