[package]
name = "hypernovae"
version = "0.1.0"
edition = "2021"
publish = false

[dependencies]
tokio = { version = "1", features = ["net", "io-util", "rt-multi-thread", "macros", "time"] }
serde = { version = "1", features = ["derive"] }
serde_json = "1"
toml = "*"
thiserror = "*"
hex = "0.4"
either = "1"

[dev-dependencies]
nom = "8"
cookie-factory = "0.3"
bitflags = "2"
