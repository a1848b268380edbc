[package]
name = "buckal"
version = "0.1.0"
edition = "2021"
publish = false

[dependencies]
anyhow = "*"
cargo_metadata = "*"
cargo-platform = "*"
clap = { version = "*", features = ["derive"] }
colored = "*"
inquire = "*"
reqwest = { version = "*", default-features = false, features = ["blocking", "json", "rustls-tls"] }
serde = { version = "*", features = ["derive"] }
serde_starlark = "*"
