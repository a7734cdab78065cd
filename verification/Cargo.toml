[package]
name = "mirror_registry"
version = "0.1.0"
edition = "2021"
publish = false

[dependencies]
semver = "*"
sha2 = "*"
md5 = "*"
serde = { version = "*", features = ["derive"] }
serde_json = "*"
chrono = "*"
toml = "*"
rand = "*"
anyhow = "*"
rpassword = "*"
reqwest = { version = "*", default-features = false, features = ["blocking", "rustls-tls"] }
