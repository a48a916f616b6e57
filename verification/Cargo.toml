[package]
name = "filtermail"
version = "0.1.0"
edition = "2021"
publish = false

[dependencies]
async-trait = "*"
base64 = "*"
env_logger = "*"
governor = "*"
lettre = { version = "*", default-features = false, features = ["builder", "smtp-transport", "tokio1"] }
log = "*"
mailparse = "*"
serde = { version = "*", features = ["derive"] }
serini = "*"
thiserror = "*"
tokio = { version = "*", features = ["io-util", "macros", "net", "rt-multi-thread"] }
