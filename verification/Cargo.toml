[package]
name = "vm_telegram"
version = "0.1.0"
edition = "2021"
publish = false

[dependencies]
anyhow = "*"
bson = "*"
chrono = "=0.4.45"
dotenv = "*"
futures-util = "*"
json = "*"
log = "*"
mongodb = "*"
plotters = "*"
pretty_env_logger = "*"
reqwest = { version = "*", default-features = false }
serde = { version = "*", features = ["derive"] }
serde_derive = "*"
serde_yaml = "*"
teloxide = { version = "*", features = ["macros"] }
takecell = "=0.1.1"
tempfile = "*"
tokio = { version = "*", features = ["macros", "rt-multi-thread", "time"] }
