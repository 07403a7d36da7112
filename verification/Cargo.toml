[package]
name = "updtr"
version = "0.1.0"
edition = "2021"
publish = false

[dependencies]
brotli = "*"
sha256 = "*"
clap = { version = "*", features = ["derive"] }
dirs = "*"
serde = { version = "*", features = ["derive"] }
serde_yml = "*"
tokio = { version = "*", features = ["macros", "rt-multi-thread"] }
object_store = { version = "*", features = ["aws"] }
url = "*"
futures = "*"
bytes = "*"
walkdir = "*"
