[package]
name = "pubky_hs_inspect"
version = "0.1.0"
edition = "2021"
publish = false

[dependencies]
pubky = "*"
pkarr = "*"
url = "*"
serde = "*"
serde_json = "*"
clap = { version = "*", features = ["derive"] }
colored = "*"
futures = "*"
reqwest = "*"
tokio = { version = "*", features = ["macros", "rt-multi-thread"] }
