[package]
name = "uipilot"
version = "0.1.0"
edition = "2021"
publish = false

[dependencies]
anyhow = "*"
base64 = "*"
dotenvy = "*"
image = "*"
reqwest = { version = "*", features = ["json"] }
serde = { version = "*", features = ["derive"] }
serde_json = "*"
thirtyfour = "*"
tokio = { version = "*", features = ["macros", "rt-multi-thread", "time"] }
which = "*"
yup-oauth2 = "*"
