[package]
name = "survey_core"
version = "0.1.0"
edition = "2021"
publish = false

[dependencies]
dotenv = "0.15"
image = { version = "*", default-features = false }
qrcode = { version = "*", default-features = false, features = ["image"] }
serenity = "0.10"
tokio = { version = "1", features = ["macros", "rt-multi-thread"] }
