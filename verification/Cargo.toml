[package]
name = "migrasquiel"
version = "0.1.0"
edition = "2021"
publish = false

[dependencies]
anyhow = "*"
async-trait = "*"
chrono = "*"
clap = { version = "4", features = ["derive"] }
csv = "*"
flate2 = "*"
futures = "*"
hex = "*"
indicatif = "*"
sqlx = { version = "0.8", default-features = false, features = ["mysql", "runtime-tokio", "chrono"] }
tokio = { version = "1", features = ["rt-multi-thread", "macros"] }
