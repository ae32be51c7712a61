[package]
name = "unlimited_poker"
version = "0.1.0"
edition = "2021"
publish = false

[dependencies]
uuid = { version = "=1.27.0", features = ["v4"] }
actix-web = "=4.15.0"
actix-web-lab = "=0.29.0"
async-graphql = { version = "=7.2.1", features = ["decimal"] }
async-graphql-actix-web = "=7.2.1"
async-trait = "*"
deuces-rs = "=0.3.0"
float-ord = "*"
futures = "*"
futures-util = "*"
mongodb = "=3.9.1"
rust_decimal = "=1.43.0"
serde = { version = "*", features = ["derive"] }
serde_json = "*"
tokio = { version = "*", features = ["macros", "rt-multi-thread"] }
