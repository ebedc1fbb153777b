[package]
name = "chain_index"
version = "0.1.0"
edition = "2021"
publish = false

[dependencies]
bitcoin = "*"
anyhow = "*"
hex = "*"
tokio = { version = "*", features = ["full"] }
futures = "*"
async-stream = "*"
reqwest = { version = "*", default-features = false }
fjall = "*"
num_cpus = "*"
