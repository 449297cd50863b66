[package]
name = "testing_framework"
version = "0.1.0"
edition = "2021"
publish = false

[dependencies]
anyhow = "1"
async-trait = "0.1"
csv = "1"
dotenv = "0.15"
dyn-clone = "1"
error-stack = "0.5"
http-body-util = "0.1"
hyper = "1"
hyper-util = { version = "0.1", features = ["client-legacy", "http2", "tokio"] }
prost = "0.13"
rand = "0.8"
rand_distr = "0.4"
reqwest = { version = "0.12", default-features = false }
serde = { version = "1", features = ["derive"] }
serde_json = "1"
thiserror = "1"
tokio = { version = "1", features = ["macros", "rt-multi-thread"] }
tonic = "0.12"
warp = { version = "0.3", default-features = false }
