[package]
name = "assignment_2_solution"
version = "0.1.0"
edition = "2021"
publish = false

[dependencies]
async-trait = "0.1"
bincode = "1"
hmac = "0.10"
log = "0.4"
serde = { version = "1", features = ["derive"] }
sha2 = "0.9"
tokio = { version = "1", features = ["full"] }
uuid = { version = "1", features = ["v4"] }
