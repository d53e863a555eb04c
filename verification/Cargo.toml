[package]
name = "anthill_ecs"
version = "0.1.0"
edition = "2021"
publish = false

[dependencies]
petgraph = "0.6"
uuid = { version = "1", features = ["v7"] }
async-broadcast = "*"
async-lock = "3"
async-trait = "0.1"
anyhow = "1"
thiserror = "1"
tracing = "0.1"
type-uuid = "0.1"
anthill-di = "*"
