[package]
name = "titans"
version = "0.1.0"
edition = "2021"
publish = false

[dependencies]
anyhow = "1"
arc-swap = "1"
async-trait = "0.1"
bytes = "1"
comfy-table = "7"
ftlog = "0.2"
hashbrown = "0.14"
jsonrpsee = { version = "0.16", features = ["server", "ws-client"] }
jsonrpsee-core = "0.16"
kanal = "*"
lazy_static = "1"
once_cell = "1"
quick-xml = { version = "0.28", features = ["serialize"] }
rayon = "1"
serde = { version = "1", features = ["derive"] }
serde_json = "1"
ssh-rs = "0.3"
sysinfo = "0.29"
tokio = { version = "1", features = ["full"] }
uuid = { version = "1", features = ["v4"] }
