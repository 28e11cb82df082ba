[package]
name = "advanzia2csv"
version = "0.1.0"
edition = "2021"
publish = false

[dependencies]
anyhow = "*"
chrono = "*"
clap = { version = "*", features = ["derive"] }
csv = "*"
fern = { version = "*", features = ["colored"] }
glob = "*"
log = "*"
lopdf = "*"
regex = "*"
serde = { version = "*", features = ["derive"] }
