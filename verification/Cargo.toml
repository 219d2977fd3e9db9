[package]
name = "xenos"
version = "0.1.0"
edition = "2021"
publish = false

[dependencies]
arrayvec = "0.7"
serde = { version = "1", features = ["derive"] }
serde_json = "1"
log = "0.4"
fern = "0.5"
lazy_static = "1"
num = "0.2"
num-derive = "0.2"
screeps-game-api = "0.6"
stdweb = "0.4"
