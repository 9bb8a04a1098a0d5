[package]
name = "windiff_core"
version = "0.1.0"
edition = "2021"
publish = false

[dependencies]
goblin = "*"
serde = { version = "*", features = ["derive"] }
serde_json = "*"
tokio = { version = "*", features = ["fs", "io-util", "rt", "rt-multi-thread", "macros"] }
futures = "*"
async-compression = { version = "*", features = ["tokio", "gzip"] }
reqwest = { version = "*", default-features = false }
url = "*"
bytes = "*"
structopt = "*"
env_logger = "*"
log = "*"
tempdir = "*"
crossbeam-channel = "*"
pdb = "*"
