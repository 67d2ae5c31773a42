[package]
name = "fussel"
version = "0.1.0"
edition = "2021"
publish = false

[dependencies]
crossbeam = "*"
failure = "*"
git2 = "*"
serde = { version = "*", features = ["derive"] }
structopt = "*"
tokio = { version = "*", features = ["rt", "io-util", "io-std"] }
toml = "*"
walkdir = "*"
yansi = "*"
