[package]
name = "hk"
version = "0.1.0"
edition = "2021"
publish = false

[dependencies]
indexmap = { version = "2", features = ["serde"] }
getrandom = "0.3"
git2 = { version = "*", default-features = false }
clap = { version = "4", features = ["derive"] }
serde = { version = "1", features = ["derive"] }
serde_with = "3"
eyre = "*"
itertools = "*"
log = "*"
xx = "*"
clx = "*"
ensembler = "*"
