[package]
name = "libgitdit"
version = "0.1.0"
edition = "2021"
publish = false

[dependencies]
git2 = { version = "*", default-features = false }
clap = { version = "*" }
chrono = { version = "*", default-features = false, features = ["std"] }
colored = "*"
atty = "*"
log = { version = "*", features = ["std"] }

[dev-dependencies]
regex = "*"
