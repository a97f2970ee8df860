[package]
name = "repolyzer"
version = "0.1.0"
edition = "2021"
publish = false

[dependencies]
chrono = "0.4"
git2 = { version = "*", default-features = false }
piechart = "*"
url = "2"
