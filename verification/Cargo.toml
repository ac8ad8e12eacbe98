[package]
name = "hnefatafl_copenhagen"
version = "0.1.0"
edition = "2021"
publish = false

[dependencies]
anyhow = "=1.0.104"
argon2 = "0.5"
badwords-rs = "*"
chrono = "=0.4.45"
colored = "=3.1.1"
rand = "=0.9.5"
rustc-hash = "=2.1.3"
rustrict = "*"
