[package]
name = "llc"
version = "0.1.0"
edition = "2021"
publish = false

[dependencies]
structopt = "=0.3.26"

[dev-dependencies]
nom = "=5.1.3"
nom_locate = "=2.1.0"
