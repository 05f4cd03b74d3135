[package]
name = "vault"
version = "0.1.0"
edition = "2021"
publish = false

[dependencies]
md-5 = "*"
base16ct = { version = "*", features = ["alloc"] }
rusqlite = { version = "*", features = ["bundled"] }
clap = { version = "*", features = ["derive"] }
jwalk = "*"
rayon = "*"
