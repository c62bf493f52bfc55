[package]
name = "gameshopui"
version = "0.1.0"
edition = "2021"
publish = false

[dependencies]
serde = { version = "1", features = ["derive"] }
serde_json = "1"
thiserror = "*"
reqwest = { version = "0.12", default-features = false }
itertools = "*"
take_mut = "*"
iced = { version = "0.13", default-features = false }
