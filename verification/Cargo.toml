[package]
name = "dracut_stub_manager"
version = "0.1.0"
edition = "2021"
publish = false

[dependencies]
clap = { version = "*", features = ["derive"] }
config = "*"
dialoguer = "*"
efivar = "*"
gpt = "*"
serde = { version = "*", features = ["derive"] }
uuid = "*"
