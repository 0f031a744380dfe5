[package]
name = "vapor-forge-hooks"
version = "0.1.0"
edition = "2021"
publish = false

[dependencies]
iced-x86 = { version = "1.21", default-features = false, features = ["std", "decoder", "instr_info"] }
serde_json = "1"
