[package]
name = "notepad_parser"
version = "0.1.0"
edition = "2021"
publish = false

[dependencies]
byteorder = "1"
clap = "4"
csv = "1"
glob = "0.3"
log = "0.4"
log4rs = "1"
serde = { version = "1", features = ["derive"] }
serde_json = "1"
thiserror = "1"
winparsingtools = "*"
