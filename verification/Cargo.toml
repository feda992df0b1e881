[package]
name = "rom_reconcile"
version = "0.1.0"
edition = "2021"
publish = false

[dependencies]
google-drive3 = "*"
hex = "*"
hyper = "*"
hyper-rustls = "*"
hyper-util = "*"
md5 = "*"
serde_json = "*"
tokio = { version = "*", features = ["rt-multi-thread", "macros"] }
treexml = "*"
yup-oauth2 = "*"
