[package]
name = "ipld_schema"
version = "0.1.0"
edition = "2021"
publish = false

[dependencies]
cid = "*"
anyhow = "1"
thiserror = "1"
