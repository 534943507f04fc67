[package]
name = "ipqis"
version = "0.1.0"
edition = "2021"
publish = false

[dependencies]
serde_json = "1"
rkyv = "0.7"
bytecheck = "0.6"
