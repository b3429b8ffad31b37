[package]
name = "voip_core"
version = "0.1.0"
edition = "2021"
publish = false

[dependencies]
opus = "=0.2.1"
