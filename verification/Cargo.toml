[package]
name = "nu_plugin_from_sse"
version = "0.4.0"
edition = "2021"
publish = false

[dependencies]
nu-plugin = "=0.114.1"
nu-protocol = "=0.114.1"
