[package]
name = "naia_core"
version = "0.1.0"
edition = "2021"
publish = false

[dependencies]
slotmap = "=1.1.1"
log = "=0.4.34"
hecs = "=0.11.2"
bevy = { version = "0.18", default-features = false }
