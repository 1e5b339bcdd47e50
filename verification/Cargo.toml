[package]
name = "maeve"
version = "0.1.0"
edition = "2021"
publish = false

[dependencies]
rand = "=0.9.5"
tokio = { version = "=1.54.1", features = ["full"] }
futures = "=0.3.34"
log = "=0.4.35"
tsclientlib = { version = "=0.2.0", default-features = false }
tsproto-packets = "=0.1.0"
audiopus = "=0.2.0"
