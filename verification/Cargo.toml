[package]
name = "xdp_firmware"
version = "0.1.0"
edition = "2021"
publish = false

[dependencies]
heapless = "=0.8.0"
log = "=0.4.35"
embassy-net = { version = "=0.9.1", features = ["udp", "proto-ipv4", "medium-ethernet"] }
embassy-executor = "=0.10.0"
embassy-futures = "=0.1.2"
embassy-time = "=0.5.1"
static_cell = "=2.1.1"
esp-hal = "=1.1.2"
esp-radio = "=0.18.0"

[dev-dependencies]
nom = "=8.0.0"
