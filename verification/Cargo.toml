[package]
name = "ehci_debug_bridge"
version = "0.1.0"
edition = "2021"
publish = false

[dependencies]
ch32-hal = "=0.0.0"
embassy-executor = { version = "=0.10.0", features = ["platform-spin", "executor-thread"] }
embassy-futures = "=0.1.2"
embassy-net = { version = "=0.9.1", features = ["tcp", "dhcpv4", "medium-ethernet", "proto-ipv4"] }
embassy-sync = "=0.8.0"
embassy-time = "=0.5.1"
embassy-usb = "=0.6.0"
embedded-io-async = "=0.7.0"
static_cell = "=2.1.1"
qingke-rt = "*"
