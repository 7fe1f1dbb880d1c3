[package]
name = "scopehal_fx_bridge"
version = "0.1.0"
edition = "2021"
publish = false

[dependencies]
nusb = "0.1"
futures-lite = "*"
log = "*"
env_logger = "*"
thiserror = "*"
clap = "*"
ctrlc = "*"
vcd = "*"
status-line = "*"
fst-writer = "*"
chrono = "*"
