[package]
name = "cargo-libafl"
version = "0.1.8"
edition = "2021"
publish = false

[dependencies]
anyhow = "=1.0.104"
arbitrary = "=1.5.0"
clap = { version = "=4.6.7", features = ["derive"] }
libafl = "=0.16.1"
libafl_bolts = "=0.16.1"
libafl_targets = { version = "=0.16.1", features = ["sancov_8bit", "sancov_cmplog"] }
mimalloc = { version = "=0.1.52", default-features = false }
once_cell = "=1.21.4"
portpicker = "=0.1.1"
rustc_version = "=0.4.1"
xdg = "=2.5.2"
