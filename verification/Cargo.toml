[package]
name = "ccd_lcamv06"
version = "0.1.0"
edition = "2021"
publish = false

[dependencies]
arraystring = "=0.3.0"
bytes = "=1.12.1"
clap = { version = "=3.2.25", features = ["derive"] }
serialport = { version = "=4.10.1", default-features = false }
simple-eyre = "=0.3.1"
termcolor = "=1.4.1"
atty = "=0.2.14"
env_logger = "=0.10.2"
log = "=0.4.34"
thiserror = "=1.0.69"
embedded-hal-nb = "1"
nb = "1"

[dev-dependencies]
nom = "=7.1.3"
