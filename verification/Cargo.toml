[package]
name = "tftp_server"
version = "0.1.0"
edition = "2021"
publish = false

[dependencies]
byteorder = "1"
log = "0.4"
env_logger = "0.4"
mio = "0.6"
mio-more = "0.1"
clap = "2"
