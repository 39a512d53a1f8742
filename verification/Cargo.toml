[package]
name = "fanfare"
version = "0.1.0"
edition = "2021"
publish = false

[dependencies]
byteorder = "=1.5.0"
chrono = "=0.4.45"
glob = "=0.3.4"
heed = "=0.8.1"
main_error = "=0.1.2"
smallvec = "=1.16.4"
structopt = "=0.3.26"
