[package]
name = "gpfind"
version = "0.1.0"
edition = "2021"
publish = false

[dependencies]
clap = "=4.6.7"
gfapi-sys = "=0.3.6"
libc = "=0.2.190"
log = "=0.4.34"
multiqueue = "=0.3.2"
r2d2 = "=0.8.10"
r2d2_gluster = "=0.1.1"
simplelog = "=0.12.2"
