[package]
name = "tty_info"
version = "0.1.0"
edition = "2021"
publish = false

[dependencies]
atoi = "=3.1.1"
bsd-errnos = "=0.0.1"
itoap = "=1.0.1"
libc = "=0.2.191"
linux-raw-sys = "=0.4.15"
linux-stat = "=0.3.3"
linux-syscalls = "=0.3.2"
memchr = "=2.8.3"
