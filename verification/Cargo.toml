[package]
name = "ipvlan"
version = "0.1.0"
edition = "2021"
publish = false

[dependencies]
caps = "*"
libc = "*"
netlink-packet-core = "*"
netlink-packet-route = "*"
structopt = "*"
