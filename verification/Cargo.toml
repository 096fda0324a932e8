[package]
name = "rmi_core"
version = "0.1.0"
edition = "2021"
publish = false

[dependencies]
superslice = "*"
byteorder = "*"
json = "*"
log = "*"
rayon = "*"
tabular = "*"
indicatif = "*"
