[package]
name = "systeroid"
version = "0.1.0"
edition = "2021"
publish = false

[dependencies]
flate2 = "*"
globwalk = "*"
rayon = "*"
regex = "*"
sysctl = "*"
getopts = "*"
dirs-next = "*"
