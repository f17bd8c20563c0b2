[package]
name = "checksums"
version = "0.1.0"
edition = "2021"
publish = false

[dependencies]
blake = "*"
blake2-rfc = "*"
blake3 = "*"
clap = "2"
crc = "*"
crc16 = "*"
crc32c = "*"
crc8 = "*"
futures = "0.1"
futures-cpupool = "0.1"
md-5 = "*"
md6 = "*"
num_cpus = "*"
shaman = "*"
tiny-keccak = { version = "*", features = ["sha3"] }
walkdir = "*"
