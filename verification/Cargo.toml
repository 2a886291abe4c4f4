[package]
name = "lance_plaid"
version = "0.1.0"
edition = "2021"
publish = false

[dependencies]
arrow-array = "=57.3.2"
arrow-buffer = "=57.3.2"
arrow-schema = "=57.3.2"
arrow-select = "=57.3.2"
byteorder = "=1.5.0"
datafusion-physical-expr = "52"
libc = "0.2"
moka = { version = "0.12", features = ["future"] }
ndarray = "0.16"
permutation = "=0.4.1"
rand = { version = "=0.9.5", features = ["small_rng"] }
rayon = "1"
roaring = "=0.11.5"
serde_json = "1"
