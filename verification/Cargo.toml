[package]
name = "siwe_native"
version = "0.1.0"
edition = "2021"
publish = false

[dependencies]
alloy-primitives = { version = "*", features = ["k256"] }
http = "*"
iri-string = "*"
once_cell = "*"
rustler = "*"
siwe = { version = "*", default-features = false }
time = { version = "*", features = ["parsing"] }
tokio = { version = "*", features = ["rt-multi-thread", "time", "net", "sync"] }

[dev-dependencies]
k256 = "=0.13.4"
