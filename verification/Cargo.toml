[package]
name = "timely_communication"
version = "0.1.0"
edition = "2021"
publish = false

[dependencies]
byteorder = "1"
columnar = "*"
futures = "0.3"
getopts = "0.2"
gm-quic = "*"
iceoryx2 = "*"
iceoryx2-bb-posix = "*"
rcgen = "0.14"
rustls = { version = "0.23", default-features = false, features = ["ring", "std", "tls12", "logging"] }
serde = { version = "1", features = ["derive"] }
tokio = { version = "1", features = ["rt-multi-thread", "net", "io-util", "macros", "time"] }
tokio-rustls = { version = "0.26", default-features = false, features = ["ring", "tls12", "logging"] }
