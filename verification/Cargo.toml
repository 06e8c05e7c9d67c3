[package]
name = "tiny_http"
version = "0.12.0"
edition = "2021"
publish = false

[dependencies]
ascii = "=1.1.0"
chunked_transfer = "=1.5.0"
http = "=1.5.0"
httpdate = "=1.0.3"
rustls = { version = "=0.23.46", default-features = false, features = ["ring", "std", "tls12"] }
rustls-pemfile = "=2.2.0"
rustls-pki-types = "=1.15.1"
zeroize = "=1.9.1"
