[package]
name = "webdu"
version = "0.1.0"
edition = "2021"
publish = false

[dependencies]
url = "=2.5.8"
mime = "=0.3.17"
encoding = "=0.2.33"
html5ever = "=0.39.0"
markup5ever_rcdom = "=0.39.0"
hyper = { version = "=0.14.32", features = ["client", "http1", "tcp"] }
hyper-tls = "=0.5.0"
tokio = { version = "=1.53.2", features = ["rt-multi-thread"] }
futures-util = "=0.3.34"
clap = "=4.6.7"
stderrlog = "=0.6.0"
log = "=0.4.34"
libc = "=0.2.190"
