[package]
name = "elb_logs"
version = "0.1.0"
edition = "2021"
publish = false

[dependencies]
chrono = "*"
flate2 = "*"
futures = "0.3"
rusoto_core = { version = "0.48", default-features = false, features = ["rustls"] }
rusoto_s3 = { version = "0.48", default-features = false, features = ["rustls"] }
structopt = "0.3"
tokio = { version = "1", features = ["rt-multi-thread", "macros"] }
