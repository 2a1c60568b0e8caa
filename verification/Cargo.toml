[package]
name = "userauth"
version = "0.1.0"
edition = "2021"
publish = false

[dependencies]
bcrypt = "=0.19.3"
chrono = "=0.4.45"
jsonwebtoken = "=9.3.1"
totp-rs = { version = "=5.7.2", features = ["gen_secret"] }
uuid = { version = "=1.27.0", features = ["v4"] }

[dev-dependencies]
rcgen = "=0.14.10"
