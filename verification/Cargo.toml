[package]
name = "armar"
version = "0.1.0"
edition = "2021"
publish = false

[dependencies]
actix-web = "*"
env_logger = "*"
oci-spec = "*"
opendal = { version = "*", features = ["services-fs", "services-s3"] }
qstring = "*"
serde = { version = "*", features = ["derive"] }
serde_json = "*"
serde_yaml = "*"
sha2 = "*"
uuid = { version = "*", features = ["v4"] }
