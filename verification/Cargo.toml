[package]
name = "photooxide"
version = "0.1.0"
edition = "2021"
publish = false

[dependencies]
chrono = "0.4"
env_logger = "0.6"
fuse = "0.3"
google-photoslibrary1 = "1.0"
hyper = "0.10"
hyper-rustls = "0.6"
libc = "0.2"
log = "0.4"
rusqlite = "0.16"
scheduled-executor = "0.4"
serde = "1.0"
serde_json = "1.0"
time = "0.1"
users = "0.8"
yup-oauth2 = "1.0"
