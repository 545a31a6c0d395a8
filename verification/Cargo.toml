[package]
name = "spall_cli"
version = "0.1.0"
edition = "2021"
publish = false

[dependencies]
base64 = "0.22"
sha2 = "0.10"
urlencoding = "2"
jmespath = "0.3"
serde_json = "1"
serde = { version = "1", features = ["derive"] }
reqwest = { version = "0.12", default-features = false, features = ["json", "multipart", "rustls-tls"] }
clap = "4"
tokio = { version = "1", features = ["full"] }
rand = "0.8"
chrono = "0.4"
dirs = "5"
rusqlite = { version = "0.31", features = ["bundled"] }
tabled = "0.16"
csv = "1"
is-terminal = "0.4"
shlex = "1"
syntect = { version = "5", default-features = false, features = ["default-fancy"] }
miette = "7"
thiserror = "1"
indexmap = "2"
secrecy = "0.10"
rpassword = "7"
postcard = { version = "1", features = ["alloc"] }
