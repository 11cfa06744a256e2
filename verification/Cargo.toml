[package]
name = "kaduox-ssh"
version = "0.1.0"
edition = "2021"
publish = false

[dependencies]
anyhow = "*"
hmac = "*"
russh = "*"
russh-config = "*"
russh-sftp = "*"
sha1 = "*"
tokio = { version = "*", features = ["full"] }
