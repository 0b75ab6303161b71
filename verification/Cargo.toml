[package]
name = "git_emails"
version = "0.1.0"
edition = "2021"
publish = false

[dependencies]
anyhow = "*"
dialoguer = "*"
git2 = "*"
toml = "*"
