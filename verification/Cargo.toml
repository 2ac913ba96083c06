[package]
name = "ldapfill"
version = "0.1.0"
edition = "2021"
publish = false

[dependencies]
anyhow = "1"
clap = { version = "4", features = ["derive"] }
csv = "1"
indicatif = "0.17"
ldap3 = { version = "0.11", default-features = false }
log = { version = "0.4", features = ["serde"] }
num_cpus = "1"
rand = "0.8"
rpassword = "7"
serde = { version = "1", features = ["derive"] }
thiserror = "1"
tokio = { version = "1", features = ["full"] }
tokio-stream = "0.1"
toml = "0.8"
