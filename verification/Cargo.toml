[package]
name = "gludconfig"
version = "0.1.0"
edition = "2021"
publish = false

[dependencies]
anyhow = "=1.0.104"
async-rusqlite = "=0.5.0"
async-trait = "=0.1.92"
bpaf = { version = "=0.9.28", features = ["derive"] }
byteorder = "=1.5.0"
clap = { version = "=4.6.7", features = ["derive"] }
darling = "0.20"
futures-util = "=0.3.34"
homedir = "=0.3.6"
proc-macro2 = "1"
quote = "1"
serde = { version = "=1.0.229", features = ["derive"] }
serde_json = "=1.0.154"
syn = { version = "2", features = ["full"] }
thiserror = "=1.0.69"
tokio = { version = "=1.54.1", features = ["rt", "rt-multi-thread", "macros"] }
zbus = "=3.15.2"
zvariant = "=3.15.2"
