[package]
name = "git_releasenotes"
version = "0.1.0"
edition = "2021"
publish = false

[dependencies]
regex = "=1.13.1"
anyhow = "=1.0.104"
arboard = "=3.7.0"
clap = { version = "=4.6.7", features = ["derive"] }
dotenv = "=0.15.0"
gix = "=0.90.0"
octocrab = "=0.47.1"
tokio = { version = "=1.54.1", features = ["macros", "rt-multi-thread"] }
