[package]
name = "chat_mirror"
version = "0.1.0"
edition = "2021"
publish = false

[dependencies]
pickledb = "=0.5.1"
teloxide = { version = "=0.9.2", features = ["macros", "auto-send"] }
tokio = { version = "=1.54.1", features = ["rt-multi-thread", "macros"] }
dptree = "=0.2.1"
dotenv = "=0.15.0"
log = "=0.4.34"
pretty_env_logger = "=0.4.0"
# Not used directly: teloxide-core asks for takecell 0.1, and 0.1.2 needs a
# newer compiler than the one this crate is built with.
takecell = "=0.1.1"
