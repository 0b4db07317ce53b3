[package]
name = "test_ssh"
version = "0.1.0"
edition = "2021"
publish = false

[dependencies]
libc = "0.2"
libssh2-sys = "0.3"
ssh2 = "0.9"
ssh = "0.1"
thrussh = "0.33"
thrussh-keys = "0.21"
futures = "0.3"
tokio = { version = "1", features = ["rt-multi-thread"] }
anyhow = "1"
env_logger = "0.9"
log = "0.4"
dirs = "4"
