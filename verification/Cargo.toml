[package]
name = "karma"
version = "0.1.0"
edition = "2021"
publish = false

[dependencies]
sled = "=0.34.7"
chrono = "=0.4.45"
base64 = "=0.13.1"
anyhow = "=1.0.104"
thiserror = "=1.0.69"
log = "=0.4.34"
pretty_env_logger = "=0.5.0"
teloxide = { version = "=0.12.2", default-features = false, features = ["macros", "ctrlc_handler", "rustls"] }
dptree = "=0.3.0"
tokio = { version = "=1.53.2", features = ["macros", "rt-multi-thread", "fs"] }
plotters = { version = "=0.3.7", default-features = false, features = ["bitmap_backend", "bitmap_encoder", "line_series"] }
# Not used directly: pins a transitive dependency of teloxide to the last
# version that builds with this toolchain.
takecell = "=0.1.1"
