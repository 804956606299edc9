[package]
name = "wagmi_alerts"
version = "0.1.0"
edition = "2021"
publish = false

[dependencies]
anyhow = "=1.0.104"
base64 = "=0.22.1"
chrono = "=0.4.45"
cron_clock = "=0.8.0"
dotenv = "=0.15.0"
futures = "=0.3.34"
lazy_static = "=1.5.1"
log = "=0.4.34"
once_cell = "=1.21.4"
rand = "=0.8.8"
reqwest = { version = "=0.12.28", default-features = false, features = ["json", "rustls-tls"] }
serde = { version = "=1.0.229", features = ["derive"] }
serde_json = "=1.0.151"
sqlx = { version = "=0.8.6", default-features = false, features = ["runtime-tokio", "postgres"] }
# Not called by this crate: pins a transitive dependency of teloxide to
# the last release this toolchain's rustc accepts.
takecell = "=0.1.1"
teloxide = { version = "=0.13.0", default-features = false, features = ["macros", "rustls"] }
tokio = { version = "=1.53.2", features = ["macros", "rt-multi-thread", "time"] }
tokio-cron-scheduler = "=0.15.1"
