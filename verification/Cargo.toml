[package]
name = "samey"
version = "0.1.0"
edition = "2021"
publish = false

[dependencies]
askama = "=0.14.0"
async-trait = "=0.1.92"
axum = { version = "=0.8.9", features = ["macros", "multipart"] }
axum-extra = { version = "=0.10.3", features = ["form"] }
axum-login = "=0.17.0"
chrono = "=0.4.45"
clap = { version = "=4.6.7", features = ["derive"] }
image = { version = "=0.25.10", default-features = false, features = ["gif", "jpeg", "png", "webp", "bmp"] }
itertools = "=0.14.0"
mime_guess = "=2.0.5"
password-auth = "=1.0.0"
pulldown-cmark = { version = "=0.13.5", default-features = false, features = ["html"] }
rand = "=0.9.5"
rss = { version = "=2.1.2", default-features = false, features = ["builders"] }
rust-embed = "=8.13.0"
sea-orm = { version = "=1.1.20", default-features = false, features = ["macros", "runtime-tokio", "sqlx-sqlite", "with-chrono", "with-json"] }
sea-orm-migration = { version = "=1.1.20", default-features = false, features = ["runtime-tokio", "sqlx-sqlite"] }
serde = { version = "=1.0.229", features = ["derive"] }
strum = { version = "=0.27.2", features = ["derive"] }
thiserror = "=2.0.21"
time = "=0.3.55"
tokio = { version = "=1.54.1", features = ["fs", "macros", "net", "rt-multi-thread", "sync"] }
tower-http = { version = "=0.6.11", features = ["fs"] }
tower-sessions = "=0.14.0"
