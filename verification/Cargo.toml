[package]
name = "lexibot"
version = "0.1.0"
edition = "2021"
publish = false

[dependencies]
deepl = { version = "=0.8.2", default-features = false, features = ["rustls"] }
teloxide = { version = "=0.17.0", default-features = false, features = ["macros", "rustls", "ctrlc_handler"] }
takecell = "=0.1.1"
tokio = { version = "1", features = ["macros", "rt-multi-thread"] }
sqlx = { version = "=0.9.0", default-features = false, features = ["runtime-tokio", "postgres"] }
dotenv = "0.15"
log = "0.4"
pretty_env_logger = "0.5"
