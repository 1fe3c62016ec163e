[package]
name = "minilisp"
version = "0.1.0"
edition = "2021"
publish = false

[dependencies]
log = "*"
pretty_env_logger = "*"
takecell = "=0.1.1"
teloxide = "*"
tokio = { version = "*", features = ["macros", "rt-multi-thread"] }
