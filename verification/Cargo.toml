[package]
name = "find_a_job"
version = "0.1.0"
edition = "2021"
publish = false

[dependencies]
chrono = "*"
colored = "*"
html-escape = "*"
log = "*"
pretty_env_logger = "*"
regex = "*"
ron = "*"
serde = { version = "*", features = ["derive"] }
thirtyfour = "*"
tiny_bail = "*"
tokio = { version = "*", features = ["macros", "rt-multi-thread", "time"] }
url = "*"
