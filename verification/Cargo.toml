[package]
name = "xword_fetch"
version = "0.1.0"
edition = "2021"
publish = false

[dependencies]
time = { version = "0.3", features = ["macros", "parsing", "formatting"] }
clap = { version = "4", default-features = false, features = ["derive", "std", "help", "usage", "error-context"] }
reqwest = { version = "0.12", default-features = false }
tokio = { version = "1", default-features = false, features = ["macros", "rt", "time"] }
