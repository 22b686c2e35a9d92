[package]
name = "question_scraper"
version = "0.1.0"
edition = "2021"
publish = false

[dependencies]
actix-files = "0.6"
actix-rt = "2"
actix-web = "4"
chrono = "0.4"
cron = "*"
deadpool-postgres = "*"
dotenv = "0.15"
rand = "0.8"
regex = "1"
reqwest = "0.11"
select = "*"
serde = { version = "1", features = ["derive"] }
slog = "2"
slog-async = "2"
slog-term = "2"
tokio-pg-mapper = "*"
tokio-pg-mapper-derive = "*"
tokio-postgres = "0.7"
validator = { version = "*", features = ["derive"] }
