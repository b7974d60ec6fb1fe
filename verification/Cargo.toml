[package]
name = "tstzrange"
version = "0.1.0"
edition = "2021"
publish = false

[dependencies]
chrono = { version = "0.4", features = ["serde"] }
sea-orm = { version = "1.1", default-features = false, features = ["sqlx-postgres", "with-chrono"] }
serde = { version = "1", features = ["derive"] }
sqlx = { version = "0.8", default-features = false, features = ["postgres", "chrono"] }

[dev-dependencies]
serde_json = "1"
