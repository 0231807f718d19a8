[package]
name = "kevinbacon"
version = "0.1.0"
edition = "2021"
publish = false

[dependencies]
dashmap = "5"
rayon = "1"
rocket = { version = "0.5", features = ["json"] }
rocket_db_pools = { version = "*", features = ["sqlx_postgres"] }
rocket_okapi = { version = "*", features = ["swagger", "rapidoc"] }
serde = { version = "1", features = ["derive"] }
