[package]
name = "authkit"
version = "0.1.0"
edition = "2021"
publish = false

[dependencies]
jsonwebtoken = "9"
md-5 = "0.10"
actix-web = "4"
sea-orm = { version = "1", default-features = false, features = ["macros", "with-json", "with-uuid", "with-chrono"] }
sea-orm-migration = { version = "1", default-features = false }
chrono = "0.4"
uuid = { version = "1", features = ["v4", "serde"] }
serde = { version = "1", features = ["derive"] }
serde_json = "1"
dotenvy = "0.15"
futures = "0.3"
log = "0.4"
async-trait = "0.1"

[dev-dependencies]
base64 = "0.22"
