[package]
name = "camden"
version = "0.1.0"
edition = "2021"
publish = false

[dependencies]
rstar = "*"
regex = "*"
chrono = "*"
serde = { version = "*", features = ["derive"] }
serde_json = "*"
reqwest = { version = "*", default-features = false, features = ["json", "rustls-tls"] }
tokio = { version = "*", features = ["macros", "rt-multi-thread", "time", "sync"] }
mongodb = "*"
log = "*"
simplelog = "*"
uuid = { version = "*", features = ["v4"] }
csv = "*"
zip = { version = "*", default-features = false, features = ["deflate"] }
geojson = "*"
bcrypt = "*"
