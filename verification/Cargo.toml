[package]
name = "gutenair"
version = "0.1.0"
edition = "2021"
publish = false

[dependencies]
regex = "1"
serde_json = "1"
zip = { version = "*", default-features = false, features = ["deflate"] }
reqwest = { version = "*", default-features = false, features = ["blocking", "json"] }
gtk4 = "*"
libadwaita = "*"
sourceview5 = "*"
webkit6 = "*"
