[package]
name = "darkicewolf50_cloud"
version = "0.1.0"
edition = "2021"
publish = false

[dependencies]
actix-web = "4"
actix-files = "0.6"
actix-cors = "0.7"
comrak = { version = "*", default-features = false }
serde = { version = "1", features = ["derive"] }
serde_json = "1"
serde_yaml_bw = "*"
time = { version = "0.3", features = ["formatting"] }
utoipa = "*"
