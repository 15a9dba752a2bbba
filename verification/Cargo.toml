[package]
name = "jsite"
version = "0.1.0"
edition = "2021"
publish = false

[dependencies]
axum = "0.6"
tokio = { version = "1", features = ["macros", "rt-multi-thread", "fs"] }
tower = { version = "0.4", features = ["util", "timeout", "load-shed", "limit"] }
tera = { version = "1", default-features = false }
pulldown-cmark = { version = "0.9", default-features = false }
structopt = "0.3"
serde = { version = "1", features = ["derive"] }
