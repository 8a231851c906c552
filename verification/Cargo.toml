[package]
name = "lisa"
version = "0.1.0"
edition = "2021"
publish = false

[dependencies]
rand = "0.8"
select = "0.5"
image = { version = "0.23", default-features = false, features = ["jpeg", "png"] }
serenity = { version = "0.10", features = ["collector"] }
tokio = { version = "1", features = ["macros", "rt-multi-thread"] }
reqwest = { version = "0.11", features = ["blocking"] }
crossterm = "0.27"
