[package]
name = "scroll_collect"
version = "0.1.0"
edition = "2021"
publish = false

[dependencies]
dotenv = "*"
rusqlite = { version = "*", features = ["bundled"] }
thirtyfour = "*"
tokio = { version = "*", features = ["rt-multi-thread", "macros", "time"] }
