[package]
name = "pacman_duel"
version = "0.1.0"
edition = "2021"
publish = false

[dependencies]
axum = "0.8"
bevy = { version = "0.19", default-features = false, features = ["bevy_color", "bevy_log", "bevy_state", "bevy_window", "keyboard", "std"] }
bevy_renet = { version = "5", features = ["netcode"] }
crossbeam-channel = "0.5"
jsonwebtoken = { version = "=10.4.0", default-features = false, features = ["rust_crypto"] }
postcard = { version = "=1.1.3", features = ["alloc"] }
rand = "=0.9.5"
renet = "2"
reqwest = { version = "0.12", default-features = false, features = ["json"] }
serde = { version = "=1.0.229", features = ["derive"] }
serde_json = "=1.0.154"
thiserror = "2"
tokio = { version = "1", features = ["macros", "net", "rt-multi-thread", "signal", "time"] }
tower-http = { version = "0.6", features = ["cors", "trace"] }
tracing = "0.1"
tracing-subscriber = { version = "0.3", features = ["env-filter"] }
