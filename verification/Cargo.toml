[package]
name = "xindeler_sim_bridge"
version = "0.1.0"
edition = "2021"
publish = false

[dependencies]
bevy = { version = "=0.19.1", default-features = false, features = ["bevy_asset", "bevy_state"] }
bevy_replicon = { version = "=0.42.3", default-features = false, features = ["client", "server"] }
hashbrown = "=0.17.1"
rand = "=0.10.3"
rand_chacha = "=0.10.0"
specs = { version = "=0.20.0", default-features = false }
tokio = { version = "=1.54.1", default-features = false, features = ["rt-multi-thread", "time"] }
tracing = "=0.1.44"
vek = { version = "=0.17.2", default-features = false, features = ["std"] }
