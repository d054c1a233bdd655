[package]
name = "webrtc_unreliable_core"
version = "0.1.0"
edition = "2021"
publish = false

[dependencies]
flume = "*"
rand = "*"
async-io = "*"
futures-util = "*"
socket2 = "*"
openssl = "*"
atone = "*"
hashbrown = "*"

[dev-dependencies]
serde_json = "*"
