[package]
name = "computer_use"
version = "0.1.0"
edition = "2021"
publish = false

[dependencies]
base64 = "*"
memfd = "*"
rmcp = { version = "*", features = ["server", "macros", "transport-io"] }
schemars = "*"
serde = { version = "*", features = ["derive"] }
serde_json = "*"
tokio = { version = "*", features = ["full"] }
uuid = { version = "*", features = ["v4"] }
wayland-client = "*"
wayland-protocols-misc = { version = "*", features = ["client"] }
wayland-protocols-wlr = { version = "*", features = ["client"] }
xkbcommon = "*"
