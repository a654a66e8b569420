[package]
name = "meshy"
version = "0.1.0"
edition = "2021"
publish = false

[dependencies]
bluer = { version = "=0.17.4", features = ["bluetoothd"] }
# Not used directly: builds libdbus from the sources that libdbus-sys ships,
# so that bluer (through dbus) builds without the system libdbus development files.
dbus = { version = "=0.9.12", features = ["vendored"] }
tokio = { version = "=1.54.1", features = ["full"] }
futures = "=0.3.34"
ratatui = "=0.29.0"
crossterm = "=0.28.1"
tracing = "=0.1.44"
tracing-subscriber = "=0.3.23"
