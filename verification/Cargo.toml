[package]
name = "rustytools"
version = "0.1.0"
edition = "2021"
publish = false

[dependencies]
ab_glyph = "=0.2.32"
chrono = { version = "=0.4.45", default-features = false, features = ["clock"] }
clap = { version = "=4.6.7", features = ["derive"] }
colored = "=2.2.0"
directories = "=6.0.0"
dns-lookup = "=2.1.1"
egui = "0.31"
egui_plot = "0.31"
gethostname = "=1.1.0"
hickory-resolver = { version = "=0.24.4", default-features = false, features = ["system-config", "tokio-runtime"] }
mac_oui = { version = "=0.4.11", features = ["with-db"] }
netdev = "=0.34.1"
pnet = { version = "=0.35.0", default-features = false, features = ["std"] }
rand = { version = "=0.8.8", default-features = false, features = ["getrandom", "std", "std_rng"] }
serde = { version = "=1.0.229", features = ["derive"] }
serde_json = "=1.0.154"
socket2 = { version = "=0.5.10", features = ["all"] }
surge-ping = "=0.8.4"
sysinfo = { version = "=0.32.1", default-features = false, features = ["network"] }
tokio = { version = "=1.54.1", features = ["macros", "net", "rt-multi-thread", "time"] }
