[package]
name = "vatsim-live-transcriber"
version = "0.1.0"
edition = "2021"
publish = false

[dependencies]
anyhow = "1"
base64 = "0.22"
chrono = "0.4"
clap = { version = "4", features = ["derive"] }
eframe = { version = "*", default-features = false, features = ["glow", "default_fonts"] }
futures-util = { version = "0.3", default-features = false, features = ["sink", "std"] }
serde_json = "1"
tokio = { version = "1", features = ["rt-multi-thread", "macros", "sync", "time"] }
tokio-tungstenite = { version = "*", features = ["rustls-tls-webpki-roots"] }
windows = { version = "*", features = ["Win32_Media_Audio", "Win32_Media_KernelStreaming", "Win32_Media_Multimedia", "Win32_System_Com", "Win32_System_Com_StructuredStorage", "Win32_Devices_FunctionDiscovery", "Win32_Foundation", "Win32_UI_Shell_PropertiesSystem", "Win32_System_Variant"] }
