[package]
name = "sonar_presence"
version = "0.1.0"
edition = "2021"
publish = false

[dependencies]
anyhow = "1"
chrono = "0.4"
cpal = "0.15"
crossbeam-channel = "0.5"
ctrlc = "3"
realfft = "3"
symphonia = { version = "0.5", features = ["aac", "isomp4", "mp3", "wav", "pcm"] }
windows = { version = "0.52", features = ["Win32_Foundation", "Win32_Media_Audio", "Win32_Media_KernelStreaming", "Win32_Media_Multimedia", "Win32_System_Com", "Win32_System_Com_StructuredStorage", "Win32_System_Variant"] }
