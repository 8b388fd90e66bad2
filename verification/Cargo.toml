[package]
name = "wasapi-loopback"
version = "0.1.0"
edition = "2021"
publish = false

[dependencies]
napi = { version = "3", features = ["napi4"] }
napi-derive = "3"
windows = { version = "0.61", features = ["Win32_Foundation", "Win32_Security", "Win32_Media_Audio", "Win32_Media_KernelStreaming", "Win32_Media_Multimedia", "Win32_Devices_FunctionDiscovery", "Win32_Devices_Properties", "Win32_UI_Shell_PropertiesSystem", "Win32_System_Com", "Win32_System_Com_StructuredStorage", "Win32_System_LibraryLoader", "Win32_System_Threading", "Win32_System_Variant", "Win32_System_Diagnostics_ToolHelp", "Win32_System_Performance"] }
windows-core = "0.61"
