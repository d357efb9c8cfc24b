[package]
name = "osk_typer"
version = "0.1.0"
edition = "2021"
publish = false

[dependencies]
anyhow = "1"
windows = { version = "0.61", features = ["Win32_Foundation", "Win32_UI_WindowsAndMessaging", "Win32_System_LibraryLoader", "Win32_Graphics_Gdi", "Win32_UI_Input_KeyboardAndMouse", "Win32_System_Com", "Win32_UI_Accessibility", "Win32_System_DataExchange", "Win32_System_Memory", "Win32_System_Ole", "Win32_System_Variant"] }
