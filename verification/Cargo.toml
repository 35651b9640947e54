[package]
name = "rev_toolkit"
version = "0.1.0"
edition = "2021"
publish = false

[dependencies]
windows-sys = { version = "0.52", features = ["Win32_Foundation", "Win32_Security", "Win32_System_Console", "Win32_System_Diagnostics_Debug", "Win32_System_Diagnostics_ToolHelp", "Win32_System_LibraryLoader", "Win32_System_Memory", "Win32_System_Threading", "Win32_UI_Input_KeyboardAndMouse"] }
winapi = { version = "0.3", features = ["processthreadsapi", "memoryapi", "handleapi", "minwindef", "ntdef", "winnt"] }
clap = { version = "4", features = ["derive"] }
