//! Building blocks for inspecting and modifying other processes on Windows:
//! memory pointer chains, byte and signature scanning, process and module
//! lookups, and a DLL injection procedure.
//!
//! Every routine here is pure: the operating-system calls (opening handles,
//! reading and writing foreign memory, enumerating snapshots, spawning remote
//! threads) are performed by the caller, which hands the results to the
//! routines below and carries out the actions they return.

pub mod status;
pub mod text;
pub mod pattern;
pub mod memory;
pub mod process;
pub mod utils;
pub mod inject;
pub mod interface;
pub mod cli;

pub use inject::Injector;
pub use process::Process;
pub use status::RTStatus;
