//! The injector's command line.

use vstd::prelude::*;

verus! {

/// Arguments
pub struct CliArgs {
    pub command: Option<CliCmd>,
}

/// Subcommands
pub enum CliCmd {
    /// Use the injector in CLI mode
    Cli {
        /// PID of target program
        target: u32,
        /// Absolute or relative path to the DLL
        dll_path: String,
    },
}

} // verus!
