//! Status codes reported by the toolkit and by the injector front end.

use vstd::prelude::*;

verus! {

/// Failure reasons reported by the toolkit.
#[derive(Clone, Copy, PartialEq, Eq, Structural)]
pub enum RTStatus {
    InvalidProcess,
    MemoryAllocError,
    MemoryWriteError,
    SpawnThreadError,
    InvalidFilePath,
    InjectionFail,
}

/// The human-readable text of a toolkit status.
pub open spec fn rt_status_text(status: RTStatus) -> Seq<char> {
    match status {
        RTStatus::InvalidProcess => "Invalid process specified"@,
        RTStatus::MemoryAllocError => "Failed to allocate memory on target"@,
        RTStatus::MemoryWriteError => "Failed to write to memory on target"@,
        RTStatus::SpawnThreadError => "Failed to spawn remote thread on target"@,
        RTStatus::InvalidFilePath => "Invalid file path was provided"@,
        RTStatus::InjectionFail => "Injection failed. Could not verify the presence of DLL."@,
    }
}

impl RTStatus {
    /// The message shown to users for this status (also its debug rendering).
    pub fn message(&self) -> (text: &'static str)
        ensures
            text@ == rt_status_text(*self),
    {
        match self {
            RTStatus::InvalidProcess => "Invalid process specified",
            RTStatus::MemoryAllocError => "Failed to allocate memory on target",
            RTStatus::MemoryWriteError => "Failed to write to memory on target",
            RTStatus::SpawnThreadError => "Failed to spawn remote thread on target",
            RTStatus::InvalidFilePath => "Invalid file path was provided",
            RTStatus::InjectionFail => "Injection failed. Could not verify the presence of DLL.",
        }
    }
}

/// Failure reasons reported by the injector front end.
#[derive(Debug, Clone, Copy, PartialEq, Eq, Structural)]
pub enum InjectError {
    InvalidProcess,
    MemoryAllocError,
    MemoryWriteError,
    SpawnThreadError,
    InvalidDLLPath,
    InjectionFail,
}

/// The human-readable text of an injector error.
pub open spec fn inject_error_text(error: InjectError) -> Seq<char> {
    match error {
        InjectError::InvalidProcess => "Invalid process specified"@,
        InjectError::MemoryAllocError => "Failed to allocate memory on target"@,
        InjectError::MemoryWriteError => "Failed to write to memory on target"@,
        InjectError::SpawnThreadError => "Failed to spawn remote thread on target"@,
        InjectError::InvalidDLLPath => "Invalid DLL path was provided"@,
        InjectError::InjectionFail => "Injection failed. Could not verify the presence of DLL."@,
    }
}

impl InjectError {
    /// The message shown to users for this error.
    pub fn message(&self) -> (text: &'static str)
        ensures
            text@ == inject_error_text(*self),
    {
        match self {
            InjectError::InvalidProcess => "Invalid process specified",
            InjectError::MemoryAllocError => "Failed to allocate memory on target",
            InjectError::MemoryWriteError => "Failed to write to memory on target",
            InjectError::SpawnThreadError => "Failed to spawn remote thread on target",
            InjectError::InvalidDLLPath => "Invalid DLL path was provided",
            InjectError::InjectionFail => "Injection failed. Could not verify the presence of DLL.",
        }
    }
}

/// Different toolkit statuses have different messages, so a message names
/// its status.
pub proof fn lemma_rt_status_texts_distinct(a: RTStatus, b: RTStatus)
    ensures
        rt_status_text(a) == rt_status_text(b) ==> a == b,
{
    reveal_strlit("Invalid process specified");
    reveal_strlit("Failed to allocate memory on target");
    reveal_strlit("Failed to write to memory on target");
    reveal_strlit("Failed to spawn remote thread on target");
    reveal_strlit("Invalid file path was provided");
    reveal_strlit("Injection failed. Could not verify the presence of DLL.");
    if rt_status_text(a) == rt_status_text(b) && a != b {
        let ta = rt_status_text(a);
        let tb = rt_status_text(b);
        assert(ta.len() == tb.len());
        assert(ta[10] == tb[10]);
        assert(ta[2] == tb[2]);
        assert(false);
    }
}

/// Different injector errors have different messages, so a message names
/// its error.
pub proof fn lemma_inject_error_texts_distinct(a: InjectError, b: InjectError)
    ensures
        inject_error_text(a) == inject_error_text(b) ==> a == b,
{
    reveal_strlit("Invalid process specified");
    reveal_strlit("Failed to allocate memory on target");
    reveal_strlit("Failed to write to memory on target");
    reveal_strlit("Failed to spawn remote thread on target");
    reveal_strlit("Invalid DLL path was provided");
    reveal_strlit("Injection failed. Could not verify the presence of DLL.");
    if inject_error_text(a) == inject_error_text(b) && a != b {
        let ta = inject_error_text(a);
        let tb = inject_error_text(b);
        assert(ta.len() == tb.len());
        assert(ta[10] == tb[10]);
        assert(ta[2] == tb[2]);
        assert(false);
    }
}

} // verus!
