//! The state behind the injector's window: the target the user typed, the
//! DLL they picked, and the status line.

use vstd::prelude::*;
use vstd::string::*;
use crate::status::{inject_error_text, InjectError};

verus! {

/// The status line shown after an injection attempt with this outcome.
pub open spec fn status_line(outcome: Result<(), InjectError>) -> Seq<char> {
    match outcome {
        Ok(()) => "OK: Successfully injected"@,
        Err(e) => "ERR: "@ + inject_error_text(e),
    }
}

/// The injector window's state.
pub struct Interface {
    target: String,
    dll_path: String,
    status: String,
}

impl Interface {
    /// The target as typed.
    pub closed spec fn spec_target(&self) -> Seq<char> {
        self.target@
    }

    /// The DLL path picked, `"None"` before any.
    pub closed spec fn spec_dll_path(&self) -> Seq<char> {
        self.dll_path@
    }

    /// The last status line.
    pub closed spec fn spec_status(&self) -> Seq<char> {
        self.status@
    }

    /// A fresh window state: no target, no DLL picked, no status.
    pub fn new() -> (ui: Interface)
        ensures
            ui.spec_target() == Seq::<char>::empty(),
            ui.spec_dll_path() == "None"@,
            ui.spec_status() == Seq::<char>::empty(),
    {
        Interface { target: String::new(), dll_path: String::from_str("None"), status: String::new() }
    }

    /// The user edited the target field.
    pub fn set_target(&mut self, target: &str)
        ensures
            final(self).spec_target() == target@,
            final(self).spec_dll_path() == old(self).spec_dll_path(),
            final(self).spec_status() == old(self).spec_status(),
    {
        self.target = target.to_owned();
    }

    /// The user picked a DLL file.
    pub fn select_dll(&mut self, path: &str)
        ensures
            final(self).spec_dll_path() == path@,
            final(self).spec_target() == old(self).spec_target(),
            final(self).spec_status() == old(self).spec_status(),
    {
        self.dll_path = path.to_owned();
    }

    /// Records the outcome of an injection attempt in the status line.
    pub fn record_result(&mut self, outcome: Result<(), InjectError>)
        ensures
            final(self).spec_status() == status_line(outcome),
            final(self).spec_target() == old(self).spec_target(),
            final(self).spec_dll_path() == old(self).spec_dll_path(),
    {
        match outcome {
            Ok(()) => {
                self.status = String::from_str("OK: Successfully injected");
            },
            Err(e) => {
                let mut line = String::from_str("ERR: ");
                line.append(e.message());
                self.status = line;
            },
        }
    }

    /// The target as typed.
    pub fn target(&self) -> (target: &str)
        ensures
            target@ == self.spec_target(),
    {
        self.target.as_str()
    }

    /// The DLL path picked.
    pub fn dll_path(&self) -> (path: &str)
        ensures
            path@ == self.spec_dll_path(),
    {
        self.dll_path.as_str()
    }

    /// The last status line.
    pub fn status(&self) -> (status: &str)
        ensures
            status@ == self.spec_status(),
    {
        self.status.as_str()
    }
}

} // verus!
