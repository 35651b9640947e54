//! A process as the toolkit sees it: its id and an open handle.

use vstd::prelude::*;
use crate::memory::{
    lemma_module_table_last_wins, map_modules, module_name, module_names_valid, module_table, ModuleEntry,
};

verus! {

/// An object representing a process.
pub struct Process {
    /// Process ID
    pub pid: u32,
    /// Process handle
    pub handle: isize,
}

/// What `query_module` answers for a module snapshot and a name.
pub open spec fn module_present(modules: Seq<ModuleEntry>, module: Seq<char>) -> bool {
    module_table(modules).dom().contains(module)
}

/// What `query_module_addr` answers for a module snapshot and a name.
pub open spec fn module_base(modules: Seq<ModuleEntry>, module: Seq<char>) -> Option<usize> {
    if module_table(modules).dom().contains(module) {
        Some(module_table(modules)[module])
    } else {
        None
    }
}

impl Process {
    /// Checks if we have a valid process: a non-zero id or a non-zero handle.
    pub fn is_valid(&self) -> (valid: bool)
        ensures
            valid == (self.pid != 0 || self.handle != 0),
    {
        self.pid != 0 || self.handle != 0
    }

    /// Query the module list, returns `true` if the module exists.
    /// `modules` is the module snapshot of this process.
    pub fn query_module(&self, modules: &[ModuleEntry], module: &str) -> (present: bool)
        requires
            module_names_valid(modules@),
        ensures
            present == module_present(modules@, module@),
    {
        map_modules(modules).contains_key(module)
    }

    /// Query the base address of a module in the module list.
    /// `modules` is the module snapshot of this process.
    pub fn query_module_addr(&self, modules: &[ModuleEntry], module: &str) -> (base: Option<usize>)
        requires
            module_names_valid(modules@),
        ensures
            base == module_base(modules@, module@),
    {
        map_modules(modules).get(module)
    }
}

/// `query_module` answers `true` exactly when `query_module_addr` answers
/// with an address, and that address is the base of the last module in the
/// snapshot with the queried name; `false` exactly when no module has it.
pub proof fn lemma_query_module_agrees_with_addr(modules: Seq<ModuleEntry>, module: Seq<char>)
    ensures
        module_present(modules, module) <==> module_base(modules, module) is Some,
        module_present(modules, module) <==> exists|i: int|
            0 <= i < modules.len() && #[trigger] module_name(modules[i]) == module,
        forall|i: int|
            0 <= i < modules.len() && #[trigger] module_name(modules[i]) == module
                && (forall|j: int| i < j < modules.len() ==> module_name(modules[j]) != module)
                ==> module_base(modules, module) == Some(modules[i].base),
{
    lemma_module_table_last_wins(modules, module);
}

} // verus!
