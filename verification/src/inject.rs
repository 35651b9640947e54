//! DLL injection: the decisions of the injection procedure.
//!
//! Injecting a DLL takes a fixed sequence of operations on the target:
//! allocate a buffer, write the DLL path into it, run `LoadLibraryA` on it in
//! a remote thread (then free the buffer), and finally check that the module
//! shows up in the target's module list. An [`Injection`] says which of these
//! operations comes next and decides, from their outcomes, how the injection
//! ends; the caller performs the operations.

use vstd::prelude::*;
use vstd::slice::slice_to_vec;
use vstd::utf8::encode_utf8;
use crate::memory::{module_names_valid, module_table, ModuleEntry};
use crate::process::Process;
use crate::status::RTStatus;
use crate::utils::{path_leaf, resolve_file};

verus! {

/// Size in bytes of the buffer allocated in the target for the DLL path
/// (larger paths get a buffer of their own size).
pub const PATH_BUFFER_SIZE: usize = 260;

/// A DLL whose path was resolved, ready to be bound to a target.
pub struct InjectPlan {
    /// Full (canonical) path to the DLL
    dll_path: String,
    /// DLL file/module name
    dll_file: String,
}

impl InjectPlan {
    /// The full path of the DLL.
    pub closed spec fn spec_dll_path(&self) -> Seq<char> {
        self.dll_path@
    }

    /// The module name of the DLL.
    pub closed spec fn spec_dll_file(&self) -> Seq<char> {
        self.dll_file@
    }
}

/// The size of the buffer allocated in the target for a path payload of
/// `len` bytes: the usual path buffer, or more when the payload needs it.
pub open spec fn path_buffer_size(len: int) -> int {
    if len > PATH_BUFFER_SIZE { len } else { PATH_BUFFER_SIZE as int }
}

/// A DLL injector bound to a target process.
pub struct Injector {
    /// The target process object
    target: Process,
    /// Full path to the DLL
    dll_path: String,
    /// DLL file/module name
    dll_file: String,
}

impl Injector {
    /// The target process.
    pub closed spec fn spec_target(&self) -> Process {
        self.target
    }

    /// The full path of the DLL.
    pub closed spec fn spec_dll_path(&self) -> Seq<char> {
        self.dll_path@
    }

    /// The module name of the DLL.
    pub closed spec fn spec_dll_file(&self) -> Seq<char> {
        self.dll_file@
    }

    /// Resolves the DLL path before any target is touched: `canonical` is
    /// the canonical form of the path the user gave (`None` when it could not
    /// be canonicalized) and `is_file` tells whether it names a regular file.
    /// Fails with `InvalidFilePath` unless the path names a file; otherwise
    /// the plan holds the canonical path and its file name (the module name
    /// the DLL will have in the target).
    pub fn plan(canonical: Option<&str>, is_file: bool) -> (plan: Result<InjectPlan, RTStatus>)
        ensures
            if canonical is Some && is_file {
                plan matches Ok(p) && p.spec_dll_path() == canonical->Some_0@
                    && p.spec_dll_file() == path_leaf(canonical->Some_0@)
            } else {
                plan == Err::<InjectPlan, RTStatus>(RTStatus::InvalidFilePath)
            },
    {
        let dll_file = resolve_file(canonical, is_file)?;
        match canonical {
            Some(path) => Ok(InjectPlan { dll_path: path.to_owned(), dll_file }),
            None => Err(RTStatus::InvalidFilePath),
        }
    }

    /// Creates a new injector for the planned DLL and `target`, the process
    /// opened by id with the rights that injection needs. Fails with
    /// `InvalidProcess` when the target is not a valid process.
    pub fn new(plan: InjectPlan, target: Process) -> (injector: Result<Injector, RTStatus>)
        ensures
            match injector {
                Ok(inj) => {
                    &&& (target.pid != 0 || target.handle != 0)
                    &&& inj.spec_target() == target
                    &&& inj.spec_dll_path() == plan.spec_dll_path()
                    &&& inj.spec_dll_file() == plan.spec_dll_file()
                },
                Err(e) => !(target.pid != 0 || target.handle != 0) && e == RTStatus::InvalidProcess,
            },
    {
        if target.is_valid() {
            Ok(Injector { target, dll_path: plan.dll_path, dll_file: plan.dll_file })
        } else {
            Err(RTStatus::InvalidProcess)
        }
    }

    /// Creates a new injector for the planned DLL from an existing handle to
    /// the target (wrapped in `target` together with the id the system
    /// reports for it). The handle needs the rights that injection uses.
    /// Fails with `InvalidProcess` when the target is not a valid process.
    pub fn from_handle(plan: InjectPlan, target: Process) -> (injector: Result<Injector, RTStatus>)
        ensures
            match injector {
                Ok(inj) => {
                    &&& (target.pid != 0 || target.handle != 0)
                    &&& inj.spec_target() == target
                    &&& inj.spec_dll_path() == plan.spec_dll_path()
                    &&& inj.spec_dll_file() == plan.spec_dll_file()
                },
                Err(e) => !(target.pid != 0 || target.handle != 0) && e == RTStatus::InvalidProcess,
            },
    {
        Injector::new(plan, target)
    }

    /// The module name of the DLL.
    pub fn dll_file(&self) -> (file: &str)
        ensures
            file@ == self.spec_dll_file(),
    {
        self.dll_file.as_str()
    }

    /// The full path of the DLL.
    pub fn dll_path(&self) -> (path: &str)
        ensures
            path@ == self.spec_dll_path(),
    {
        self.dll_path.as_str()
    }

    /// Starts injecting the DLL into the target. The DLL path must not hold
    /// a NUL character (it is handed to the target as a C string).
    pub fn inject(&self) -> (run: Injection<'_>)
        requires
            !self.spec_dll_path().contains('\0'),
        ensures
            run.spec_injector() == *self,
            run.stage() == InjectStage::Start,
            run.spec_payload() == encode_utf8(self.spec_dll_path()).push(0),
    {
        let mut payload = slice_to_vec(self.dll_path.as_str().as_bytes());
        payload.push(0u8);
        Injection { injector: self, payload, stage: InjectStage::Start }
    }
}

/// How far an injection has come.
pub enum InjectStage {
    /// Nothing done yet.
    Start,
    /// The path buffer was allocated at this address in the target.
    Allocated(usize),
    /// The DLL path was written into the buffer at this address.
    Written(usize),
    /// The remote `LoadLibraryA` thread ran and the buffer was released.
    Loaded,
    /// The injection is over, with this outcome.
    Finished(Result<(), RTStatus>),
}

/// What the driver of an injection has to do next.
pub enum InjectAction {
    /// Allocate `size` bytes of committed read-write memory in the process
    /// behind `handle`, then report the address (0 on failure) to `allocated`.
    Allocate { handle: isize, size: usize },
    /// Write `payload` at `buffer` in the process behind `handle`, then
    /// report whether it succeeded to `written`.
    Write { handle: isize, buffer: usize, payload: Vec<u8> },
    /// In the process behind `handle`, run `LoadLibraryA` on `buffer` in a
    /// new thread, wait for it, release `buffer` and close the thread handle;
    /// then call `loaded`.
    Load { handle: isize, buffer: usize },
    /// List the modules of the process with id `pid` and hand the snapshot
    /// to `modules_listed`.
    ListModules { pid: u32 },
    /// The injection is over, with this outcome.
    Finished(Result<(), RTStatus>),
}

/// A running injection of an injector's DLL.
pub struct Injection<'a> {
    injector: &'a Injector,
    payload: Vec<u8>,
    stage: InjectStage,
}

/// How an injection ends, given whether the path buffer could be allocated,
/// whether the path could be written into it, and whether the DLL shows up
/// among the target's modules afterwards.
pub open spec fn inject_outcome(allocated: bool, written: bool, present: bool) -> Result<(), RTStatus> {
    if !allocated {
        Err(RTStatus::MemoryAllocError)
    } else if !written {
        Err(RTStatus::MemoryWriteError)
    } else if present {
        Ok(())
    } else {
        Err(RTStatus::InjectionFail)
    }
}

/// The stage after the path buffer allocation reports `buffer`.
pub open spec fn after_allocated(buffer: usize) -> InjectStage {
    if buffer == 0 {
        InjectStage::Finished(Err(RTStatus::MemoryAllocError))
    } else {
        InjectStage::Allocated(buffer)
    }
}

/// The stage after the path write into `buffer` reports `ok`.
pub open spec fn after_written(buffer: usize, ok: bool) -> InjectStage {
    if ok {
        InjectStage::Written(buffer)
    } else {
        InjectStage::Finished(Err(RTStatus::MemoryWriteError))
    }
}

/// The stage after the module check found the DLL (`present`) or not.
pub open spec fn after_modules_listed(present: bool) -> InjectStage {
    InjectStage::Finished(if present { Ok(()) } else { Err(RTStatus::InjectionFail) })
}

/// The stage an injection ends in when the allocation reports `buffer`, the
/// write (if it is reached) reports `written`, and the module check (if it
/// is reached) reports `present`.
pub open spec fn injection_end(buffer: usize, written: bool, present: bool) -> InjectStage {
    match after_allocated(buffer) {
        InjectStage::Allocated(b) => match after_written(b, written) {
            InjectStage::Written(_) => after_modules_listed(present),
            other => other,
        },
        other => other,
    }
}

/// An injection succeeds exactly when the path buffer is allocated, the
/// path is written into it, and the DLL then shows up among the target's
/// modules; otherwise it fails with the error of the first step that went
/// wrong (allocation, then write, then the module check).
pub proof fn lemma_injection_outcome(buffer: usize, written: bool, present: bool)
    ensures
        injection_end(buffer, written, present) == InjectStage::Finished(inject_outcome(buffer != 0, written, present)),
{
}

/// The buffer handed to the loader thread when the allocation reports
/// `buffer` and the path write reports `written`: `None` when the injection
/// ends before the loader step.
pub open spec fn loader_buffer(buffer: usize, written: bool) -> Option<usize> {
    match after_allocated(buffer) {
        InjectStage::Allocated(b) => match after_written(b, written) {
            InjectStage::Written(w) => Some(w),
            _ => None,
        },
        _ => None,
    }
}

/// The path is written into exactly the buffer that was allocated, and the
/// loader thread runs on exactly that buffer: the loader step is reached
/// precisely when the allocation gives a non-zero address and the write
/// succeeds, and then carries that same address.
pub proof fn lemma_injection_loads_written_buffer(buffer: usize, written: bool)
    ensures
        buffer != 0 ==> after_allocated(buffer) == InjectStage::Allocated(buffer),
        loader_buffer(buffer, written) == (if buffer != 0 && written { Some(buffer) } else { None }),
{
}

impl<'a> Injection<'a> {
    /// The injector whose DLL is injected.
    pub closed spec fn spec_injector(&self) -> Injector {
        *self.injector
    }

    /// The bytes written into the target: the DLL path as a C string.
    pub closed spec fn spec_payload(&self) -> Seq<u8> {
        self.payload@
    }

    /// How far the injection has come.
    pub closed spec fn stage(&self) -> InjectStage {
        self.stage
    }

    /// What the driver has to do next.
    pub fn action(&self) -> (next: InjectAction)
        ensures
            match self.stage() {
                InjectStage::Start => next == InjectAction::Allocate {
                    handle: self.spec_injector().spec_target().handle,
                    size: path_buffer_size(self.spec_payload().len() as int) as usize,
                } && path_buffer_size(self.spec_payload().len() as int) >= self.spec_payload().len(),
                InjectStage::Allocated(buffer) => next matches InjectAction::Write { handle, buffer: b, payload }
                    && handle == self.spec_injector().spec_target().handle && b == buffer
                    && payload@ == self.spec_payload(),
                InjectStage::Written(buffer) => next == InjectAction::Load {
                    handle: self.spec_injector().spec_target().handle,
                    buffer,
                },
                InjectStage::Loaded => next == InjectAction::ListModules { pid: self.spec_injector().spec_target().pid },
                InjectStage::Finished(outcome) => next == InjectAction::Finished(outcome),
            },
    {
        let handle = self.injector.target.handle;
        match self.stage {
            InjectStage::Start => {
                let len = self.payload.len();
                let size = if len > PATH_BUFFER_SIZE { len } else { PATH_BUFFER_SIZE };
                InjectAction::Allocate { handle, size }
            },
            InjectStage::Allocated(buffer) => InjectAction::Write { handle, buffer, payload: self.payload.clone() },
            InjectStage::Written(buffer) => InjectAction::Load { handle, buffer },
            InjectStage::Loaded => InjectAction::ListModules { pid: self.injector.target.pid },
            InjectStage::Finished(outcome) => InjectAction::Finished(outcome),
        }
    }

    /// Reports the address of the allocated path buffer (0 when the
    /// allocation failed).
    pub fn allocated(&mut self, buffer: usize)
        requires
            old(self).stage() == InjectStage::Start,
        ensures
            final(self).spec_injector() == old(self).spec_injector(),
            final(self).spec_payload() == old(self).spec_payload(),
            final(self).stage() == after_allocated(buffer),
    {
        if buffer == 0 {
            self.stage = InjectStage::Finished(Err(RTStatus::MemoryAllocError));
        } else {
            self.stage = InjectStage::Allocated(buffer);
        }
    }

    /// Reports whether the DLL path was written into the buffer.
    pub fn written(&mut self, ok: bool)
        requires
            old(self).stage() is Allocated,
        ensures
            final(self).spec_injector() == old(self).spec_injector(),
            final(self).spec_payload() == old(self).spec_payload(),
            final(self).stage() == after_written(old(self).stage()->Allocated_0, ok),
    {
        if let InjectStage::Allocated(buffer) = self.stage {
            if ok {
                self.stage = InjectStage::Written(buffer);
            } else {
                self.stage = InjectStage::Finished(Err(RTStatus::MemoryWriteError));
            }
        }
    }

    /// Reports that the remote loader thread has run and the buffer was
    /// released.
    pub fn loaded(&mut self)
        requires
            old(self).stage() is Written,
        ensures
            final(self).spec_injector() == old(self).spec_injector(),
            final(self).spec_payload() == old(self).spec_payload(),
            final(self).stage() == InjectStage::Loaded,
    {
        self.stage = InjectStage::Loaded;
    }

    /// Hands over the target's module snapshot (whose names must be valid
    /// UTF-8); the injection succeeds when the DLL's module name is among the
    /// modules.
    pub fn modules_listed(&mut self, modules: &[ModuleEntry])
        requires
            old(self).stage() == InjectStage::Loaded,
            module_names_valid(modules@),
        ensures
            final(self).spec_injector() == old(self).spec_injector(),
            final(self).spec_payload() == old(self).spec_payload(),
            final(self).stage() == after_modules_listed(
                module_table(modules@).dom().contains(old(self).spec_injector().spec_dll_file()),
            ),
    {
        if self.injector.target.query_module(modules, self.injector.dll_file.as_str()) {
            self.stage = InjectStage::Finished(Ok(()));
        } else {
            self.stage = InjectStage::Finished(Err(RTStatus::InjectionFail));
        }
    }
}

} // verus!
