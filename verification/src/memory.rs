//! Memory routines: following pointer chains, reading NUL-terminated
//! strings, and looking up processes and modules in snapshots.
//!
//! Reads of a foreign process's memory are carried out by the caller; the
//! walkers here decide which address to read next and what the reads mean.

use vstd::prelude::*;
use vstd::slice::slice_to_vec;
use crate::text::{contains_seq, lemma_trim_nul_occurs_in, str_contains, trim_nul, trim_nul_str};
use vstd::utf8::{valid_utf8, decode_utf8, encode_utf8, decode_utf8_encode_utf8};

verus! {

/// What the driver of a pointer-chain walk has to do next.
pub enum ChainAction {
    /// Read a pointer-sized value at this address and pass it to `advance`.
    Read(usize),
    /// The walk is over: the final address, or `None` when a read failed.
    Done(Option<usize>),
}

/// The abstract state of a pointer-chain walk: the address reached so far,
/// the offsets still to apply, and whether a read has failed.
pub struct ChainState {
    pub addr: int,
    pub rest: Seq<usize>,
    pub failed: bool,
}

/// The walk behind `follow_chain`: starting from a base address, for each
/// offset but the last it reads the pointer stored at `current + offset` and
/// makes that value the current address; the result is the current address
/// plus the last offset (the base itself when there are no offsets).
pub struct ChainWalker {
    offsets: Vec<usize>,
    index: usize,
    addr: usize,
    failed: bool,
}

impl View for ChainWalker {
    type V = ChainState;

    closed spec fn view(&self) -> ChainState {
        ChainState { addr: self.addr as int, rest: self.offsets@.skip(self.index as int), failed: self.failed }
    }
}

/// The next action of a walk in state `s`.
pub open spec fn chain_action(s: ChainState) -> ChainAction {
    if s.failed {
        ChainAction::Done(None)
    } else if s.rest.len() == 0 {
        ChainAction::Done(Some(s.addr as usize))
    } else if s.rest.len() == 1 {
        ChainAction::Done(Some((s.addr + s.rest[0]) as usize))
    } else {
        ChainAction::Read((s.addr + s.rest[0]) as usize)
    }
}

/// The next address a walk in state `s` computes (to read at, or as its
/// result) is representable.
pub open spec fn chain_ready(s: ChainState) -> bool {
    s.failed || s.rest.len() == 0 || s.addr + s.rest[0] <= usize::MAX
}

/// The state of a walk in state `s` after the value read at its current
/// address (or the failure to read one) is handed to it.
pub open spec fn chain_advance(s: ChainState, value: Option<usize>) -> ChainState {
    match value {
        Some(v) => ChainState { addr: v as int, rest: s.rest.drop_first(), failed: false },
        None => ChainState { failed: true, ..s },
    }
}

impl ChainWalker {
    #[verifier::type_invariant]
    spec fn index_in_range(&self) -> bool {
        self.index <= self.offsets.len()
    }

    /// Starts a walk from `base` through `offsets`.
    pub fn new(base: usize, offsets: &[usize]) -> (walker: ChainWalker)
        ensures
            walker@ == (ChainState { addr: base as int, rest: offsets@, failed: false }),
    {
        let offsets = slice_to_vec(offsets);
        assert(offsets@.skip(0) =~= offsets@);
        ChainWalker { offsets, index: 0, addr: base, failed: false }
    }

    /// Whether the next read address is representable (the walk would
    /// overflow the address computation otherwise).
    pub fn ready(&self) -> (b: bool)
        ensures
            b == chain_ready(self@),
    {
        proof { use_type_invariant(self); }
        self.failed || self.index >= self.offsets.len() || self.addr <= usize::MAX - self.offsets[self.index]
    }

    /// What the driver has to do next.
    pub fn action(&self) -> (next: ChainAction)
        requires
            chain_ready(self@),
        ensures
            next == chain_action(self@),
    {
        proof { use_type_invariant(self); }
        if self.failed {
            ChainAction::Done(None)
        } else if self.index >= self.offsets.len() {
            ChainAction::Done(Some(self.addr))
        } else if self.offsets.len() - self.index == 1 {
            ChainAction::Done(Some(self.addr + self.offsets[self.index]))
        } else {
            ChainAction::Read(self.addr + self.offsets[self.index])
        }
    }

    /// Hands over the value read at the current address, or `None` when it
    /// could not be read.
    pub fn advance(&mut self, value: Option<usize>)
        requires
            !old(self)@.failed,
            old(self)@.rest.len() > 1,
        ensures
            final(self)@ == chain_advance(old(self)@, value),
    {
        proof { use_type_invariant(&*self); }
        match value {
            Some(v) => {
                proof {
                    assert(self.offsets@.skip(self.index + 1) =~= self.offsets@.skip(self.index as int).drop_first());
                }
                self.addr = v;
                self.index = self.index + 1;
            },
            None => {
                self.failed = true;
            },
        }
    }
}

/// The address reached by following `offsets` from `addr` in the memory
/// snapshot `mem` (a read at address `a` gives `mem(a)`): for each offset
/// but the last, the pointer at `current + offset` becomes the current
/// address; the last offset is added without reading. `None` when one of
/// the reads fails.
pub open spec fn chain_target(mem: spec_fn(int) -> Option<usize>, addr: int, offsets: Seq<usize>) -> Option<int>
    decreases offsets.len(),
{
    if offsets.len() == 0 {
        Some(addr)
    } else if offsets.len() == 1 {
        Some(addr + offsets[0])
    } else {
        match mem(addr + offsets[0]) {
            Some(v) => chain_target(mem, v as int, offsets.drop_first()),
            None => None,
        }
    }
}

/// No address computed while following `offsets` from `addr` in `mem`
/// overflows.
pub open spec fn chain_fits(mem: spec_fn(int) -> Option<usize>, addr: int, offsets: Seq<usize>) -> bool
    decreases offsets.len(),
{
    offsets.len() == 0 || (addr + offsets[0] <= usize::MAX && (offsets.len() == 1 || match mem(addr + offsets[0]) {
        Some(v) => chain_fits(mem, v as int, offsets.drop_first()),
        None => true,
    }))
}

/// Drives a walk in state `s` for at most `fuel` reads, following the
/// actions it issues: each `Read(a)` is answered with `mem(a)`. `Some(r)`
/// when the walk announced `Done(r)`, `None` when the fuel ran out first.
pub open spec fn chain_drive(s: ChainState, mem: spec_fn(int) -> Option<usize>, fuel: nat) -> Option<Option<usize>>
    decreases fuel,
{
    match chain_action(s) {
        ChainAction::Done(r) => Some(r),
        ChainAction::Read(a) => if fuel == 0 {
            None
        } else {
            chain_drive(chain_advance(s, mem(a as int)), mem, (fuel - 1) as nat)
        },
    }
}

/// The outcome of driving a walk in state `s` to its end (at most one read
/// per remaining offset) when every read at address `a` is answered with
/// `mem(a)`.
pub open spec fn chain_run(s: ChainState, mem: spec_fn(int) -> Option<usize>) -> Option<usize> {
    match chain_drive(s, mem, s.rest.len()) {
        Some(r) => r,
        None => None,
    }
}

proof fn lemma_chain_drive_from(mem: spec_fn(int) -> Option<usize>, addr: usize, offsets: Seq<usize>, fuel: nat)
    requires
        chain_fits(mem, addr as int, offsets),
        fuel >= offsets.len(),
    ensures
        chain_drive(ChainState { addr: addr as int, rest: offsets, failed: false }, mem, fuel)
            == Some(match chain_target(mem, addr as int, offsets) {
                Some(a) => Some(a as usize),
                None => None,
            }),
        chain_target(mem, addr as int, offsets) matches Some(a) ==> a == a as usize,
    decreases offsets.len(),
{
    let s = ChainState { addr: addr as int, rest: offsets, failed: false };
    if offsets.len() == 1 {
        assert((addr + offsets[0]) as usize as int == addr + offsets[0]);
    } else if offsets.len() > 1 {
        let a = addr + offsets[0];
        assert(a as usize as int == a);
        match mem(a) {
            Some(v) => {
                let next = chain_advance(s, Some(v));
                assert(next == ChainState { addr: v as int, rest: offsets.drop_first(), failed: false });
                lemma_chain_drive_from(mem, v, offsets.drop_first(), (fuel - 1) as nat);
            },
            None => {
                let next = chain_advance(s, None);
                assert(chain_drive(next, mem, (fuel - 1) as nat) == Some(None::<usize>));
            },
        }
    }
}

/// Driving the walk that `follow_chain` performs, answering each read it
/// issues from a memory snapshot `mem` (a read at address `a` gives
/// `mem(a)`), ends within one read per offset, with exactly the address
/// reached by following the chain (the pointers at `current + offset` for
/// every offset but the last, then the last offset added), or with nothing
/// when one of those reads fails; this holds as long as no address
/// computation along the chain overflows.
pub proof fn lemma_chain_walk_follows_memory(mem: spec_fn(int) -> Option<usize>, base: usize, offsets: Seq<usize>)
    requires
        chain_fits(mem, base as int, offsets),
    ensures
        chain_drive(ChainState { addr: base as int, rest: offsets, failed: false }, mem, offsets.len())
            == Some(chain_run(ChainState { addr: base as int, rest: offsets, failed: false }, mem)),
        chain_run(ChainState { addr: base as int, rest: offsets, failed: false }, mem)
            == (match chain_target(mem, base as int, offsets) {
                Some(a) => Some(a as usize),
                None => None,
            }),
        chain_target(mem, base as int, offsets) matches Some(a) ==> a == a as usize,
{
    lemma_chain_drive_from(mem, base, offsets, offsets.len());
}

/// `String::from_utf8`: the bytes decoded as UTF-8, or `None` when they are
/// not valid UTF-8. Claimed of std: it succeeds exactly on valid UTF-8 and
/// the string then holds the characters that the bytes encode.
#[verifier::external_body]
fn string_from_utf8(bytes: &[u8]) -> (text: Option<String>)
    ensures
        text is Some <==> valid_utf8(bytes@),
        text matches Some(s) ==> s@ == decode_utf8(bytes@),
{
    String::from_utf8(bytes.to_vec()).ok()
}

/// What the driver of a string read has to do next.
pub enum StrAction {
    /// Read one byte at this address and pass it to `feed`.
    Read(u64),
    /// The terminating NUL byte has been read.
    Done,
}

/// The abstract state of a string read: the start address, the non-NUL
/// bytes read so far, and whether the terminator has been seen.
pub struct CStrState {
    pub start: int,
    pub bytes: Seq<u8>,
    pub done: bool,
}

/// The read behind `read_mem_str`: starting at an address it reads one byte
/// at a time until a NUL byte, collecting the bytes before it.
pub struct CStrReader {
    start: u64,
    bytes: Vec<u8>,
    done: bool,
}

impl View for CStrReader {
    type V = CStrState;

    closed spec fn view(&self) -> CStrState {
        CStrState { start: self.start as int, bytes: self.bytes@, done: self.done }
    }
}

/// The next action of a string read in state `s`.
pub open spec fn cstr_action(s: CStrState) -> StrAction {
    if s.done {
        StrAction::Done
    } else {
        StrAction::Read((s.start + s.bytes.len()) as u64)
    }
}

/// The address of the next read of a string read in state `s` is
/// representable.
pub open spec fn cstr_ready(s: CStrState) -> bool {
    s.done || s.start + s.bytes.len() <= u64::MAX
}

/// The state of a string read in state `s` after the byte at its current
/// address is handed to it.
pub open spec fn cstr_feed(s: CStrState, byte: u8) -> CStrState {
    if byte == 0 {
        CStrState { done: true, ..s }
    } else {
        CStrState { bytes: s.bytes.push(byte), ..s }
    }
}

impl CStrReader {
    /// Starts reading a NUL-terminated string at `address`.
    pub fn new(address: u64) -> (reader: CStrReader)
        ensures
            reader@ == (CStrState { start: address as int, bytes: Seq::empty(), done: false }),
    {
        CStrReader { start: address, bytes: Vec::new(), done: false }
    }

    /// Whether the next read address is representable (the read would
    /// overflow the address computation otherwise).
    pub fn ready(&self) -> (b: bool)
        ensures
            b == cstr_ready(self@),
    {
        if self.done {
            return true;
        }
        let n = self.bytes.len();
        if n as u128 > u64::MAX as u128 {
            false
        } else {
            self.start <= u64::MAX - n as u64
        }
    }

    /// What the driver has to do next.
    pub fn action(&self) -> (next: StrAction)
        requires
            cstr_ready(self@),
        ensures
            next == cstr_action(self@),
    {
        if self.done {
            StrAction::Done
        } else {
            StrAction::Read(self.start + self.bytes.len() as u64)
        }
    }

    /// Hands over the byte read at the current address.
    pub fn feed(&mut self, byte: u8)
        requires
            !old(self)@.done,
        ensures
            final(self)@ == cstr_feed(old(self)@, byte),
    {
        if byte == 0 {
            self.done = true;
        } else {
            self.bytes.push(byte);
        }
    }

    /// The string read and its size in bytes, once the terminator has been
    /// seen; `None` when the bytes are not valid UTF-8.
    pub fn finish(self) -> (result: Option<(String, usize)>)
        requires
            self@.done,
        ensures
            result is Some <==> valid_utf8(self@.bytes),
            result matches Some((text, size)) ==> {
                &&& text@ == decode_utf8(self@.bytes)
                &&& size == self@.bytes.len()
            },
    {
        let size = self.bytes.len();
        match string_from_utf8(self.bytes.as_slice()) {
            Some(text) => Some((text, size)),
            None => None,
        }
    }
}

/// In the memory snapshot `mem` the string at `start` is `n` bytes long:
/// the byte at `start + n` is NUL and none before it is.
pub open spec fn cstr_len_is(mem: spec_fn(int) -> u8, start: int, n: nat) -> bool {
    &&& mem(start + n) == 0
    &&& forall|j: int| 0 <= j < n ==> #[trigger] byte_at(mem, start, j) != 0
}

/// The byte `j` places after `start` in the memory snapshot `mem`.
pub open spec fn byte_at(mem: spec_fn(int) -> u8, start: int, j: int) -> u8 {
    mem(start + j)
}

/// The state reached after feeding a string read in state `s` the bytes
/// of `mem` for `steps` reads.
pub open spec fn cstr_run(s: CStrState, mem: spec_fn(int) -> u8, steps: nat) -> CStrState
    decreases steps,
{
    if steps == 0 {
        s
    } else {
        match cstr_action(s) {
            StrAction::Done => s,
            StrAction::Read(_) => cstr_run(cstr_feed(s, mem(s.start + s.bytes.len())), mem, (steps - 1) as nat),
        }
    }
}

/// Drives a string read in state `s` for at most `fuel` reads, following
/// the actions it issues: each `Read(a)` is answered with `mem(a)`.
/// `Some(end)` when the read announced `Done` in state `end`, `None` when
/// the fuel ran out first.
pub open spec fn cstr_drive(s: CStrState, mem: spec_fn(int) -> u8, fuel: nat) -> Option<CStrState>
    decreases fuel,
{
    match cstr_action(s) {
        StrAction::Done => Some(s),
        StrAction::Read(a) => if fuel == 0 {
            None
        } else {
            cstr_drive(cstr_feed(s, mem(a as int)), mem, (fuel - 1) as nat)
        },
    }
}

proof fn lemma_cstr_run_from(mem: spec_fn(int) -> u8, start: int, n: nat, k: nat)
    requires
        cstr_len_is(mem, start, n),
        k <= n,
    ensures
        cstr_run(CStrState { start, bytes: Seq::new(k, |j: int| mem(start + j)), done: false }, mem, (n - k + 1) as nat)
            == (CStrState { start, bytes: Seq::new(n, |j: int| mem(start + j)), done: true }),
    decreases n - k,
{
    let s = CStrState { start, bytes: Seq::new(k, |j: int| mem(start + j)), done: false };
    if k == n {
        let t = cstr_feed(s, mem(start + k));
        assert(cstr_run(t, mem, 0) == t);
    } else {
        let t = cstr_feed(s, mem(start + k));
        assert(byte_at(mem, start, k as int) != 0);
        assert(t.bytes =~= Seq::new((k + 1) as nat, |j: int| mem(start + j)));
        lemma_cstr_run_from(mem, start, n, (k + 1) as nat);
        assert((n - k + 1) as nat - 1 == (n - (k + 1) + 1) as nat);
    }
}

proof fn lemma_cstr_drive_from(mem: spec_fn(int) -> u8, start: int, n: nat, k: nat, fuel: nat)
    requires
        cstr_len_is(mem, start, n),
        k <= n,
        0 <= start,
        start + n <= u64::MAX,
    ensures
        cstr_drive(CStrState { start, bytes: Seq::new(k, |j: int| mem(start + j)), done: false }, mem, fuel)
            == (if fuel >= n - k + 1 {
                Some(CStrState { start, bytes: Seq::new(n, |j: int| mem(start + j)), done: true })
            } else {
                None
            }),
    decreases n - k,
{
    let s = CStrState { start, bytes: Seq::new(k, |j: int| mem(start + j)), done: false };
    assert((start + k) as u64 as int == start + k);
    if fuel > 0 {
        let t = cstr_feed(s, mem(start + k));
        if k == n {
            assert(cstr_drive(t, mem, (fuel - 1) as nat) == Some(t));
            assert(t.bytes =~= Seq::new(n, |j: int| mem(start + j)));
        } else {
            assert(byte_at(mem, start, k as int) != 0);
            assert(t.bytes =~= Seq::new((k + 1) as nat, |j: int| mem(start + j)));
            lemma_cstr_drive_from(mem, start, n, (k + 1) as nat, (fuel - 1) as nat);
        }
    }
}

/// Driving a string read from `start`, answering each read it issues with
/// the byte at that address of a memory snapshot holding a string of `n`
/// bytes there, takes exactly `n + 1` reads (with fewer it has not
/// finished) and ends done, holding exactly the `n` bytes before the NUL
/// terminator.
pub proof fn lemma_cstr_drive_reads_up_to_nul(mem: spec_fn(int) -> u8, start: u64, n: nat)
    requires
        cstr_len_is(mem, start as int, n),
        start + n <= u64::MAX,
    ensures
        cstr_drive(CStrState { start: start as int, bytes: Seq::empty(), done: false }, mem, n + 1)
            == Some(CStrState { start: start as int, bytes: Seq::new(n, |j: int| mem(start + j)), done: true }),
        cstr_drive(CStrState { start: start as int, bytes: Seq::empty(), done: false }, mem, n) is None,
{
    assert(Seq::new(0, |j: int| mem(start + j)) =~= Seq::<u8>::empty());
    lemma_cstr_drive_from(mem, start as int, n, 0, n + 1);
    lemma_cstr_drive_from(mem, start as int, n, 0, n);
}

/// Reading a string of `n` bytes from a memory snapshot takes `n + 1`
/// reads, collects exactly the `n` bytes before the NUL terminator, and
/// stops; when those bytes are valid UTF-8, the string returned by `finish`
/// encodes back to exactly those bytes, and its size is `n`.
pub proof fn lemma_cstr_reads_up_to_nul(mem: spec_fn(int) -> u8, start: u64, n: nat)
    requires
        cstr_len_is(mem, start as int, n),
    ensures
        ({
            let end = cstr_run(CStrState { start: start as int, bytes: Seq::empty(), done: false }, mem, n + 1);
            &&& end.done
            &&& end.bytes == Seq::new(n, |j: int| mem(start + j))
            &&& valid_utf8(end.bytes) ==> encode_utf8(decode_utf8(end.bytes)) == end.bytes
        }),
{
    assert(Seq::new(0, |j: int| mem(start + j)) =~= Seq::<u8>::empty());
    lemma_cstr_run_from(mem, start as int, n, 0);
    let end = cstr_run(CStrState { start: start as int, bytes: Seq::empty(), done: false }, mem, n + 1);
    if valid_utf8(end.bytes) {
        decode_utf8_encode_utf8(end.bytes);
    }
}

/// One entry of a process snapshot: the process id and the raw bytes of the
/// executable name as the snapshot reports it (the whole fixed-size name
/// field, with its NUL padding).
pub struct ProcessEntry {
    pub pid: u32,
    pub exe_file: Vec<u8>,
}

/// One entry of a module snapshot: the raw bytes of the module name as the
/// snapshot reports it (with its NUL padding) and the module's base address.
pub struct ModuleEntry {
    pub module: Vec<u8>,
    pub base: usize,
}

/// The id of the first process whose reported name contains `name`, or 0
/// when none does; `None` when a name examined before the answer is found
/// is not valid UTF-8.
pub open spec fn pid_of_name(entries: Seq<ProcessEntry>, name: Seq<char>) -> Option<u32>
    decreases entries.len(),
{
    if entries.len() == 0 {
        Some(0)
    } else if !valid_utf8(entries[0].exe_file@) {
        None
    } else if contains_seq(decode_utf8(entries[0].exe_file@), name) {
        Some(entries[0].pid)
    } else {
        pid_of_name(entries.drop_first(), name)
    }
}

/// The name of the first process with id `pid`, NUL padding removed, or the
/// empty name when there is none; `None` when that process's name is not
/// valid UTF-8.
pub open spec fn name_of_pid(entries: Seq<ProcessEntry>, pid: u32) -> Option<Seq<char>>
    decreases entries.len(),
{
    if entries.len() == 0 {
        Some(Seq::empty())
    } else if entries[0].pid == pid {
        if valid_utf8(entries[0].exe_file@) {
            Some(trim_nul(decode_utf8(entries[0].exe_file@)))
        } else {
            None
        }
    } else {
        name_of_pid(entries.drop_first(), pid)
    }
}

/// The base address of the first module whose reported name contains
/// `name`, or 0 when none does; `None` when a name examined before the
/// answer is found is not valid UTF-8.
pub open spec fn base_of_module(entries: Seq<ModuleEntry>, name: Seq<char>) -> Option<usize>
    decreases entries.len(),
{
    if entries.len() == 0 {
        Some(0)
    } else if !valid_utf8(entries[0].module@) {
        None
    } else if contains_seq(decode_utf8(entries[0].module@), name) {
        Some(entries[0].base)
    } else {
        base_of_module(entries.drop_first(), name)
    }
}

/// Returns the process ID based on a name. Returns `0` when not found.
/// `entries` is the process snapshot, in the order the system reports it;
/// `None` when a name examined before the answer is not valid UTF-8.
pub fn get_pid(entries: &[ProcessEntry], proc_name: &str) -> (pid: Option<u32>)
    ensures
        pid == pid_of_name(entries@, proc_name@),
{
    let mut i: usize = 0;
    assert(entries@.skip(0) =~= entries@);
    while i < entries.len()
        invariant
            i <= entries@.len(),
            pid_of_name(entries@, proc_name@) == pid_of_name(entries@.skip(i as int), proc_name@),
        decreases entries@.len() - i,
    {
        let entry = &entries[i];
        proof {
            assert(entries@.skip(i as int)[0] == entries@[i as int]);
            assert(entries@.skip(i as int).drop_first() =~= entries@.skip(i + 1));
        }
        match string_from_utf8(entry.exe_file.as_slice()) {
            None => return None,
            Some(name) => {
                if str_contains(name.as_str(), proc_name) {
                    return Some(entry.pid);
                }
            },
        }
        i = i + 1;
    }
    assert(entries@.skip(i as int).len() == 0);
    Some(0)
}

/// Returns the process name based on a PID. Returns an empty string when
/// not found. `entries` is the process snapshot; `None` when the name of the
/// process found is not valid UTF-8.
pub fn get_name(entries: &[ProcessEntry], proc_pid: u32) -> (name: Option<String>)
    ensures
        match name {
            Some(n) => name_of_pid(entries@, proc_pid) == Some(n@),
            None => name_of_pid(entries@, proc_pid) is None,
        },
{
    let mut i: usize = 0;
    assert(entries@.skip(0) =~= entries@);
    while i < entries.len()
        invariant
            i <= entries@.len(),
            name_of_pid(entries@, proc_pid) == name_of_pid(entries@.skip(i as int), proc_pid),
        decreases entries@.len() - i,
    {
        let entry = &entries[i];
        proof {
            assert(entries@.skip(i as int)[0] == entries@[i as int]);
            assert(entries@.skip(i as int).drop_first() =~= entries@.skip(i + 1));
        }
        if entry.pid == proc_pid {
            return match string_from_utf8(entry.exe_file.as_slice()) {
                Some(name) => Some(trim_nul_str(name.as_str())),
                None => None,
            };
        }
        i = i + 1;
    }
    assert(entries@.skip(i as int).len() == 0);
    Some(String::new())
}

/// Returns the base address of the given module name, or 0 when no module
/// name contains it. `entries` is the module snapshot; `None` when a name
/// examined before the answer is not valid UTF-8.
pub fn get_module_base(entries: &[ModuleEntry], mod_name: &str) -> (base: Option<usize>)
    ensures
        base == base_of_module(entries@, mod_name@),
{
    let mut i: usize = 0;
    assert(entries@.skip(0) =~= entries@);
    while i < entries.len()
        invariant
            i <= entries@.len(),
            base_of_module(entries@, mod_name@) == base_of_module(entries@.skip(i as int), mod_name@),
        decreases entries@.len() - i,
    {
        let entry = &entries[i];
        proof {
            assert(entries@.skip(i as int)[0] == entries@[i as int]);
            assert(entries@.skip(i as int).drop_first() =~= entries@.skip(i + 1));
        }
        match string_from_utf8(entry.module.as_slice()) {
            None => return None,
            Some(name) => {
                if str_contains(name.as_str(), mod_name) {
                    return Some(entry.base);
                }
            },
        }
        i = i + 1;
    }
    assert(entries@.skip(i as int).len() == 0);
    Some(0)
}

/// Module entry `e` has a decodable name that contains `name`.
pub open spec fn module_entry_matches(e: ModuleEntry, name: Seq<char>) -> bool {
    valid_utf8(e.module@) && contains_seq(decode_utf8(e.module@), name)
}

/// Process entry `e` has a decodable name that contains `name`.
pub open spec fn process_entry_matches(e: ProcessEntry, name: Seq<char>) -> bool {
    valid_utf8(e.exe_file@) && contains_seq(decode_utf8(e.exe_file@), name)
}

/// What `get_module_base` answers, by index into the snapshot: the base of
/// the entry at the least index `i` whose name contains the query, when
/// every name up to it decodes; 0 when every name decodes and none
/// contains the query; `None` when the first name that does not decode
/// comes before any match.
pub proof fn lemma_module_base_by_index(entries: Seq<ModuleEntry>, name: Seq<char>)
    ensures
        forall|i: int|
            0 <= i < entries.len() && #[trigger] module_entry_matches(entries[i], name)
                && (forall|j: int| 0 <= j < i ==> valid_utf8(entries[j].module@) && !module_entry_matches(entries[j], name))
                ==> base_of_module(entries, name) == Some(entries[i].base),
        (forall|i: int| 0 <= i < entries.len() ==> valid_utf8(entries[i].module@) && !module_entry_matches(entries[i], name))
            ==> base_of_module(entries, name) == Some(0usize),
        forall|i: int|
            0 <= i < entries.len() && !valid_utf8(#[trigger] entries[i].module@)
                && (forall|j: int| 0 <= j < i ==> valid_utf8(entries[j].module@) && !module_entry_matches(entries[j], name))
                ==> base_of_module(entries, name) is None,
    decreases entries.len(),
{
    if entries.len() > 0 {
        let rest = entries.drop_first();
        lemma_module_base_by_index(rest, name);
        assert forall|i: int|
            0 <= i < entries.len() && #[trigger] module_entry_matches(entries[i], name)
                && (forall|j: int| 0 <= j < i ==> valid_utf8(entries[j].module@) && !module_entry_matches(entries[j], name))
            implies base_of_module(entries, name) == Some(entries[i].base) by {
            if i > 0 {
                assert(valid_utf8(entries[0].module@) && !module_entry_matches(entries[0], name));
                assert(rest[i - 1] == entries[i]);
                assert(module_entry_matches(rest[i - 1], name));
                assert forall|j: int| 0 <= j < i - 1 implies valid_utf8(rest[j].module@) && !module_entry_matches(rest[j], name) by {
                    assert(rest[j] == entries[j + 1]);
                }
            }
        }
        if forall|i: int| 0 <= i < entries.len() ==> valid_utf8(entries[i].module@) && !module_entry_matches(entries[i], name) {
            assert(valid_utf8(entries[0].module@) && !module_entry_matches(entries[0], name));
            assert forall|i: int| 0 <= i < rest.len() implies valid_utf8(rest[i].module@) && !module_entry_matches(rest[i], name) by {
                assert(rest[i] == entries[i + 1]);
            }
        }
        assert forall|i: int|
            0 <= i < entries.len() && !valid_utf8(#[trigger] entries[i].module@)
                && (forall|j: int| 0 <= j < i ==> valid_utf8(entries[j].module@) && !module_entry_matches(entries[j], name))
            implies base_of_module(entries, name) is None by {
            if i > 0 {
                assert(valid_utf8(entries[0].module@) && !module_entry_matches(entries[0], name));
                assert(rest[i - 1] == entries[i]);
                assert(!valid_utf8(rest[i - 1].module@));
                assert forall|j: int| 0 <= j < i - 1 implies valid_utf8(rest[j].module@) && !module_entry_matches(rest[j], name) by {
                    assert(rest[j] == entries[j + 1]);
                }
            }
        }
    }
}

/// What `get_pid` answers, by index into the snapshot: the id of the entry
/// at the least index `i` whose name contains the query, when every name up
/// to it decodes; 0 when every name decodes and none contains the query;
/// `None` when the first name that does not decode comes before any match.
pub proof fn lemma_pid_by_index(entries: Seq<ProcessEntry>, name: Seq<char>)
    ensures
        forall|i: int|
            0 <= i < entries.len() && #[trigger] process_entry_matches(entries[i], name)
                && (forall|j: int| 0 <= j < i ==> valid_utf8(entries[j].exe_file@) && !process_entry_matches(entries[j], name))
                ==> pid_of_name(entries, name) == Some(entries[i].pid),
        (forall|i: int| 0 <= i < entries.len() ==> valid_utf8(entries[i].exe_file@) && !process_entry_matches(entries[i], name))
            ==> pid_of_name(entries, name) == Some(0u32),
        forall|i: int|
            0 <= i < entries.len() && !valid_utf8(#[trigger] entries[i].exe_file@)
                && (forall|j: int| 0 <= j < i ==> valid_utf8(entries[j].exe_file@) && !process_entry_matches(entries[j], name))
                ==> pid_of_name(entries, name) is None,
    decreases entries.len(),
{
    if entries.len() > 0 {
        let rest = entries.drop_first();
        lemma_pid_by_index(rest, name);
        assert forall|i: int|
            0 <= i < entries.len() && #[trigger] process_entry_matches(entries[i], name)
                && (forall|j: int| 0 <= j < i ==> valid_utf8(entries[j].exe_file@) && !process_entry_matches(entries[j], name))
            implies pid_of_name(entries, name) == Some(entries[i].pid) by {
            if i > 0 {
                assert(valid_utf8(entries[0].exe_file@) && !process_entry_matches(entries[0], name));
                assert(rest[i - 1] == entries[i]);
                assert(process_entry_matches(rest[i - 1], name));
                assert forall|j: int| 0 <= j < i - 1 implies valid_utf8(rest[j].exe_file@) && !process_entry_matches(rest[j], name) by {
                    assert(rest[j] == entries[j + 1]);
                }
            }
        }
        if forall|i: int| 0 <= i < entries.len() ==> valid_utf8(entries[i].exe_file@) && !process_entry_matches(entries[i], name) {
            assert(valid_utf8(entries[0].exe_file@) && !process_entry_matches(entries[0], name));
            assert forall|i: int| 0 <= i < rest.len() implies valid_utf8(rest[i].exe_file@) && !process_entry_matches(rest[i], name) by {
                assert(rest[i] == entries[i + 1]);
            }
        }
        assert forall|i: int|
            0 <= i < entries.len() && !valid_utf8(#[trigger] entries[i].exe_file@)
                && (forall|j: int| 0 <= j < i ==> valid_utf8(entries[j].exe_file@) && !process_entry_matches(entries[j], name))
            implies pid_of_name(entries, name) is None by {
            if i > 0 {
                assert(valid_utf8(entries[0].exe_file@) && !process_entry_matches(entries[0], name));
                assert(rest[i - 1] == entries[i]);
                assert(!valid_utf8(rest[i - 1].exe_file@));
                assert forall|j: int| 0 <= j < i - 1 implies valid_utf8(rest[j].exe_file@) && !process_entry_matches(rest[j], name) by {
                    assert(rest[j] == entries[j + 1]);
                }
            }
        }
    }
}

/// What `get_name` answers, by index into the snapshot: for the entry at
/// the least index with the queried id, its decoded name with the NUL
/// padding removed, or `None` when that name does not decode; the empty
/// name when no entry has the id.
pub proof fn lemma_name_by_index(entries: Seq<ProcessEntry>, pid: u32)
    ensures
        forall|i: int|
            0 <= i < entries.len() && #[trigger] entries[i].pid == pid
                && (forall|j: int| 0 <= j < i ==> entries[j].pid != pid)
                ==> name_of_pid(entries, pid) == (if valid_utf8(entries[i].exe_file@) {
                    Some(trim_nul(decode_utf8(entries[i].exe_file@)))
                } else {
                    None
                }),
        (forall|i: int| 0 <= i < entries.len() ==> entries[i].pid != pid) ==> name_of_pid(entries, pid) == Some(
            Seq::<char>::empty(),
        ),
    decreases entries.len(),
{
    if entries.len() > 0 {
        let rest = entries.drop_first();
        lemma_name_by_index(rest, pid);
        assert forall|i: int|
            0 <= i < entries.len() && #[trigger] entries[i].pid == pid
                && (forall|j: int| 0 <= j < i ==> entries[j].pid != pid)
            implies name_of_pid(entries, pid) == (if valid_utf8(entries[i].exe_file@) {
                Some(trim_nul(decode_utf8(entries[i].exe_file@)))
            } else {
                None
            }) by {
            if i > 0 {
                assert(entries[0].pid != pid);
                assert(rest[i - 1] == entries[i]);
                assert(rest[i - 1].pid == pid);
                assert forall|j: int| 0 <= j < i - 1 implies rest[j].pid != pid by {
                    assert(rest[j] == entries[j + 1]);
                }
            }
        }
        if forall|i: int| 0 <= i < entries.len() ==> entries[i].pid != pid {
            assert(entries[0].pid != pid);
            assert forall|i: int| 0 <= i < rest.len() implies rest[i].pid != pid by {
                assert(rest[i] == entries[i + 1]);
            }
        }
    }
}

/// Looking up the name that `get_name` gives for `pid` with `get_pid` gives
/// `pid` back, when the snapshot holds a process with that id whose name is
/// valid UTF-8 and no process listed before it has a name containing that
/// name (names are matched as substrings).
pub proof fn lemma_get_pid_of_get_name(entries: Seq<ProcessEntry>, pid: u32, i: int)
    requires
        0 <= i < entries.len(),
        entries[i].pid == pid,
        forall|j: int| 0 <= j < i ==> entries[j].pid != pid,
        forall|j: int| 0 <= j <= i ==> valid_utf8(#[trigger] entries[j].exe_file@),
        forall|j: int| 0 <= j < i ==> !contains_seq(
            decode_utf8(#[trigger] entries[j].exe_file@),
            trim_nul(decode_utf8(entries[i].exe_file@)),
        ),
    ensures
        name_of_pid(entries, pid) == Some(trim_nul(decode_utf8(entries[i].exe_file@))),
        pid_of_name(entries, trim_nul(decode_utf8(entries[i].exe_file@))) == Some(pid),
    decreases i,
{
    let name = trim_nul(decode_utf8(entries[i].exe_file@));
    if i == 0 {
        lemma_trim_nul_occurs_in(decode_utf8(entries[0].exe_file@));
    } else {
        let rest = entries.drop_first();
        assert(valid_utf8(entries[0].exe_file@));
        assert(!contains_seq(decode_utf8(entries[0].exe_file@), name));
        assert forall|j: int| 0 <= j <= i - 1 implies valid_utf8(#[trigger] rest[j].exe_file@) by {
            assert(rest[j] == entries[j + 1]);
        }
        assert forall|j: int| 0 <= j < i - 1 implies !contains_seq(
            decode_utf8(#[trigger] rest[j].exe_file@),
            trim_nul(decode_utf8(rest[i - 1].exe_file@)),
        ) by {
            assert(rest[j] == entries[j + 1]);
        }
        assert forall|j: int| 0 <= j < i - 1 implies rest[j].pid != pid by {
            assert(rest[j] == entries[j + 1]);
        }
        lemma_get_pid_of_get_name(rest, pid, i - 1);
    }
}

/// The name of a module entry: its reported name decoded, NUL padding
/// removed.
pub open spec fn module_name(entry: ModuleEntry) -> Seq<char> {
    trim_nul(decode_utf8(entry.module@))
}

/// Every module name of the snapshot is valid UTF-8.
pub open spec fn module_names_valid(entries: Seq<ModuleEntry>) -> bool {
    forall|i: int| 0 <= i < entries.len() ==> valid_utf8(#[trigger] entries[i].module@)
}

/// Whether every module name of the snapshot is valid UTF-8 (the module
/// table can only be built from such a snapshot).
pub fn module_names_are_utf8(entries: &[ModuleEntry]) -> (valid: bool)
    ensures
        valid == module_names_valid(entries@),
{
    let mut i: usize = 0;
    while i < entries.len()
        invariant
            i <= entries@.len(),
            forall|j: int| 0 <= j < i ==> valid_utf8(#[trigger] entries@[j].module@),
        decreases entries@.len() - i,
    {
        if string_from_utf8(entries[i].module.as_slice()).is_none() {
            return false;
        }
        i = i + 1;
    }
    true
}

/// The table built from a module snapshot: each module's name, NUL padding
/// removed, maps to its base address; a later entry with the same name
/// replaces an earlier one.
pub open spec fn module_table(entries: Seq<ModuleEntry>) -> Map<Seq<char>, usize>
    decreases entries.len(),
{
    if entries.len() == 0 {
        Map::empty()
    } else {
        module_table(entries.drop_last()).insert(module_name(entries.last()), entries.last().base)
    }
}

/// A table from module names to base addresses.
pub struct ModuleMap {
    names: Vec<String>,
    bases: Vec<usize>,
}

/// The table holding the first `n` name/base pairs, later pairs replacing
/// earlier ones with the same name.
spec fn pairs_table(names: Seq<String>, bases: Seq<usize>, n: int) -> Map<Seq<char>, usize>
    decreases n,
{
    if n <= 0 {
        Map::empty()
    } else {
        pairs_table(names, bases, n - 1).insert(names[n - 1]@, bases[n - 1])
    }
}

proof fn lemma_pairs_table_prefix(names1: Seq<String>, bases1: Seq<usize>, names2: Seq<String>, bases2: Seq<usize>, n: int)
    requires
        n <= names1.len(),
        n <= names2.len(),
        n <= bases1.len(),
        n <= bases2.len(),
        forall|j: int| 0 <= j < n ==> names1[j] == names2[j] && bases1[j] == bases2[j],
    ensures
        pairs_table(names1, bases1, n) == pairs_table(names2, bases2, n),
    decreases n,
{
    if n > 0 {
        lemma_pairs_table_prefix(names1, bases1, names2, bases2, n - 1);
    }
}

proof fn lemma_pairs_table_last(names: Seq<String>, bases: Seq<usize>, n: int, key: Seq<char>, i: int)
    requires
        0 <= i < n,
        names[i]@ == key,
        forall|j: int| i < j < n ==> names[j]@ != key,
    ensures
        pairs_table(names, bases, n).dom().contains(key),
        pairs_table(names, bases, n)[key] == bases[i],
    decreases n,
{
    if n - 1 > i {
        lemma_pairs_table_last(names, bases, n - 1, key, i);
    }
}

proof fn lemma_pairs_table_absent(names: Seq<String>, bases: Seq<usize>, n: int, key: Seq<char>)
    requires
        forall|j: int| 0 <= j < n ==> names[j]@ != key,
    ensures
        !pairs_table(names, bases, n).dom().contains(key),
    decreases n,
{
    if n > 0 {
        lemma_pairs_table_absent(names, bases, n - 1, key);
    }
}

impl View for ModuleMap {
    type V = Map<Seq<char>, usize>;

    closed spec fn view(&self) -> Map<Seq<char>, usize> {
        pairs_table(self.names@, self.bases@, self.names@.len() as int)
    }
}

impl ModuleMap {
    #[verifier::type_invariant]
    spec fn same_length(&self) -> bool {
        self.names@.len() == self.bases@.len()
    }

    /// The base address recorded for the module named `module`, if any.
    fn lookup(&self, module: &str) -> (base: Option<usize>)
        ensures
            base == (if self@.dom().contains(module@) { Some(self@[module@]) } else { None }),
    {
        proof { use_type_invariant(self); }
        let key = module.to_owned();
        let mut i: usize = self.names.len();
        while i > 0
            invariant
                i <= self.names@.len(),
                self.names@.len() == self.bases@.len(),
                key@ == module@,
                forall|j: int| i <= j < self.names@.len() ==> self.names@[j]@ != module@,
            decreases i,
        {
            if self.names[i - 1] == key {
                proof {
                    lemma_pairs_table_last(self.names@, self.bases@, self.names@.len() as int, module@, i - 1);
                }
                return Some(self.bases[i - 1]);
            }
            i = i - 1;
        }
        proof {
            lemma_pairs_table_absent(self.names@, self.bases@, self.names@.len() as int, module@);
        }
        None
    }

    /// Whether a module named `module` is recorded.
    pub fn contains_key(&self, module: &str) -> (present: bool)
        ensures
            present == self@.dom().contains(module@),
    {
        self.lookup(module).is_some()
    }

    /// The base address recorded for the module named `module`, if any.
    pub fn get(&self, module: &str) -> (base: Option<usize>)
        ensures
            base == (if self@.dom().contains(module@) { Some(self@[module@]) } else { None }),
    {
        self.lookup(module)
    }
}

/// Map all modules of a process into a table from name (NUL padding
/// removed) to base address. `entries` is the module snapshot; a later
/// module with the same name replaces an earlier one.
pub fn map_modules(entries: &[ModuleEntry]) -> (mapping: ModuleMap)
    requires
        module_names_valid(entries@),
    ensures
        mapping@ == module_table(entries@),
{
    let mut names: Vec<String> = Vec::new();
    let mut bases: Vec<usize> = Vec::new();
    let mut i: usize = 0;
    while i < entries.len()
        invariant
            i <= entries@.len(),
            module_names_valid(entries@),
            names@.len() == i,
            bases@.len() == i,
            pairs_table(names@, bases@, i as int) == module_table(entries@.take(i as int)),
        decreases entries@.len() - i,
    {
        let ghost old_names = names@;
        let ghost old_bases = bases@;
        let name = match string_from_utf8(entries[i].module.as_slice()) {
            Some(text) => trim_nul_str(text.as_str()),
            None => {
                assert(valid_utf8(entries@[i as int].module@));
                String::new()
            },
        };
        names.push(name);
        bases.push(entries[i].base);
        proof {
            lemma_pairs_table_prefix(old_names, old_bases, names@, bases@, i as int);
            assert(entries@.take(i + 1).drop_last() =~= entries@.take(i as int));
        }
        i = i + 1;
    }
    assert(entries@.take(i as int) =~= entries@);
    ModuleMap { names, bases }
}

/// In the table built by `map_modules`, a name is present exactly when some
/// module of the snapshot has that name (NUL padding removed), and its base
/// address is the one of the last such module.
pub proof fn lemma_module_table_last_wins(entries: Seq<ModuleEntry>, name: Seq<char>)
    ensures
        module_table(entries).dom().contains(name) <==> exists|i: int|
            0 <= i < entries.len() && #[trigger] module_name(entries[i]) == name,
        forall|i: int|
            0 <= i < entries.len() && #[trigger] module_name(entries[i]) == name
                && (forall|j: int| i < j < entries.len() ==> module_name(entries[j]) != name)
                ==> module_table(entries)[name] == entries[i].base,
    decreases entries.len(),
{
    if entries.len() > 0 {
        let shorter = entries.drop_last();
        lemma_module_table_last_wins(shorter, name);
        let last = entries.len() - 1;
        if module_name(entries[last]) != name {
            assert forall|i: int| 0 <= i < shorter.len() implies shorter[i] == entries[i] by {}
            if module_table(entries).dom().contains(name) {
                let i = choose|i: int| 0 <= i < shorter.len() && #[trigger] module_name(shorter[i]) == name;
                assert(module_name(entries[i]) == name);
            }
            assert forall|i: int|
                0 <= i < entries.len() && #[trigger] module_name(entries[i]) == name
                    && (forall|j: int| i < j < entries.len() ==> module_name(entries[j]) != name)
                implies module_table(entries)[name] == entries[i].base by {
                assert(i < last);
                assert(module_name(shorter[i]) == name);
                assert forall|j: int| i < j < shorter.len() implies module_name(shorter[j]) != name by {
                    assert(shorter[j] == entries[j]);
                }
            }
        } else {
            assert(module_name(entries[last]) == name);
        }
    }
}

} // verus!
