//! Byte-pattern and signature matching over memory contents.

use vstd::prelude::*;
use crate::text::str_chars;

verus! {

/// The mask character that lets any byte match.
pub open spec fn is_wildcard(c: char) -> bool {
    c == '?'
}

/// The signature `pattern`/`mask` matches `data` at index `start`: mask and
/// pattern have the same length, the pattern fits inside `data` from `start`,
/// and every byte not masked by `'?'` is equal to the pattern's byte.
pub open spec fn sig_matches_at(data: Seq<u8>, start: int, pattern: Seq<u8>, mask: Seq<char>) -> bool {
    &&& mask.len() == pattern.len()
    &&& 0 <= start
    &&& start + pattern.len() <= data.len()
    &&& forall|k: int| 0 <= k < pattern.len() ==> (is_wildcard(mask[k]) || data[start + k] == #[trigger] pattern[k])
}

fn mask_matches_at(data: &[u8], start: usize, pattern: &[u8], mask: &Vec<char>) -> (b: bool)
    ensures
        b == sig_matches_at(data@, start as int, pattern@, mask@),
{
    if mask.len() != pattern.len() || start > data.len() || pattern.len() > data.len() - start {
        return false;
    }
    let mut k: usize = 0;
    while k < pattern.len()
        invariant
            mask@.len() == pattern@.len(),
            start + pattern.len() <= data.len(),
            k <= pattern@.len(),
            forall|j: int| 0 <= j < k ==> (is_wildcard(mask@[j]) || data@[start + j] == #[trigger] pattern@[j]),
        decreases pattern@.len() - k,
    {
        if mask[k] != '?' && data[start + k] != pattern[k] {
            assert(!(is_wildcard(mask@[k as int]) || data@[start + k] == pattern@[k as int]));
            return false;
        }
        k = k + 1;
    }
    true
}

/// Compares the start of `data` with a byte pattern under a mask: a `'?'` in
/// the mask accepts any byte at that position, any other mask character
/// demands the pattern's byte. Mask and pattern must have the same length.
pub fn eval_sig(data: &[u8], pattern: &[u8], mask: &str) -> (matched: bool)
    ensures
        matched == sig_matches_at(data@, 0, pattern@, mask@),
{
    let mask_chars = str_chars(mask);
    mask_matches_at(data, 0, pattern, &mask_chars)
}

/// Finds the first place in a block of memory, read from address `base`,
/// where the masked pattern matches, and returns its address.
pub fn find_pattern(memory: &[u8], base: usize, pattern: &[u8], mask: &str) -> (found: Option<usize>)
    requires
        base + memory@.len() <= usize::MAX,
    ensures
        match found {
            Some(addr) => {
                &&& base <= addr
                &&& sig_matches_at(memory@, addr - base, pattern@, mask@)
                &&& forall|j: int| 0 <= j < addr - base ==> !sig_matches_at(memory@, j, pattern@, mask@)
            },
            None => forall|j: int| !sig_matches_at(memory@, j, pattern@, mask@),
        },
{
    let mask_chars = str_chars(mask);
    let mut i: usize = 0;
    while i < memory.len()
        invariant
            mask_chars@ == mask@,
            base + memory@.len() <= usize::MAX,
            i <= memory@.len(),
            forall|j: int| 0 <= j < i ==> !sig_matches_at(memory@, j, pattern@, mask@),
        decreases memory@.len() - i,
    {
        if mask_matches_at(memory, i, pattern, &mask_chars) {
            return Some(base + i);
        }
        i = i + 1;
    }
    if mask_matches_at(memory, i, pattern, &mask_chars) {
        return Some(base + i);
    }
    assert forall|j: int| !sig_matches_at(memory@, j, pattern@, mask@) by {
        if j > i {
            assert(j + pattern@.len() > memory@.len());
        }
    }
    None
}

/// Matching a signature at index `start` of a block of memory is the same
/// as matching it at the beginning of the block's tail from `start`: the
/// address that `find_pattern` returns is one where `eval_sig` accepts the
/// memory from there on.
pub proof fn lemma_sig_match_is_tail_match(data: Seq<u8>, start: int, pattern: Seq<u8>, mask: Seq<char>)
    requires
        0 <= start <= data.len(),
    ensures
        sig_matches_at(data, start, pattern, mask) == sig_matches_at(data.skip(start), 0, pattern, mask),
{
    let tail = data.skip(start);
    if sig_matches_at(data, start, pattern, mask) {
        assert forall|k: int| 0 <= k < pattern.len() implies (is_wildcard(mask[k]) || tail[0 + k] == #[trigger] pattern[k]) by {
            assert(tail[k] == data[start + k]);
        }
    }
    if sig_matches_at(tail, 0, pattern, mask) {
        assert forall|k: int| 0 <= k < pattern.len() implies (is_wildcard(mask[k]) || data[start + k] == #[trigger] pattern[k]) by {
            assert(tail[0 + k] == data[start + k]);
        }
    }
}

/// A mask without wildcards compares exactly: the signature then matches at
/// `start` iff the pattern's bytes occur there.
pub proof fn lemma_mask_without_wildcards_is_exact(data: Seq<u8>, start: int, pattern: Seq<u8>, mask: Seq<char>)
    requires
        mask.len() == pattern.len(),
        0 <= start,
        forall|k: int| 0 <= k < mask.len() ==> !is_wildcard(#[trigger] mask[k]),
    ensures
        sig_matches_at(data, start, pattern, mask) == (start + pattern.len() <= data.len()
            && data.subrange(start, start + pattern.len()) == pattern),
{
    if start + pattern.len() <= data.len() {
        let window = data.subrange(start, start + pattern.len());
        if sig_matches_at(data, start, pattern, mask) {
            assert forall|k: int| 0 <= k < pattern.len() implies window[k] == pattern[k] by {
                assert(!is_wildcard(mask[k]));
                assert(data[start + k] == pattern[k]);
            }
            assert(window =~= pattern);
        }
        if window == pattern {
            assert forall|k: int| 0 <= k < pattern.len() implies (is_wildcard(mask[k]) || data[start + k] == #[trigger] pattern[k]) by {
                assert(window[k] == data[start + k]);
            }
        }
    }
}

/// A mask made only of wildcards matches wherever the pattern fits.
pub proof fn lemma_all_wildcards_match_anywhere(data: Seq<u8>, start: int, pattern: Seq<u8>, mask: Seq<char>)
    requires
        mask.len() == pattern.len(),
        0 <= start,
        start + pattern.len() <= data.len(),
        forall|k: int| 0 <= k < mask.len() ==> is_wildcard(#[trigger] mask[k]),
    ensures
        sig_matches_at(data, start, pattern, mask),
{
}

/// Whether `block` holds exactly the bytes of `bytes`.
fn same_bytes(block: &[u8], bytes: &[u8]) -> (same: bool)
    ensures
        same == (block@ == bytes@),
{
    if block.len() != bytes.len() {
        return false;
    }
    let mut k: usize = 0;
    while k < bytes.len()
        invariant
            block@.len() == bytes@.len(),
            k <= bytes@.len(),
            forall|j: int| 0 <= j < k ==> block@[j] == bytes@[j],
        decreases bytes@.len() - k,
    {
        if block[k] != bytes[k] {
            return false;
        }
        k = k + 1;
    }
    assert(block@ =~= bytes@);
    true
}

/// What the driver of a byte scan has to do next.
pub enum ScanAction {
    /// Read `len` bytes of memory at `addr` and pass them (or `None` when
    /// they cannot all be read) to `advance`.
    Read { addr: usize, len: usize },
    /// The scan is over, with this outcome.
    Done(Option<usize>),
}

/// The abstract state of a byte scan.
pub struct ScanState {
    pub bytes: Seq<u8>,
    pub address: int,
    pub size: int,
    pub offset: int,
    pub found: Option<usize>,
}

/// Offset `i` of a region of `size` bytes can hold a pattern of `len`
/// bytes: it lies in the region and the pattern ends inside the region.
pub open spec fn scan_candidate(size: int, len: int, i: int) -> bool {
    0 <= i < size && i + len <= size
}

/// The scan behind `find_bytes`: for each offset `i` of the region of
/// `size` bytes at `address` that can hold the pattern, it reads the
/// pattern's length of memory at `address + i` and stops with `address + i`
/// at the first offset where those bytes are exactly `bytes`; offsets whose
/// memory cannot be read are skipped.
pub struct ByteScan {
    bytes: Vec<u8>,
    address: usize,
    size: usize,
    offset: usize,
    found: Option<usize>,
}

impl View for ByteScan {
    type V = ScanState;

    closed spec fn view(&self) -> ScanState {
        ScanState {
            bytes: self.bytes@,
            address: self.address as int,
            size: self.size as int,
            offset: self.offset as int,
            found: self.found,
        }
    }
}

/// The next action of a scan in state `s`.
pub open spec fn scan_action(s: ScanState) -> ScanAction {
    match s.found {
        Some(addr) => ScanAction::Done(Some(addr)),
        None => if !scan_candidate(s.size, s.bytes.len() as int, s.offset) {
            ScanAction::Done(None)
        } else {
            ScanAction::Read { addr: (s.address + s.offset) as usize, len: s.bytes.len() as usize }
        },
    }
}

/// The address of the next read of a scan in state `s` is representable.
pub open spec fn scan_ready(s: ScanState) -> bool {
    s.found is Some || !scan_candidate(s.size, s.bytes.len() as int, s.offset) || s.address + s.offset <= usize::MAX
}

/// The state of a scan in state `s` after the memory read at its current
/// offset (or the failure to read it) is handed to it.
pub open spec fn scan_advance(s: ScanState, block: Option<Seq<u8>>) -> ScanState {
    if block == Some(s.bytes) {
        ScanState { found: Some((s.address + s.offset) as usize), ..s }
    } else {
        ScanState { offset: s.offset + 1, ..s }
    }
}

impl ByteScan {
    #[verifier::type_invariant]
    spec fn offset_in_range(&self) -> bool {
        self.offset <= self.size
    }

    /// Starts a scan for `bytes` in the `size` bytes of memory at `address`.
    pub fn new(bytes: Vec<u8>, address: usize, size: u32) -> (scan: ByteScan)
        ensures
            scan@ == (ScanState { bytes: bytes@, address: address as int, size: size as int, offset: 0, found: None }),
    {
        ByteScan { bytes, address, size: size as usize, offset: 0, found: None }
    }

    /// Whether the next read address is representable (the scan would
    /// overflow the address computation otherwise).
    pub fn ready(&self) -> (b: bool)
        ensures
            b == scan_ready(self@),
    {
        proof { use_type_invariant(self); }
        self.found.is_some() || self.offset >= self.size || self.bytes.len() > self.size - self.offset
            || self.address <= usize::MAX - self.offset
    }

    /// What the driver has to do next.
    pub fn action(&self) -> (next: ScanAction)
        requires
            scan_ready(self@),
        ensures
            next == scan_action(self@),
    {
        proof { use_type_invariant(self); }
        match self.found {
            Some(addr) => ScanAction::Done(Some(addr)),
            None => if self.offset >= self.size || self.bytes.len() > self.size - self.offset {
                ScanAction::Done(None)
            } else {
                ScanAction::Read { addr: self.address + self.offset, len: self.bytes.len() }
            },
        }
    }

    /// Hands over the memory read at the current address, or `None` when it
    /// could not be read.
    pub fn advance(&mut self, block: Option<&[u8]>)
        requires
            old(self)@.found is None,
            scan_candidate(old(self)@.size, old(self)@.bytes.len() as int, old(self)@.offset),
            old(self)@.address + old(self)@.offset <= usize::MAX,
        ensures
            final(self)@ == scan_advance(old(self)@, match block { Some(b) => Some(b@), None => None }),
    {
        proof { use_type_invariant(&*self); }
        let hit = match block {
            Some(b) => same_bytes(b, self.bytes.as_slice()),
            None => false,
        };
        if hit {
            self.found = Some(self.address + self.offset);
        } else {
            self.offset = self.offset + 1;
        }
    }
}

/// The byte `k` places after `a` in the memory snapshot `mem`, if readable.
pub open spec fn mem_at(mem: spec_fn(int) -> Option<u8>, a: int, k: int) -> Option<u8> {
    mem(a + k)
}

/// The whole of `bytes` lies at address `a` in the memory snapshot `mem`.
pub open spec fn bytes_match_at(mem: spec_fn(int) -> Option<u8>, a: int, bytes: Seq<u8>) -> bool {
    forall|k: int| 0 <= k < bytes.len() ==> #[trigger] mem_at(mem, a, k) == Some(bytes[k])
}

/// The whole of `bytes` lies at offset `i` from `address` in `mem`.
pub open spec fn scan_hit(mem: spec_fn(int) -> Option<u8>, address: int, bytes: Seq<u8>, i: int) -> bool {
    bytes_match_at(mem, address + i, bytes)
}

/// Reading `n` bytes at `a` from the memory snapshot `mem`: the bytes, or
/// `None` when one of them is not readable.
pub open spec fn read_block(mem: spec_fn(int) -> Option<u8>, a: int, n: nat) -> Option<Seq<u8>> {
    if forall|k: int| 0 <= k < n ==> #[trigger] mem_at(mem, a, k) is Some {
        Some(Seq::new(n, |k: int| mem_at(mem, a, k)->0))
    } else {
        None
    }
}

proof fn lemma_read_block_matches(mem: spec_fn(int) -> Option<u8>, a: int, bytes: Seq<u8>)
    ensures
        (read_block(mem, a, bytes.len()) == Some(bytes)) == bytes_match_at(mem, a, bytes),
{
    if bytes_match_at(mem, a, bytes) {
        assert forall|k: int| 0 <= k < bytes.len() implies #[trigger] mem_at(mem, a, k) is Some by {
            assert(mem_at(mem, a, k) == Some(bytes[k]));
        }
        assert(Seq::new(bytes.len(), |k: int| mem_at(mem, a, k)->0) =~= bytes);
    }
    if read_block(mem, a, bytes.len()) == Some(bytes) {
        assert forall|k: int| 0 <= k < bytes.len() implies #[trigger] mem_at(mem, a, k) == Some(bytes[k]) by {
            assert(mem_at(mem, a, k) is Some);
            assert(Seq::new(bytes.len(), |k: int| mem_at(mem, a, k)->0)[k] == bytes[k]);
        }
    }
}

/// Drives a scan in state `s` for at most `fuel` reads, following the
/// actions it issues: each `Read { addr, len }` is answered with
/// `read_block(mem, addr, len)`. `Some(r)` when the scan announced
/// `Done(r)`, `None` when the fuel ran out first.
pub open spec fn scan_drive(s: ScanState, mem: spec_fn(int) -> Option<u8>, fuel: nat) -> Option<Option<usize>>
    decreases fuel,
{
    match scan_action(s) {
        ScanAction::Done(r) => Some(r),
        ScanAction::Read { addr, len } => if fuel == 0 {
            None
        } else {
            scan_drive(scan_advance(s, read_block(mem, addr as int, len as nat)), mem, (fuel - 1) as nat)
        },
    }
}

/// The outcome of driving a scan in state `s` to its end (at most one read
/// per remaining offset) when every read of `n` bytes at address `a` is
/// answered with `read_block(mem, a, n)`.
pub open spec fn scan_run(s: ScanState, mem: spec_fn(int) -> Option<u8>) -> Option<usize> {
    match scan_drive(s, mem, (s.size - s.offset) as nat) {
        Some(r) => r,
        None => None,
    }
}

proof fn lemma_scan_drive_from(s: ScanState, mem: spec_fn(int) -> Option<u8>, fuel: nat)
    requires
        s.found is None,
        0 <= s.offset <= s.size,
        fuel >= s.size - s.offset,
        s.size <= usize::MAX,
        0 <= s.address,
        s.address + s.size <= usize::MAX + 1,
    ensures
        match scan_drive(s, mem, fuel) {
            Some(Some(addr)) => exists|i: int|
                s.offset <= i && scan_candidate(s.size, s.bytes.len() as int, i) && addr == s.address + i
                    && #[trigger] scan_hit(mem, s.address, s.bytes, i)
                    && forall|j: int| s.offset <= j < i ==> !scan_hit(mem, s.address, s.bytes, j),
            Some(None) => forall|i: int|
                s.offset <= i && scan_candidate(s.size, s.bytes.len() as int, i)
                    ==> !scan_hit(mem, s.address, s.bytes, i),
            None => false,
        },
    decreases s.size - s.offset,
{
    if scan_candidate(s.size, s.bytes.len() as int, s.offset) {
        let a = s.address + s.offset;
        assert(a as usize as int == a);
        assert(s.bytes.len() as usize as nat == s.bytes.len());
        lemma_read_block_matches(mem, a, s.bytes);
        let next = scan_advance(s, read_block(mem, a, s.bytes.len()));
        assert(scan_drive(s, mem, fuel) == scan_drive(next, mem, (fuel - 1) as nat));
        if next.found is Some {
            assert(scan_hit(mem, s.address, s.bytes, s.offset));
        } else {
            assert(!scan_hit(mem, s.address, s.bytes, s.offset));
            lemma_scan_drive_from(next, mem, (fuel - 1) as nat);
            match scan_drive(s, mem, fuel) {
                Some(Some(addr)) => {
                    let i = choose|i: int|
                        next.offset <= i && scan_candidate(next.size, next.bytes.len() as int, i) && addr == next.address + i
                            && #[trigger] scan_hit(mem, next.address, next.bytes, i)
                            && forall|j: int| next.offset <= j < i ==> !scan_hit(mem, next.address, next.bytes, j);
                    assert forall|j: int| s.offset <= j < i implies !scan_hit(mem, s.address, s.bytes, j) by {
                        if j > s.offset {
                            assert(next.offset <= j < i);
                        }
                    }
                    assert(scan_hit(mem, s.address, s.bytes, i));
                },
                Some(None) => {
                    assert forall|i: int|
                        s.offset <= i && scan_candidate(s.size, s.bytes.len() as int, i)
                        implies !scan_hit(mem, s.address, s.bytes, i) by {
                        if i > s.offset {
                            assert(next.offset <= i);
                        }
                    }
                },
                None => {},
            }
        }
    } else {
        assert forall|i: int|
            s.offset <= i && scan_candidate(s.size, s.bytes.len() as int, i)
            implies !scan_hit(mem, s.address, s.bytes, i) by {
            assert(!scan_candidate(s.size, s.bytes.len() as int, i));
        }
    }
}

/// Driving the scan that `find_bytes` performs, answering each read it
/// issues from a memory snapshot `mem` (`mem(a)` is the byte at address `a`,
/// `None` when unreadable), ends within `size` reads, and ends with the least
/// address `address + i` where the whole of `bytes` lies inside the region
/// of `size` bytes at `address`, or with nothing when there is none.
pub proof fn lemma_scan_finds_first_hit(mem: spec_fn(int) -> Option<u8>, bytes: Seq<u8>, address: usize, size: u32)
    requires
        address + size <= usize::MAX + 1,
    ensures
        scan_drive(ScanState { bytes, address: address as int, size: size as int, offset: 0, found: None }, mem, size as nat)
            == Some(scan_run(ScanState { bytes, address: address as int, size: size as int, offset: 0, found: None }, mem)),
        match scan_run(ScanState { bytes, address: address as int, size: size as int, offset: 0, found: None }, mem) {
            Some(addr) => exists|i: int|
                scan_candidate(size as int, bytes.len() as int, i) && addr == address + i
                    && #[trigger] scan_hit(mem, address as int, bytes, i)
                    && forall|j: int| 0 <= j < i ==> !scan_hit(mem, address as int, bytes, j),
            None => forall|i: int|
                scan_candidate(size as int, bytes.len() as int, i) ==> !scan_hit(mem, address as int, bytes, i),
        },
{
    lemma_scan_drive_from(ScanState { bytes, address: address as int, size: size as int, offset: 0, found: None }, mem, size as nat);
}

} // verus!
