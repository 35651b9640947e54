use rev_toolkit::pattern::{eval_sig, find_pattern, ByteScan, ScanAction};

#[test]
fn eval_sig_exact_and_wildcards() {
    let data = [0x48u8, 0x8B, 0x05, 0x10, 0x20, 0x30, 0x40, 0x90];
    assert!(eval_sig(&data, &[0x48, 0x8B, 0x05], "xxx"));
    assert!(eval_sig(&data, &[0x48, 0x00, 0x05, 0x00], "x?x?"));
    assert!(!eval_sig(&data, &[0x48, 0x8C, 0x05], "xxx"));
    assert!(eval_sig(&data, &[0x48, 0x8C, 0x05], "x?x"));
}

#[test]
fn eval_sig_mask_length_must_match() {
    let data = [1u8, 2, 3];
    assert!(!eval_sig(&data, &[1, 2], "x"));
    assert!(!eval_sig(&data, &[1], "xx"));
}

#[test]
fn eval_sig_pattern_longer_than_data() {
    assert!(!eval_sig(&[1u8, 2], &[1, 2, 3], "xxx"));
    assert!(!eval_sig(&[1u8, 2], &[0, 0, 0], "???"));
}

#[test]
fn eval_sig_empty_pattern() {
    assert!(eval_sig(&[], &[], ""));
    assert!(eval_sig(&[7u8], &[], ""));
}

#[test]
fn find_pattern_first_match() {
    let memory = [0u8, 0xAA, 0xBB, 0xCC, 0xAA, 0xBB, 0xDD];
    assert_eq!(find_pattern(&memory, 0x1000, &[0xAA, 0xBB], "xx"), Some(0x1001));
    assert_eq!(find_pattern(&memory, 0x1000, &[0xAA, 0xBB, 0xDD], "xxx"), Some(0x1004));
    assert_eq!(find_pattern(&memory, 0x1000, &[0xAA, 0x00, 0xDD], "x?x"), Some(0x1004));
}

#[test]
fn find_pattern_none() {
    let memory = [1u8, 2, 3, 4];
    assert_eq!(find_pattern(&memory, 0x400000, &[3, 5], "xx"), None);
    assert_eq!(find_pattern(&memory, 0x400000, &[4, 5], "x?"), None);
    assert_eq!(find_pattern(&memory, 0x400000, &[3, 4], "x"), None);
}

#[test]
fn find_pattern_at_end_and_empty() {
    let memory = [1u8, 2, 3, 4];
    assert_eq!(find_pattern(&memory, 10, &[3, 4], "xx"), Some(12));
    assert_eq!(find_pattern(&memory, 10, &[], ""), Some(10));
    assert_eq!(find_pattern(&[], 10, &[], ""), Some(10));
}

#[test]
fn find_pattern_accepted_by_eval_sig() {
    let memory = [9u8, 8, 7, 6, 5, 4];
    let found = find_pattern(&memory, 100, &[7, 0, 5], "x?x").unwrap();
    assert!(eval_sig(&memory[found - 100..], &[7, 0, 5], "x?x"));
}

/// Drives a byte scan against a memory made of a base address and bytes;
/// reads touching anything outside it, or an unreadable address, fail.
fn drive_scan(mut scan: ByteScan, mem_base: usize, mem: &[u8], unreadable: &[usize]) -> (Option<usize>, Vec<usize>) {
    let mut reads = Vec::new();
    loop {
        assert!(scan.ready());
        match scan.action() {
            ScanAction::Done(result) => return (result, reads),
            ScanAction::Read { addr, len } => {
                reads.push(addr);
                let readable = addr >= mem_base
                    && addr + len <= mem_base + mem.len()
                    && !unreadable.iter().any(|u| *u >= addr && *u < addr + len);
                if readable {
                    let start = addr - mem_base;
                    scan.advance(Some(&mem[start..start + len]));
                } else {
                    scan.advance(None);
                }
            }
        }
    }
}

#[test]
fn byte_scan_reports_match_address() {
    let mut mem = vec![0u8; 64];
    mem[5] = 0xAA;
    mem[6] = 0xBB;
    let scan = ByteScan::new(vec![0xAA, 0xBB], 0x5000, 8);
    let (result, reads) = drive_scan(scan, 0x5000, &mem, &[]);
    assert_eq!(result, Some(0x5005));
    assert_eq!(reads, vec![0x5000, 0x5001, 0x5002, 0x5003, 0x5004, 0x5005]);
}

#[test]
fn byte_scan_long_pattern() {
    let mem = vec![7u8; 128];
    let scan = ByteScan::new(vec![7u8; 40], 0x9000, 40);
    assert_eq!(drive_scan(scan, 0x9000, &mem, &[]).0, Some(0x9000));
    // the pattern must end inside the region
    let scan = ByteScan::new(vec![7u8; 40], 0x9000, 39);
    assert_eq!(drive_scan(scan, 0x9000, &mem, &[]).0, None);
}

#[test]
fn byte_scan_skips_unreadable_and_missing() {
    let mut mem = vec![0u8; 100];
    mem[50] = 0xDE;
    mem[51] = 0xAD;
    mem[70] = 0xDE;
    mem[71] = 0xAD;
    let scan = ByteScan::new(vec![0xDE, 0xAD], 0x5000, 80);
    let (result, _) = drive_scan(scan, 0x5000, &mem, &[0x5033]);
    assert_eq!(result, Some(0x5000 + 70));
    let scan = ByteScan::new(vec![0xBE, 0xEF], 0x5000, 40);
    let (result, reads) = drive_scan(scan, 0x5000, &mem, &[]);
    assert_eq!(result, None);
    assert_eq!(reads.len(), 39);
}

#[test]
fn byte_scan_empty_size() {
    let scan = ByteScan::new(vec![1], 0x10, 0);
    let (result, reads) = drive_scan(scan, 0x10, &[1, 1, 1], &[]);
    assert_eq!(result, None);
    assert!(reads.is_empty());
}

#[test]
fn byte_scan_not_ready_on_overflow() {
    let scan = ByteScan::new(vec![1], usize::MAX, 2);
    assert!(scan.ready());
    let mut scan = scan;
    scan.advance(None);
    assert!(!scan.ready());
}

#[test]
fn all_wildcards_match_wherever_pattern_fits() {
    let memory = [5u8, 6, 7];
    assert!(eval_sig(&memory, &[0, 0, 0], "???"));
    assert_eq!(find_pattern(&memory, 0x20, &[1, 2], "??"), Some(0x20));
}
