use rev_toolkit::memory::{
    get_module_base, get_name, get_pid, map_modules, module_names_are_utf8, ChainAction, ChainWalker, CStrReader,
    ModuleEntry, ProcessEntry, StrAction,
};
use std::collections::HashMap;

fn padded(name: &str, width: usize) -> Vec<u8> {
    let mut s = name.as_bytes().to_vec();
    while s.len() < width {
        s.push(0);
    }
    s
}

fn walk(base: usize, offsets: &[usize], mem: &HashMap<usize, usize>) -> (Option<usize>, Vec<usize>) {
    let mut walker = ChainWalker::new(base, offsets);
    let mut reads = Vec::new();
    loop {
        assert!(walker.ready());
        match walker.action() {
            ChainAction::Done(result) => return (result, reads),
            ChainAction::Read(addr) => {
                reads.push(addr);
                walker.advance(mem.get(&addr).copied());
            }
        }
    }
}

#[test]
fn chain_follows_each_offset() {
    let mut mem = HashMap::new();
    mem.insert(0x1000 + 0x60, 0x2000);
    mem.insert(0x2000 + 0xa90, 0x3000);
    let (result, reads) = walk(0x1000, &[0x60, 0xa90], &mem);
    assert_eq!(result, Some(0x2a90));
    assert_eq!(reads, vec![0x1060]);
    let (result, reads) = walk(0x1000, &[0x60, 0xa90, 0x4], &mem);
    assert_eq!(result, Some(0x3004));
    assert_eq!(reads, vec![0x1060, 0x2a90]);
}

#[test]
fn chain_single_offset_reads_nothing() {
    let mem = HashMap::new();
    assert_eq!(walk(0x1000, &[0x10], &mem), (Some(0x1010), vec![]));
}

#[test]
fn chain_without_offsets_is_base() {
    let mem = HashMap::new();
    assert_eq!(walk(0x1234, &[], &mem), (Some(0x1234), vec![]));
}

#[test]
fn chain_stops_on_failed_read() {
    let mut mem = HashMap::new();
    mem.insert(0x10, 0x100);
    let (result, reads) = walk(0x0, &[0x10, 0x4, 0x8], &mem);
    assert_eq!(result, None);
    assert_eq!(reads, vec![0x10, 0x104]);
    assert_eq!(walk(0x0, &[0x10, 0x4], &mem), (Some(0x104), vec![0x10]));
}

#[test]
fn chain_detects_overflow() {
    let mut walker = ChainWalker::new(usize::MAX, &[1]);
    assert!(!walker.ready());
    walker = ChainWalker::new(usize::MAX - 1, &[1]);
    assert!(walker.ready());
    assert!(matches!(walker.action(), ChainAction::Done(Some(usize::MAX))));
}

fn read_cstr(start: u64, mem: &HashMap<u64, u8>) -> (Option<(String, usize)>, usize) {
    let mut reader = CStrReader::new(start);
    let mut reads = 0;
    loop {
        assert!(reader.ready());
        match reader.action() {
            StrAction::Done => return (reader.finish(), reads),
            StrAction::Read(addr) => {
                reads += 1;
                reader.feed(*mem.get(&addr).unwrap());
            }
        }
    }
}

#[test]
fn cstr_reads_up_to_nul() {
    let mut mem = HashMap::new();
    for (i, b) in b"DefaultString\0tail".iter().enumerate() {
        mem.insert(0x7000 + i as u64, *b);
    }
    let (result, reads) = read_cstr(0x7000, &mem);
    assert_eq!(result, Some(("DefaultString".to_string(), 13)));
    assert_eq!(reads, 14);
}

#[test]
fn cstr_empty_and_utf8() {
    let mut mem = HashMap::new();
    mem.insert(5u64, 0u8);
    assert_eq!(read_cstr(5, &mem).0, Some((String::new(), 0)));
    let mut mem = HashMap::new();
    for (i, b) in "é!\0".as_bytes().iter().enumerate() {
        mem.insert(i as u64, *b);
    }
    assert_eq!(read_cstr(0, &mem).0, Some(("é!".to_string(), 3)));
}

#[test]
fn cstr_invalid_utf8_is_none() {
    let mut mem = HashMap::new();
    mem.insert(0u64, 0xFFu8);
    mem.insert(1u64, 0u8);
    assert_eq!(read_cstr(0, &mem).0, None);
}

#[test]
fn cstr_not_ready_at_end_of_address_space() {
    let mut reader = CStrReader::new(u64::MAX);
    assert!(reader.ready());
    reader.feed(b'a');
    assert!(!reader.ready());
}

fn processes() -> Vec<ProcessEntry> {
    vec![
        ProcessEntry { pid: 4, exe_file: padded("System", 260) },
        ProcessEntry { pid: 812, exe_file: padded("explorer.exe", 260) },
        ProcessEntry { pid: 1337, exe_file: padded("dummy.exe", 260) },
        ProcessEntry { pid: 2000, exe_file: padded("dummy.exe", 260) },
    ]
}

#[test]
fn get_pid_first_substring_match() {
    let entries = processes();
    assert_eq!(get_pid(&entries, "dummy.exe"), Some(1337));
    assert_eq!(get_pid(&entries, "dummy"), Some(1337));
    assert_eq!(get_pid(&entries, "explorer.exe"), Some(812));
    assert_eq!(get_pid(&entries, "notepad.exe"), Some(0));
    assert_eq!(get_pid(&[], "dummy.exe"), Some(0));
    // the empty name occurs in every name
    assert_eq!(get_pid(&entries, ""), Some(4));
}

#[test]
fn get_pid_stops_at_undecodable_name() {
    let mut entries = processes();
    entries.insert(1, ProcessEntry { pid: 9, exe_file: vec![0xFF, 0] });
    assert_eq!(get_pid(&entries, "System"), Some(4));
    assert_eq!(get_pid(&entries, "dummy.exe"), None);
}

#[test]
fn get_name_trims_padding() {
    let entries = processes();
    assert_eq!(get_name(&entries, 812), Some("explorer.exe".to_string()));
    assert_eq!(get_name(&entries, 2000), Some("dummy.exe".to_string()));
    assert_eq!(get_name(&entries, 99), Some(String::new()));
    let odd = vec![ProcessEntry { pid: 1, exe_file: b"\0\0a\0b\0\0".to_vec() }];
    assert_eq!(get_name(&odd, 1), Some("a\0b".to_string()));
    let blank = vec![ProcessEntry { pid: 1, exe_file: vec![0, 0, 0] }];
    assert_eq!(get_name(&blank, 1), Some(String::new()));
}

#[test]
fn get_name_decodes_only_the_match() {
    let entries = vec![
        ProcessEntry { pid: 1, exe_file: vec![0xFF, 0] },
        ProcessEntry { pid: 2, exe_file: padded("ok.exe", 16) },
    ];
    assert_eq!(get_name(&entries, 2), Some("ok.exe".to_string()));
    assert_eq!(get_name(&entries, 1), None);
}

#[test]
fn get_pid_of_get_name_round_trip() {
    let entries = processes();
    let name = get_name(&entries, 812).unwrap();
    assert_eq!(get_pid(&entries, &name), Some(812));
}

fn modules() -> Vec<ModuleEntry> {
    vec![
        ModuleEntry { module: padded("dummy.exe", 256), base: 0x400000 },
        ModuleEntry { module: padded("kernel32.dll", 256), base: 0x7ff0_0000 },
        ModuleEntry { module: padded("payload.dll", 256), base: 0x1000_0000 },
        ModuleEntry { module: padded("payload.dll", 256), base: 0x2000_0000 },
    ]
}

#[test]
fn get_module_base_first_match() {
    let entries = modules();
    assert_eq!(get_module_base(&entries, "kernel32"), Some(0x7ff0_0000));
    assert_eq!(get_module_base(&entries, "payload.dll"), Some(0x1000_0000));
    assert_eq!(get_module_base(&entries, "user32.dll"), Some(0));
}

#[test]
fn map_modules_last_wins() {
    let entries = modules();
    assert!(module_names_are_utf8(&entries));
    let table = map_modules(&entries);
    assert!(table.contains_key("dummy.exe"));
    assert!(!table.contains_key("dummy"));
    assert_eq!(table.get("kernel32.dll"), Some(0x7ff0_0000));
    assert_eq!(table.get("payload.dll"), Some(0x2000_0000));
    assert_eq!(table.get("user32.dll"), None);
    let empty = map_modules(&[]);
    assert!(!empty.contains_key(""));
}

#[test]
fn module_names_are_utf8_detects_bad_name() {
    let mut entries = modules();
    assert!(module_names_are_utf8(&entries));
    entries.push(ModuleEntry { module: vec![0xC3], base: 1 });
    assert!(!module_names_are_utf8(&entries));
}
