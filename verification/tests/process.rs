use rev_toolkit::memory::ModuleEntry;
use rev_toolkit::Process;

#[test]
fn is_valid_cases() {
    assert!(!Process { pid: 0, handle: 0 }.is_valid());
    assert!(Process { pid: 10, handle: 0 }.is_valid());
    assert!(Process { pid: 0, handle: -1 }.is_valid());
}

#[test]
fn query_module_and_addr() {
    let modules = vec![
        ModuleEntry { module: b"game.exe\0\0\0".to_vec(), base: 0x400000 },
        ModuleEntry { module: b"cheat.dll\0".to_vec(), base: 0x1000_0000 },
    ];
    let p = Process { pid: 42, handle: 7 };
    assert!(p.query_module(&modules, "cheat.dll"));
    assert_eq!(p.query_module_addr(&modules, "cheat.dll"), Some(0x1000_0000));
    assert!(!p.query_module(&modules, "cheat"));
    assert_eq!(p.query_module_addr(&modules, "cheat"), None);
    assert_eq!(p.query_module_addr(&modules, "game.exe"), Some(0x400000));
}
