use rev_toolkit::utils::{file_leaf, key_combo_state, key_held_state, key_state, resolve_file};
use rev_toolkit::RTStatus;

#[test]
fn key_state_low_bit() {
    assert!(key_state(1));
    assert!(key_state(-32767));
    assert!(!key_state(0));
    assert!(!key_state(-32768));
    assert!(!key_state(2));
}

#[test]
fn key_held_state_high_bit() {
    assert!(key_held_state(-32768));
    assert!(key_held_state(-1));
    assert!(!key_held_state(0));
    assert!(!key_held_state(1));
}

#[test]
fn key_combo_requires_both() {
    assert!(key_combo_state(-32768, 1));
    assert!(!key_combo_state(0, 1));
    assert!(!key_combo_state(-32768, 0));
    assert!(key_combo_state(-32767, -32767));
}

#[test]
fn file_leaf_cases() {
    assert_eq!(file_leaf("\\\\?\\C:\\Users\\me\\payload.dll"), "payload.dll");
    assert_eq!(file_leaf("C:/tools/inject/x.dll"), "x.dll");
    assert_eq!(file_leaf("plain.dll"), "plain.dll");
    assert_eq!(file_leaf("C:\\dir\\"), "");
}

#[test]
fn resolve_file_cases() {
    match resolve_file(Some("\\\\?\\C:\\dlls\\hack.dll"), true) {
        Ok(leaf) => assert_eq!(leaf, "hack.dll"),
        Err(_) => panic!("expected a file name"),
    }
    assert!(matches!(resolve_file(Some("C:\\dlls"), false), Err(RTStatus::InvalidFilePath)));
    assert!(matches!(resolve_file(None, true), Err(RTStatus::InvalidFilePath)));
    assert!(matches!(resolve_file(None, false), Err(RTStatus::InvalidFilePath)));
}
