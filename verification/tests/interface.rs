use rev_toolkit::cli::{CliArgs, CliCmd};
use rev_toolkit::interface::Interface;
use rev_toolkit::status::InjectError;

#[test]
fn interface_starts_blank() {
    let ui = Interface::new();
    assert_eq!(ui.target(), "");
    assert_eq!(ui.dll_path(), "None");
    assert_eq!(ui.status(), "");
}

#[test]
fn interface_status_lines() {
    let mut ui = Interface::new();
    ui.set_target("wesnoth.exe");
    ui.select_dll("C:\\hack.dll");
    ui.record_result(Ok(()));
    assert_eq!(ui.status(), "OK: Successfully injected");
    ui.record_result(Err(InjectError::InvalidDLLPath));
    assert_eq!(ui.status(), "ERR: Invalid DLL path was provided");
    assert_eq!(ui.target(), "wesnoth.exe");
    assert_eq!(ui.dll_path(), "C:\\hack.dll");
}

#[test]
fn cli_args_hold_command() {
    let args = CliArgs { command: Some(CliCmd::Cli { target: 42, dll_path: "x.dll".to_string() }) };
    match args.command {
        Some(CliCmd::Cli { target, dll_path }) => {
            assert_eq!(target, 42);
            assert_eq!(dll_path, "x.dll");
        }
        None => panic!("command lost"),
    }
}
