use rev_toolkit::inject::{InjectAction, InjectPlan, Injection, PATH_BUFFER_SIZE};
use rev_toolkit::memory::ModuleEntry;
use rev_toolkit::{Injector, Process, RTStatus};

fn planned(path: &str) -> InjectPlan {
    match Injector::plan(Some(path), true) {
        Ok(plan) => plan,
        Err(_) => panic!("file refused"),
    }
}

fn injector(path: &str) -> Injector {
    match Injector::new(planned(path), Process { pid: 1234, handle: 88 }) {
        Ok(inj) => inj,
        Err(_) => panic!("valid target refused"),
    }
}

/// Drives an injection with the given outcomes, recording the actions.
fn drive(run: &mut Injection, buffer: usize, write_ok: bool, modules: &[ModuleEntry]) -> (Result<(), RTStatus>, Vec<String>) {
    let mut log = Vec::new();
    loop {
        match run.action() {
            InjectAction::Allocate { handle, size } => {
                log.push(format!("alloc {} {}", handle, size));
                run.allocated(buffer);
            }
            InjectAction::Write { handle, buffer, payload } => {
                log.push(format!("write {} {:x} {:?}", handle, buffer, payload));
                run.written(write_ok);
            }
            InjectAction::Load { handle, buffer } => {
                log.push(format!("load {} {:x}", handle, buffer));
                run.loaded();
            }
            InjectAction::ListModules { pid } => {
                log.push(format!("modules {}", pid));
                run.modules_listed(modules);
            }
            InjectAction::Finished(outcome) => return (outcome, log),
        }
    }
}

#[test]
fn plan_resolves_before_binding() {
    assert!(matches!(Injector::plan(None, true), Err(RTStatus::InvalidFilePath)));
    assert!(matches!(Injector::plan(Some("C:\\dlls"), false), Err(RTStatus::InvalidFilePath)));
    let inj = injector("C:\\dlls\\hack.dll");
    assert_eq!(inj.dll_path(), "C:\\dlls\\hack.dll");
    assert_eq!(inj.dll_file(), "hack.dll");
}

#[test]
fn new_rejects_invalid_process() {
    assert!(matches!(
        Injector::new(planned("a.dll"), Process { pid: 0, handle: 0 }),
        Err(RTStatus::InvalidProcess)
    ));
    assert!(matches!(
        Injector::from_handle(planned("a.dll"), Process { pid: 0, handle: 0 }),
        Err(RTStatus::InvalidProcess)
    ));
    assert!(Injector::from_handle(planned("a.dll"), Process { pid: 0, handle: 5 }).is_ok());
}

#[test]
fn long_path_gets_large_enough_buffer() {
    let long = format!("C:\\{}\\x.dll", "d".repeat(400));
    let inj = injector(&long);
    let run = inj.inject();
    match run.action() {
        InjectAction::Allocate { size, .. } => assert_eq!(size, long.len() + 1),
        _ => panic!("expected an allocation first"),
    }
}

#[test]
fn injection_succeeds() {
    let inj = injector("C:\\dlls\\hack.dll");
    let mut run = inj.inject();
    let modules = vec![ModuleEntry { module: b"hack.dll\0\0".to_vec(), base: 0x1000 }];
    let (outcome, log) = drive(&mut run, 0xABC000, true, &modules);
    assert!(outcome.is_ok());
    let mut payload: Vec<u8> = b"C:\\dlls\\hack.dll".to_vec();
    payload.push(0);
    assert_eq!(
        log,
        vec![
            format!("alloc 88 {}", PATH_BUFFER_SIZE),
            format!("write 88 abc000 {:?}", payload),
            "load 88 abc000".to_string(),
            "modules 1234".to_string(),
        ]
    );
}

#[test]
fn injection_alloc_failure() {
    let inj = injector("C:\\dlls\\hack.dll");
    let mut run = inj.inject();
    let (outcome, log) = drive(&mut run, 0, true, &[]);
    assert!(matches!(outcome, Err(RTStatus::MemoryAllocError)));
    assert_eq!(log.len(), 1);
}

#[test]
fn injection_write_failure() {
    let inj = injector("C:\\dlls\\hack.dll");
    let mut run = inj.inject();
    let (outcome, log) = drive(&mut run, 0x1000, false, &[]);
    assert!(matches!(outcome, Err(RTStatus::MemoryWriteError)));
    assert_eq!(log.len(), 2);
}

#[test]
fn injection_module_missing() {
    let inj = injector("C:\\dlls\\hack.dll");
    let mut run = inj.inject();
    let modules = vec![ModuleEntry { module: b"other.dll".to_vec(), base: 0x1000 }];
    let (outcome, _) = drive(&mut run, 0x1000, true, &modules);
    assert!(matches!(outcome, Err(RTStatus::InjectionFail)));
}
