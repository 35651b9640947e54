use rev_toolkit::status::InjectError;
use rev_toolkit::RTStatus;

#[test]
fn basic_test() {
    assert_eq!(1, 1);
}

#[test]
fn rt_status_messages() {
    assert_eq!(RTStatus::InvalidProcess.message(), "Invalid process specified");
    assert_eq!(RTStatus::MemoryAllocError.message(), "Failed to allocate memory on target");
    assert_eq!(RTStatus::MemoryWriteError.message(), "Failed to write to memory on target");
    assert_eq!(RTStatus::SpawnThreadError.message(), "Failed to spawn remote thread on target");
    assert_eq!(RTStatus::InvalidFilePath.message(), "Invalid file path was provided");
    assert_eq!(
        RTStatus::InjectionFail.message(),
        "Injection failed. Could not verify the presence of DLL."
    );
}

#[test]
fn inject_error_messages() {
    assert_eq!(InjectError::InvalidProcess.message(), "Invalid process specified");
    assert_eq!(InjectError::MemoryAllocError.message(), "Failed to allocate memory on target");
    assert_eq!(InjectError::MemoryWriteError.message(), "Failed to write to memory on target");
    assert_eq!(InjectError::SpawnThreadError.message(), "Failed to spawn remote thread on target");
    assert_eq!(InjectError::InvalidDLLPath.message(), "Invalid DLL path was provided");
    assert_eq!(
        InjectError::InjectionFail.message(),
        "Injection failed. Could not verify the presence of DLL."
    );
}
