use ufbx::error::{Error, ErrorFrame, ErrorStack, ERROR_INFO_LENGTH, ERROR_STACK_MAX_DEPTH};
use ufbx::text::clean_utf8;

#[test]
fn error_test_error_display() {
    let err = Error::FileNotFound { path: "test.fbx".to_string() };
    assert_eq!(err.to_string(), "File not found: test.fbx");

    let err = Error::OutOfMemory { size: 1024 };
    assert_eq!(err.to_string(), "Out of memory: failed to allocate 1024 bytes");
}

#[test]
fn test_error_codes() {
    assert_eq!(Error::file_not_found("test").to_error_code(), 2);
    assert_eq!(Error::Cancelled.to_error_code(), 10);
    assert_eq!(Error::unknown("test").to_error_code(), 1);
}

#[test]
fn error_test_error_type_descriptions() {
    let err = Error::FileNotFound { path: "test.fbx".to_string() };
    assert_eq!(err.type_description(), "File not found");

    let err = Error::OutOfMemory { size: 100 };
    assert_eq!(err.type_description(), "Out of memory");
}

#[test]
fn error_test_error_stack() {
    let mut stack = ErrorStack::new();
    for i in 0..10 {
        let function = format!("function_{}", i);
        let description = format!("description_{}", i);
        stack.push_frame(ErrorFrame::new(i as u32, &function, &description));
    }
    assert_eq!(stack.frames.len(), ERROR_STACK_MAX_DEPTH);
}

#[test]
fn test_error_with_stack() {
    let mut stack = ErrorStack::new();
    stack.push_frame(ErrorFrame::new(42, "load_file", "Failed to open file"));
    stack.set_info("additional context");

    let err = Error::unknown_with_stack("parsing failed", stack);
    let display = err.to_string();
    assert!(display.contains("Unknown error"));
    assert!(display.contains("parsing failed"));
}

#[test]
fn error_test_utf8_cleaning() {
    let long_str = "a".repeat(300);
    let cleaned = clean_utf8(&long_str, ERROR_INFO_LENGTH);
    assert!(cleaned.len() <= ERROR_INFO_LENGTH);
}

#[test]
fn test_io_error_conversion() {
    let io_err = std::io::Error::new(std::io::ErrorKind::NotFound, "file missing");
    let err: Error = io_err.into();
    match err {
        Error::FileNotFound { .. } => {}
        _ => panic!("Expected FileNotFound error"),
    }
}

#[test]
fn test_error_helpers() {
    let err = Error::file_not_found("missing.fbx");
    assert!(err.to_string().contains("missing.fbx"));

    let io_err = std::io::Error::new(std::io::ErrorKind::PermissionDenied, "access denied");
    let err = Error::from_io_error(io_err);
    assert!(err.to_string().contains("access denied"));
}

#[test]
fn test_check_macro() {
    let check = |value: bool| -> Result<(), Error> {
        if !value {
            return Err(Error::Cancelled);
        }
        Ok(())
    };
    assert!(check(true).is_ok());
    assert!(check(false).is_err());
}
