use ufbx::error::{ERROR_INFO_LENGTH, ERROR_STACK_MAX_DEPTH};
use ufbx::error_info::{Error, ErrorFrame, ErrorType};

#[test]
fn mod_test_error_type_descriptions() {
    assert_eq!(ErrorType::NoError.description(), "No error");
    assert_eq!(ErrorType::FileNotFound.description(), "File not found");
    assert_eq!(ErrorType::OutOfMemory.description(), "Out of memory");
}

#[test]
fn test_error_creation() {
    let err = Error::new(ErrorType::FileNotFound).with_info("test.fbx");
    assert_eq!(err.error_type, ErrorType::FileNotFound);
    assert_eq!(err.info, "test.fbx");
    assert!(err.is_err());
}

#[test]
fn mod_test_error_stack() {
    let mut err = Error::new(ErrorType::Unknown);
    for i in 0..10 {
        let function = format!("function_{}", i);
        let description = format!("description_{}", i);
        err.push_frame(ErrorFrame::new(i as u32, &function, &description));
    }
    assert_eq!(err.stack.len(), ERROR_STACK_MAX_DEPTH);
}

#[test]
fn mod_test_error_display() {
    let mut err = Error::new(ErrorType::FileNotFound).with_info("missing.fbx");
    err.push_frame(ErrorFrame::new(42, "load_file", "Failed to open file"));
    let display = err.to_string();
    assert!(display.contains("File not found"));
    assert!(display.contains("missing.fbx"));
    assert!(display.contains("Stack trace"));
}

#[test]
fn mod_test_utf8_cleaning() {
    let long_str = "a".repeat(300);
    let cleaned = Error::clean_utf8(&long_str, ERROR_INFO_LENGTH);
    assert!(cleaned.len() <= ERROR_INFO_LENGTH);
}

#[test]
fn test_error_clear() {
    let mut err = Error::new(ErrorType::OutOfMemory).with_info("allocation failed");
    err.push_frame(ErrorFrame::new(10, "allocate", "failed"));
    err.clear();
    assert_eq!(err.error_type, ErrorType::NoError);
    assert!(err.stack.is_empty());
    assert!(err.info.is_empty());
    assert!(!err.is_err());
}
