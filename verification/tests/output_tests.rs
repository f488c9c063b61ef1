//! Tests of output path validation.

use std::path::Path;

use stylus_trace_core::output::{validate_path, OutputPathError};

#[test]
fn test_validate_output_path_empty() {
    let path = Path::new("");
    let result = validate_path(path.to_str().unwrap(), path.is_dir());
    assert!(result.is_err());
}

#[test]
fn test_validate_output_path_directory() {
    // Try to write to a directory path
    let dir = Path::new(".");
    let result = validate_path(dir.to_str().unwrap(), dir.is_dir());
    assert!(result.is_err());
    assert_eq!(result.unwrap_err(), OutputPathError::IsDirectory);
}
