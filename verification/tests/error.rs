use peel::error::{ErrorType, PeelError};

use std::io;

#[test]
fn success_convert_from_io_error() {
    let io_error = io::Error::new(io::ErrorKind::NotFound, "Not found");
    let peel_error = PeelError::from_io_error(io_error);
    assert_eq!(peel_error.description, "Not found".to_string());
    assert_eq!(peel_error.code, ErrorType::Other);
}

#[test]
fn new_error_keeps_code_and_description() {
    let err = PeelError::new(ErrorType::NoTreeRoot, "no tree root found");
    assert_eq!(err.code, ErrorType::NoTreeRoot);
    assert_eq!(err.description, "no tree root found");
}
