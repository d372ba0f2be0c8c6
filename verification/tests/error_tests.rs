use univer::ErrorKind;
use univer::UniverError;

#[test]
fn new_keeps_kind_and_message() {
    let e = UniverError::new(ErrorKind::Validation, "something is wrong".to_string());
    assert_eq!(e.kind, ErrorKind::Validation);
    assert_eq!(e.message(), "something is wrong");
}

#[test]
fn errors_with_equal_parts_are_equal() {
    let a = UniverError::new(ErrorKind::Io, "cannot read".to_string());
    let b = UniverError::new(ErrorKind::Io, "cannot read".to_string());
    assert_eq!(a, b);
}
