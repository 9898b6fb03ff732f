use tokmat::error::ParseError;

#[test]
fn test_error_display() {
    let err = ParseError::InvalidPattern("unbalanced <<>>".to_string());
    assert_eq!(err.message(), "Invalid pattern: unbalanced <<>>");

    let err = ParseError::InvalidModel("missing tokenizer directory".to_string());
    assert_eq!(err.message(), "Invalid model: missing tokenizer directory");

    let err = ParseError::InvalidTokenDefinition("bad regex in .param2".to_string());
    assert_eq!(
        err.message(),
        "Invalid token definition: bad regex in .param2"
    );
}

#[test]
fn io_errors_are_carried() {
    let io = std::io::Error::new(std::io::ErrorKind::NotFound, "no such model");
    let err = ParseError::from(io);
    assert!(matches!(err, ParseError::Io(_)));
    assert_eq!(err.message(), "IO error: no such model");
}
