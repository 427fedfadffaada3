use c2_tracker::runtime::{
    env_file_text, read_runtime_token, token_from_bytes, update_runtime_port, write_runtime_token, RuntimeError,
    DEFAULT_PORT,
};

#[test]
fn reading_the_runtime_file() {
    assert_eq!(
        read_runtime_token(r#"{"port":1234,"token":"ct_abc"}"#),
        Ok((1234, "ct_abc".to_string()))
    );
    assert_eq!(read_runtime_token(r#"{"token":"t"}"#), Ok((DEFAULT_PORT, "t".to_string())));
    assert_eq!(read_runtime_token(r#"{"port":"80","token":"t"}"#), Ok((9786, "t".to_string())));
    assert_eq!(read_runtime_token(r#"{"port":70000,"token":"t"}"#), Ok((4464, "t".to_string())));
    assert_eq!(read_runtime_token(r#"{"port":-1,"token":"t"}"#), Ok((9786, "t".to_string())));
    assert_eq!(read_runtime_token(r#"{"port":1}"#), Err(RuntimeError::MissingToken));
    assert_eq!(read_runtime_token(r#"{"token":5}"#), Err(RuntimeError::MissingToken));
    assert_eq!(read_runtime_token("[]"), Err(RuntimeError::MissingToken));
    assert_eq!(read_runtime_token("{"), Err(RuntimeError::InvalidJson));
}

#[test]
fn written_file_reads_back() {
    let text = update_runtime_port(4321, "ct_xyz\"quoted");
    assert_eq!(text, r#"{"port":4321,"token":"ct_xyz\"quoted"}"#);
    assert_eq!(read_runtime_token(&text), Ok((4321, "ct_xyz\"quoted".to_string())));
}

#[test]
fn fresh_tokens() {
    let (token, text) = write_runtime_token(9786);
    assert!(token.starts_with("ct_"));
    assert_eq!(token.len(), 46);
    assert!(token[3..].chars().all(|c| c.is_ascii_alphanumeric() || c == '-' || c == '_'));
    assert_eq!(read_runtime_token(&text), Ok((9786, token.clone())));
    let (other, _) = write_runtime_token(9786);
    assert_ne!(token, other);
}

#[test]
fn token_text() {
    assert_eq!(token_from_bytes(&[0xfb, 0xff]), "ct_-_8");
    assert_eq!(token_from_bytes(&[]), "ct_");
    assert_eq!(token_from_bytes(b"Man"), "ct_TWFu");
    assert_eq!(token_from_bytes(&[0u8; 32]).len(), 46);
}

#[test]
fn env_file() {
    assert_eq!(env_file_text("ct_abc"), "CT_TOKEN=ct_abc\n");
}
