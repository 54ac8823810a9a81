use search::options::bytes::bytes_eq;

#[test]
fn equal_byte_strings() {
    assert!(bytes_eq(b"", b""));
    assert!(bytes_eq(b"name", b"name"));
    assert!(bytes_eq(&[0xff, 0x00], &[0xff, 0x00]));
}

#[test]
fn different_byte_strings() {
    assert!(!bytes_eq(b"name", b"names"));
    assert!(!bytes_eq(b"names", b"name"));
    assert!(!bytes_eq(b"name", b"nama"));
    assert!(!bytes_eq(b"", b"a"));
}
