use dns_cache::util::{basic_auth_payload, basic_auth_value, escape_bytes, fast_random};

#[test]
fn test_basic_auth_payload_with_password() {
    let user = b"Aladdin".to_vec();
    let pass = b"open sesame".to_vec();
    let payload = basic_auth_payload(&user, Some(&pass));
    assert_eq!(payload, b"Aladdin:open sesame".to_vec());
}

#[test]
fn test_basic_auth_payload_without_password() {
    let user = b"user".to_vec();
    let payload = basic_auth_payload(&user, None);
    assert_eq!(payload, b"user:".to_vec());
}

#[test]
fn test_basic_auth_value_prefix() {
    let encoded = b"QWxhZGRpbjpvcGVuIHNlc2FtZQ==".to_vec();
    let value = basic_auth_value(&encoded);
    assert_eq!(value, b"Basic QWxhZGRpbjpvcGVuIHNlc2FtZQ==".to_vec());
}

#[test]
fn test_fast_random_advances_counter() {
    let mut counter: u64 = 0;
    let _ = fast_random(&mut counter);
    assert_eq!(counter, 1);
    let _ = fast_random(&mut counter);
    assert_eq!(counter, 2);
}

#[test]
fn test_fast_random_counter_wraps() {
    let mut counter: u64 = u64::MAX;
    let _ = fast_random(&mut counter);
    assert_eq!(counter, 0);
}

#[test]
fn test_escape_bytes_controls_and_hex() {
    let input = vec![b'a', b'\n', b'\r', b'\t', b'"', b'\\', 0u8, 0x7fu8, 0xffu8];
    let escaped = escape_bytes(&input);
    assert_eq!(escaped, b"a\\n\\r\\t\\\"\\\\\\0\\x7f\\xff".to_vec());
}

#[test]
fn test_escape_bytes_printable_unchanged() {
    let input = b"Hello, world! 0123".to_vec();
    let escaped = escape_bytes(&input);
    assert_eq!(escaped, input);
}
