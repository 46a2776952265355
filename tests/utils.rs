use redis_core::utils::{generate_master_replid, is_valid_master_replid, parse_vec_u8, show};
use redis_core::decimal::decimal_bytes;

#[test]
fn generated_replids_are_valid_and_vary() {
    let a = generate_master_replid();
    let b = generate_master_replid();
    assert_eq!(a.len(), 40);
    assert!(is_valid_master_replid(&a));
    assert!(is_valid_master_replid(&b));
    assert_ne!(a, b);
}

#[test]
fn replid_validation() {
    assert!(is_valid_master_replid(b"0123456789abcdef0123456789abcdef01234567"));
    assert!(!is_valid_master_replid(b"0123456789ABCDEF0123456789abcdef01234567"));
    assert!(!is_valid_master_replid(b"0123456789abcdef"));
    assert!(!is_valid_master_replid(b""));
}

#[test]
fn show_escapes_bytes() {
    assert_eq!(show(b"a\r\n\x00\"\\'\t~\xff"), "a\\r\\n\\x00\\\"\\\\\\'\\t~\\xff".to_string());
    assert_eq!(show(b""), String::new());
}

#[test]
fn parse_vec_u8_reads_signed_decimals() {
    assert_eq!(parse_vec_u8(b"-12".to_vec()), Some(-12));
    assert_eq!(parse_vec_u8(b"+7".to_vec()), Some(7));
    assert_eq!(parse_vec_u8(b"9223372036854775807".to_vec()), Some(i64::MAX));
    assert_eq!(parse_vec_u8(b"9223372036854775808".to_vec()), None);
    assert_eq!(parse_vec_u8(b"-9223372036854775808".to_vec()), Some(i64::MIN));
    assert_eq!(parse_vec_u8(b"x".to_vec()), None);
    assert_eq!(parse_vec_u8(b"-".to_vec()), None);
    assert_eq!(parse_vec_u8(Vec::new()), None);
}

#[test]
fn decimal_bytes_writes_numbers() {
    assert_eq!(decimal_bytes(0), b"0".to_vec());
    assert_eq!(decimal_bytes(1234), b"1234".to_vec());
    assert_eq!(decimal_bytes(u64::MAX), b"18446744073709551615".to_vec());
}
