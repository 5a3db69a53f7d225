use konfigura::bytes::{bytes_eq, copy_bytes, push_all};

#[test]
fn push_all_appends_in_order() {
    let mut out = b"ab".to_vec();
    push_all(&mut out, &b"cd".to_vec());
    assert_eq!(out, b"abcd".to_vec());
}

#[test]
fn copy_bytes_is_an_exact_copy() {
    assert_eq!(copy_bytes(&b"xyz".to_vec()), b"xyz".to_vec());
    assert_eq!(copy_bytes(&Vec::new()), Vec::<u8>::new());
}

#[test]
fn bytes_eq_compares_byte_for_byte() {
    assert!(bytes_eq(&b"abc".to_vec(), &b"abc".to_vec()));
    assert!(!bytes_eq(&b"abc".to_vec(), &b"abd".to_vec()));
    assert!(!bytes_eq(&b"abc".to_vec(), &b"ab".to_vec()));
    assert!(bytes_eq(&Vec::new(), &Vec::new()));
}
