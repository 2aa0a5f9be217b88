use threat_engine::text::{contains_bytes, push_decimal};

#[test]
fn numbers_are_printed_in_decimal() {
    for n in [0u64, 7, 10, 99, 100, 4294967295, u64::MAX] {
        let mut text = "n=".to_string();
        push_decimal(&mut text, n);
        assert_eq!(text, format!("n={n}"));
    }
}

#[test]
fn bytes_are_found_wherever_they_stand() {
    assert!(contains_bytes(b"abc", b"abc"));
    assert!(contains_bytes(b"xxabc", b"abc"));
    assert!(contains_bytes(b"aabc", b"abc"));
    assert!(contains_bytes(b"", b""));
    assert!(!contains_bytes(b"ab", b"abc"));
    assert!(!contains_bytes(b"axbxc", b"abc"));
}
