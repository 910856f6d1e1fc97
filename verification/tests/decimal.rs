use codex_core::decimal::{i32_to_decimal, u64_to_decimal};

#[test]
fn unsigned_decimal_matches_display() {
    for n in [0u64, 7, 9, 10, 99, 100, 256, 1_000_007, u64::MAX] {
        assert_eq!(u64_to_decimal(n), n.to_string());
    }
}

#[test]
fn signed_decimal_matches_display() {
    for n in [0i32, 1, -1, 42, -42, i32::MAX, i32::MIN] {
        assert_eq!(i32_to_decimal(n), n.to_string());
    }
}
