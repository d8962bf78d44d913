use sctp::serial::{sna16_lt, sna32_lt, sna32_lte, tsn_distance, tsn_next};

#[test]
fn tsn_comparisons_wrap() {
    assert!(sna32_lt(1, 2));
    assert!(!sna32_lt(2, 2));
    assert!(sna32_lte(2, 2));
    assert!(sna32_lt(u32::MAX, 0));
    assert!(!sna32_lt(0, u32::MAX));
    assert!(!sna32_lt(0, 0x8000_0000));
    assert!(!sna32_lt(0x8000_0000, 0));
    assert_eq!(tsn_distance(u32::MAX, 1), 2);
    assert_eq!(tsn_next(u32::MAX), 0);
}

#[test]
fn ssn_comparisons_wrap() {
    assert!(sna16_lt(65535, 0));
    assert!(sna16_lt(2, 3));
    assert!(!sna16_lt(3, 2));
}
