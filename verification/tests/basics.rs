//! Spans of time, numerals and versionstamps.

use recipes_simulation::duration::{nanos, Duration};
use recipes_simulation::stamps::{is_complete, stamp_number};
use recipes_simulation::text::{
    byte_list, count_text, flag_text, number_text, same_text, signed_text, wide_text,
};

#[test]
fn spans_are_counted_in_nanoseconds() {
    assert_eq!(Duration::from_millis(1_500).as_nanos(), 1_500_000_000);
    assert_eq!(Duration::from_millis(1_500).as_secs(), 1);
    assert_eq!(Duration::from_millis(1_500).subsec_nanos(), 500_000_000);
    assert_eq!(Duration::from_nanos(u64::MAX).as_nanos(), u128::from(u64::MAX));
    assert_eq!(Duration::new(2, 5).as_nanos(), 2_000_000_005);
    assert!(Duration::zero().is_zero() && !Duration::from_nanos(1).is_zero());
    assert!(Duration::from_nanos(999_999_999).shorter_than(&Duration::from_secs(1)));
    assert!(!Duration::from_secs(1).shorter_than(&Duration::from_secs(1)));
    assert_eq!(Duration::from_secs(10).divided_by(3).as_nanos(), 3_333_333_333);
    assert_eq!(Duration::longest_span().divided_by(3).as_nanos(), 6_148_914_691_236_517_205_333_333_333);
}

#[test]
fn spans_saturate() {
    let longest = Duration::longest_span();
    assert_eq!(longest.saturating_add(Duration::from_nanos(1)), longest);
    assert_eq!(
        Duration::from_millis(700).saturating_add(Duration::from_millis(800)),
        Duration::from_millis(1_500)
    );
    assert_eq!(
        Duration::from_millis(1_500).saturating_sub(Duration::from_millis(800)),
        Duration::from_millis(700)
    );
    assert!(Duration::from_secs(1).saturating_sub(Duration::from_secs(2)).is_zero());
    assert_eq!(nanos(Duration::from_secs(3)), 3_000_000_000);
    assert_eq!(nanos(longest), longest.as_nanos() as u64);
}

#[test]
fn numerals_are_written_out() {
    assert_eq!(wide_text(0), "0");
    assert_eq!(wide_text(u128::MAX), u128::MAX.to_string());
    assert_eq!(number_text(u64::MAX), u64::MAX.to_string());
    assert_eq!(count_text(1_020), "1020");
    assert_eq!(signed_text(i64::MIN), i64::MIN.to_string());
    assert_eq!(signed_text(-7), "-7");
    assert_eq!(flag_text(true), "true");
    assert_eq!(byte_list(&[0, 10, 255]), "[0, 10, 255]");
    assert_eq!(byte_list(&[]), "[]");
    assert!(same_text("λ", "λ") && !same_text("a", "ab"));
}

#[test]
fn stamps_are_read_most_significant_byte_first() {
    assert_eq!(stamp_number(&[]), 0);
    assert_eq!(stamp_number(&[1, 2]), 258);
    assert_eq!(stamp_number(&[0xff; 12]), (1u128 << 96) - 1);
    assert!(is_complete(&[0; 12]));
    let mut stamp = [0xff; 12];
    assert!(!is_complete(&stamp));
    stamp[9] = 0xfe;
    assert!(is_complete(&stamp));
}
