//! Loop-range resolution behavior.

use asset_convert::error::ConvertErrorKind;
use asset_convert::loop_range::{message_to_range, resolve, ConversionRate, LoopRange};

fn unit_rate() -> ConversionRate {
    ConversionRate { new_count: 1, old_count: 1 }
}

#[test]
fn two_raw_fields_give_the_range() {
    let r = resolve(Some("10-20"), 1000, unit_rate()).unwrap();
    assert_eq!(r, LoopRange { start: 10, end: 20 });
}

#[test]
fn one_raw_field_loops_to_the_end() {
    let r = resolve(Some("20"), 1000, unit_rate()).unwrap();
    assert_eq!(r, LoopRange { start: 20, end: 1000 });
}

#[test]
fn comma_separates_like_hyphen() {
    let r = resolve(Some("10,20"), 1000, unit_rate()).unwrap();
    assert_eq!(r, LoopRange { start: 10, end: 20 });
}

#[test]
fn no_option_is_the_identity_range() {
    let r = resolve(None, 1000, unit_rate()).unwrap();
    assert_eq!(r, LoopRange { start: 0, end: 1000 });
}

#[test]
fn timestamps_convert_at_the_reference_rate() {
    // 1.5 s and 2.5 s at 48000 Hz
    let r = resolve(Some("0:01.5-0:02.5"), 200000, unit_rate()).unwrap();
    assert_eq!(r, LoopRange { start: 72000, end: 120000 });
}

#[test]
fn timestamp_end_past_the_total_is_rejected() {
    // 2.5 s is 120000 samples, past a total of 100000
    let e = resolve(Some("0:01.5-0:02.5"), 100000, unit_rate()).unwrap_err();
    assert_eq!(e.kind, ConvertErrorKind::Nus3audio);
    assert_eq!(e.message, "Bad loop points. There are only 100000 samples");
}

#[test]
fn raw_end_past_the_total_reports_the_count() {
    let e = resolve(Some("0-2000000"), 1000, unit_rate()).unwrap_err();
    assert_eq!(e.kind, ConvertErrorKind::Nus3audio);
    assert_eq!(e.message, "Bad loop points. There are only 1000 samples");
}

#[test]
fn minutes_and_hours_carry_their_weights() {
    // 1:30 is 90 s; 1:01:05 is 3665 s
    let r = resolve(Some("1:30-1:01:05"), 200_000_000, unit_rate()).unwrap();
    assert_eq!(r.start, 90 * 48000);
    assert_eq!(r.end, 3665 * 48000);
}

#[test]
fn fraction_rounds_half_up() {
    // 0.5 samples round up: 1.0000104166...s, and exactly half lands upward
    let r = resolve(Some("0.00001-1"), 100000, unit_rate()).unwrap();
    // 0.00001 s * 48000 = 0.48 samples, rounds to 0
    assert_eq!(r.start, 0);
    let r2 = resolve(Some("0.0000105-1"), 100000, unit_rate()).unwrap();
    // 0.504 samples rounds to 1
    assert_eq!(r2.start, 1);
}

#[test]
fn raw_fields_rescale_with_round_half_up() {
    // a third: 1 * 1/3 = 0.33 rounds down, 2 * 1/3 = 0.67 rounds up
    let rate = ConversionRate { new_count: 1, old_count: 3 };
    assert_eq!(resolve(Some("1-90"), 1000, rate).unwrap().start, 0);
    assert_eq!(resolve(Some("2-90"), 1000, rate).unwrap().start, 1);
    // exactly half rounds up: 3 * 1/2 = 1.5 -> 2
    let half = ConversionRate { new_count: 1, old_count: 2 };
    assert_eq!(resolve(Some("3-90"), 1000, half).unwrap().start, 2);
}

#[test]
fn trailing_separators_are_ignored() {
    let r = resolve(Some("10-20--"), 1000, unit_rate()).unwrap();
    assert_eq!(r, LoopRange { start: 10, end: 20 });
}

#[test]
fn spacing_inside_fields_is_tolerated() {
    let r = resolve(Some(" 10 , 20 "), 1000, unit_rate()).unwrap();
    assert_eq!(r, LoopRange { start: 10, end: 20 });
}

#[test]
fn three_fields_are_a_format_error() {
    let e = message_to_range("1-2-3", 1000, unit_rate()).unwrap_err();
    assert_eq!(e.kind, ConvertErrorKind::MessageFormat);
    assert!(e.message.contains("start-end"));
}

#[test]
fn an_empty_field_is_a_format_error() {
    let e = message_to_range("10,,20", 1000, unit_rate()).unwrap_err();
    assert_eq!(e.kind, ConvertErrorKind::MessageFormat);
}

#[test]
fn a_non_numeric_field_is_a_format_error() {
    let e = message_to_range("abc", 1000, unit_rate()).unwrap_err();
    assert_eq!(e.kind, ConvertErrorKind::MessageFormat);
}

#[test]
fn a_backwards_range_is_rejected() {
    let e = resolve(Some("20-10"), 1000, unit_rate()).unwrap_err();
    assert_eq!(e.kind, ConvertErrorKind::Nus3audio);
    assert_eq!(e.message, "Bad loop points. There are only 1000 samples");
}

#[test]
fn a_start_past_the_total_is_rejected() {
    let e = resolve(Some("5000"), 1000, unit_rate()).unwrap_err();
    assert_eq!(e.kind, ConvertErrorKind::Nus3audio);
}

#[test]
fn a_bare_dot_is_a_format_error() {
    let e = message_to_range(".", 1000, unit_rate()).unwrap_err();
    assert_eq!(e.kind, ConvertErrorKind::MessageFormat);
}

#[test]
fn seconds_may_omit_either_side_of_the_dot() {
    // ".5" is half a second, "5." is five seconds
    let r = resolve(Some(".5-5."), 400000, unit_rate()).unwrap();
    assert_eq!(r, LoopRange { start: 24000, end: 240000 });
}

#[test]
fn an_overlong_raw_index_is_a_format_error() {
    let e = message_to_range("99999999999999999999999", 1000, unit_rate()).unwrap_err();
    assert_eq!(e.kind, ConvertErrorKind::MessageFormat);
}
