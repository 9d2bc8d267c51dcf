use transcribeasy::digits::{push_decimal, push_zero_padded};
use transcribeasy::timestamp::format_timestamp;

/// The timestamp written with the standard formatter, field by field.
fn by_std(cs: i64) -> String {
    let total_ms = (cs as i128) * 10;
    let hours = total_ms / 3_600_000;
    let rem_ms = total_ms % 3_600_000;
    let minutes = rem_ms / 60_000;
    let rem_ms = rem_ms % 60_000;
    let seconds = rem_ms / 1_000;
    let millis = rem_ms % 1_000;
    format!("{:02}:{:02}:{:02},{:03}", hours, minutes, seconds, millis)
}

#[test]
fn timestamp_of_zero() {
    assert_eq!(format_timestamp(0), "00:00:00,000");
}

#[test]
fn timestamp_of_one_second() {
    assert_eq!(format_timestamp(100), "00:00:01,000");
}

#[test]
fn timestamp_of_one_hour() {
    assert_eq!(format_timestamp(360_000), "01:00:00,000");
}

#[test]
fn timestamp_keeps_hours_beyond_a_day() {
    let cs = (27 * 3600 + 15 * 60 + 3) * 100 + 50;
    assert_eq!(format_timestamp(cs), "27:15:03,500");
}

#[test]
fn timestamp_hours_grow_past_two_digits() {
    assert_eq!(format_timestamp(100 * 3600 * 100), "100:00:00,000");
    assert_eq!(format_timestamp(12_345 * 360_000 + 599_999), "12346:39:59,990");
}

#[test]
fn timestamp_has_centisecond_resolution() {
    assert_eq!(format_timestamp(1), "00:00:00,010");
    assert_eq!(format_timestamp(99), "00:00:00,990");
    assert_eq!(format_timestamp(5_999), "00:00:59,990");
    assert_eq!(format_timestamp(6_000), "00:01:00,000");
    assert_eq!(format_timestamp(359_999), "00:59:59,990");
}

#[test]
fn timestamp_of_the_largest_time() {
    assert_eq!(format_timestamp(i64::MAX), by_std(i64::MAX));
    assert_eq!(format_timestamp(i64::MAX), "25620477880152:09:18,070");
}

#[test]
fn timestamp_before_zero_marks_each_field() {
    assert_eq!(format_timestamp(-1), "00:00:00,-10");
    assert_eq!(format_timestamp(-100), "00:00:-1,000");
    assert_eq!(format_timestamp(-366_155), "-1:-1:-1,-550");
    assert_eq!(format_timestamp(-9_810_350), "-27:-15:-3,-500");
    assert_eq!(format_timestamp(i64::MIN), by_std(i64::MIN));
}

#[test]
fn timestamp_agrees_with_the_standard_formatter() {
    let mut cs: i64 = -2_000_000;
    while cs < 40_000_000 {
        assert_eq!(format_timestamp(cs), by_std(cs), "at {}", cs);
        cs += 7_919;
    }
    for cs in -1_000..1_000 {
        assert_eq!(format_timestamp(cs), by_std(cs), "at {}", cs);
    }
}

#[test]
fn decimal_is_appended_without_padding() {
    let mut out = String::from("n=");
    push_decimal(&mut out, 0);
    out.push(' ');
    push_decimal(&mut out, 9);
    out.push(' ');
    push_decimal(&mut out, 10);
    out.push(' ');
    push_decimal(&mut out, 1_234_567_890);
    out.push(' ');
    push_decimal(&mut out, u64::MAX);
    assert_eq!(out, "n=0 9 10 1234567890 18446744073709551615");
}

#[test]
fn zero_padding_fills_up_to_the_width() {
    let mut out = String::new();
    push_zero_padded(&mut out, 5, 3);
    out.push(' ');
    push_zero_padded(&mut out, 42, 3);
    out.push(' ');
    push_zero_padded(&mut out, 0, 2);
    out.push(' ');
    push_zero_padded(&mut out, 0, 5);
    assert_eq!(out, "005 042 00 00000");
}

#[test]
fn zero_padding_never_cuts() {
    let mut out = String::new();
    push_zero_padded(&mut out, 123, 2);
    out.push(' ');
    push_zero_padded(&mut out, 7, 0);
    out.push(' ');
    push_zero_padded(&mut out, 7, 1);
    out.push(' ');
    push_zero_padded(&mut out, 1000, 4);
    assert_eq!(out, "123 7 7 1000");
}

#[test]
fn zero_padding_agrees_with_the_standard_formatter() {
    for n in [0u64, 1, 9, 10, 99, 100, 999, 1000, 54_321, u64::MAX] {
        for width in 0usize..8 {
            let mut out = String::new();
            push_zero_padded(&mut out, n, width);
            assert_eq!(out, format!("{:0width$}", n, width = width));
        }
    }
}
