//! Subtitle timestamps, `HH:MM:SS,mmm`, of times in hundredths of a second.

use crate::digits::{
    all_digits, lemma_decimal_len, lemma_zero_padded_reads_back, numeral_value, one_less,
    push_zero_padded, zero_padded,
};
use vstd::prelude::*;

verus! {

/// One field of a timestamp: `value`, zero-padded to `width` characters.
/// In a timestamp before time zero each field that is not zero carries a
/// minus sign, which takes one of the `width` characters.
pub open spec fn timestamp_field(negative: bool, value: nat, width: nat) -> Seq<char> {
    if negative && value > 0 {
        seq!['-'] + zero_padded(value, one_less(width))
    } else {
        zero_padded(value, width)
    }
}

/// The subtitle timestamp of a time given in hundredths of a second:
/// `HH:MM:SS,mmm`. The time is taken to milliseconds and split into hours,
/// minutes, seconds and milliseconds. Hours, minutes and seconds are written
/// with at least two digits, milliseconds with three, and a comma stands
/// before the milliseconds. The hours are not wrapped at 24.
pub open spec fn timestamp_text(time: int) -> Seq<char> {
    let negative = time < 0;
    let millis = (if negative {
        -time
    } else {
        time
    }) * 10;
    let hours = millis / 3_600_000;
    let below_hour = millis % 3_600_000;
    let minutes = below_hour / 60_000;
    let below_minute = below_hour % 60_000;
    let seconds = below_minute / 1_000;
    let below_second = below_minute % 1_000;
    timestamp_field(negative, hours as nat, 2) + seq![':'] + timestamp_field(
        negative,
        minutes as nat,
        2,
    ) + seq![':'] + timestamp_field(negative, seconds as nat, 2) + seq![','] + timestamp_field(
        negative,
        below_second as nat,
        3,
    )
}

/// The shape of the timestamp of a time that is not negative: the hours,
/// a colon, two digits of minutes, a colon, two digits of seconds, a comma
/// and three digits of milliseconds. The hours are written in full, with
/// two digits or more: the field reads back as the whole number of hours,
/// however many days that is.
pub proof fn lemma_timestamp_shape(time: int)
    requires
        time >= 0,
    ensures
        ({
            let text = timestamp_text(time);
            let hours = text.take(text.len() - 10);
            let rest = text.skip(text.len() - 10);
            &&& text.len() >= 12
            &&& all_digits(hours)
            &&& numeral_value(hours) == time * 10 / 3_600_000
            &&& rest[0] == ':' && rest[3] == ':' && rest[6] == ','
            &&& all_digits(rest.subrange(1, 3))
            &&& numeral_value(rest.subrange(1, 3)) == time * 10 % 3_600_000 / 60_000
            &&& all_digits(rest.subrange(4, 6))
            &&& numeral_value(rest.subrange(4, 6)) == time * 10 % 60_000 / 1_000
            &&& all_digits(rest.subrange(7, 10))
            &&& numeral_value(rest.subrange(7, 10)) == time * 10 % 1_000
        }),
{
    let millis = time * 10;
    let hours = (millis / 3_600_000) as nat;
    let minutes = (millis % 3_600_000 / 60_000) as nat;
    let seconds = (millis % 3_600_000 % 60_000 / 1_000) as nat;
    let below_second = (millis % 3_600_000 % 60_000 % 1_000) as nat;
    lemma_zero_padded_reads_back(hours, 2);
    lemma_zero_padded_reads_back(minutes, 2);
    lemma_zero_padded_reads_back(seconds, 2);
    lemma_zero_padded_reads_back(below_second, 3);
    lemma_decimal_len(hours);
    lemma_decimal_len(minutes);
    lemma_decimal_len(seconds);
    lemma_decimal_len(below_second);
    let text = timestamp_text(time);
    let rest = text.skip(text.len() - 10);
    assert(text.take(text.len() - 10) =~= zero_padded(hours, 2));
    assert(rest.subrange(1, 3) =~= zero_padded(minutes, 2));
    assert(rest.subrange(4, 6) =~= zero_padded(seconds, 2));
    assert(rest.subrange(7, 10) =~= zero_padded(below_second, 3));
}

/// Appends one field of a timestamp to `out`.
fn push_field(out: &mut String, negative: bool, value: u64, width: usize)
    requires
        width >= 1,
    ensures
        final(out)@ == old(out)@ + timestamp_field(negative, value as nat, width as nat),
{
    if negative && value > 0 {
        out.push('-');
        push_zero_padded(out, value, width - 1);
        assert(out@ =~= old(out)@ + timestamp_field(negative, value as nat, width as nat));
    } else {
        push_zero_padded(out, value, width);
    }
}

/// Writes a time given in hundredths of a second as a subtitle timestamp.
pub fn format_timestamp(cs: i64) -> (out: String)
    ensures
        out@ == timestamp_text(cs as int),
{
    let negative: bool = cs < 0;
    let size: u128 = if negative {
        (-(cs as i128)) as u128
    } else {
        cs as u128
    };
    let millis: u128 = size * 10;
    let hours: u64 = (millis / 3_600_000) as u64;
    let below_hour: u128 = millis % 3_600_000;
    let minutes: u64 = (below_hour / 60_000) as u64;
    let below_minute: u128 = below_hour % 60_000;
    let seconds: u64 = (below_minute / 1_000) as u64;
    let below_second: u64 = (below_minute % 1_000) as u64;
    let mut out = String::new();
    push_field(&mut out, negative, hours, 2);
    out.push(':');
    push_field(&mut out, negative, minutes, 2);
    out.push(':');
    push_field(&mut out, negative, seconds, 2);
    out.push(',');
    push_field(&mut out, negative, below_second, 3);
    assert(out@ =~= timestamp_text(cs as int));
    out
}

} // verus!
