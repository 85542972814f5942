//! The cabinet date/time codec.
//!
//! A file entry stores its timestamp as two 16-bit words with 2-second
//! resolution: `date = (year-1980)*512 + month*32 + day` and
//! `time = hour*2048 + minute*32 + second/2`, covering years 1980 through
//! 2107.  Encoding clamps years outside that range to the nearest bound and
//! rounds an odd second up by one; decoding rejects impossible calendar
//! values by returning `None`.

use vstd::prelude::*;

use crate::bytes::lemma_split_at_base;

verus! {

/// A wall-clock date and time with 1-second resolution.
#[derive(Clone, Copy, Debug, PartialEq, Eq, Structural)]
pub struct DateTime {
    pub year: u16,
    pub month: u8,
    pub day: u8,
    pub hour: u8,
    pub minute: u8,
    pub second: u8,
}

pub open spec fn spec_is_leap_year(year: int) -> bool {
    year % 4 == 0 && (year % 100 != 0 || year % 400 == 0)
}

pub open spec fn spec_days_in_month(year: int, month: int) -> int {
    if month == 2 {
        if spec_is_leap_year(year) {
            29
        } else {
            28
        }
    } else if month == 4 || month == 6 || month == 9 || month == 11 {
        30
    } else {
        31
    }
}

/// The fields form a real calendar date and time of day.
pub open spec fn dt_valid(dt: DateTime) -> bool {
    &&& 1 <= dt.month <= 12
    &&& 1 <= dt.day <= spec_days_in_month(dt.year as int, dt.month as int)
    &&& dt.hour < 24
    &&& dt.minute < 60
    &&& dt.second < 60
}

/// The datetime one second later, carrying across minute, hour, day, month
/// and year boundaries.
pub open spec fn spec_plus_one_second(dt: DateTime) -> DateTime {
    if dt.second + 1 < 60 {
        DateTime { second: (dt.second + 1) as u8, ..dt }
    } else if dt.minute + 1 < 60 {
        DateTime { minute: (dt.minute + 1) as u8, second: 0, ..dt }
    } else if dt.hour + 1 < 24 {
        DateTime { hour: (dt.hour + 1) as u8, minute: 0, second: 0, ..dt }
    } else if dt.day + 1 <= spec_days_in_month(dt.year as int, dt.month as int) {
        DateTime { day: (dt.day + 1) as u8, hour: 0, minute: 0, second: 0, ..dt }
    } else if dt.month + 1 <= 12 {
        DateTime { month: (dt.month + 1) as u8, day: 1, hour: 0, minute: 0, second: 0, ..dt }
    } else {
        DateTime {
            year: (dt.year + 1) as u16,
            month: 1,
            day: 1,
            hour: 0,
            minute: 0,
            second: 0,
        }
    }
}

pub open spec fn spec_date_bits(y: int, m: int, d: int) -> u16 {
    ((y - 1980) * 512 + m * 32 + d) as u16
}

pub open spec fn spec_time_bits(h: int, mi: int, s: int) -> u16 {
    (h * 2048 + mi * 32 + s / 2) as u16
}

/// The two words a datetime encodes to: clamped to the representable range
/// and rounded up to an even second.
pub open spec fn spec_datetime_to_bits(dt: DateTime) -> (u16, u16) {
    if dt.year < 1980 {
        (0x21u16, 0u16)
    } else if dt.year > 2107 {
        (0xff9fu16, 0xbf7du16)
    } else if dt.second % 2 == 1 {
        let r = spec_plus_one_second(dt);
        if r.year > 2107 {
            (0xff9fu16, 0xbf7du16)
        } else {
            (
                spec_date_bits(r.year as int, r.month as int, r.day as int),
                spec_time_bits(r.hour as int, r.minute as int, r.second as int),
            )
        }
    } else {
        (
            spec_date_bits(dt.year as int, dt.month as int, dt.day as int),
            spec_time_bits(dt.hour as int, dt.minute as int, dt.second as int),
        )
    }
}

/// The datetime two stored words decode to, or `None` where the fields are
/// no real calendar date or time of day.
pub open spec fn spec_datetime_from_bits(date: u16, time: u16) -> Option<DateTime> {
    let dt = DateTime {
        year: (date / 512 + 1980) as u16,
        month: ((date / 32) % 16) as u8,
        day: (date % 32) as u8,
        hour: (time / 2048) as u8,
        minute: ((time / 32) % 64) as u8,
        second: (2 * (time % 32)) as u8,
    };
    if dt_valid(dt) {
        Some(dt)
    } else {
        None
    }
}

impl DateTime {
    /// A datetime from its fields; `None` where they are no real calendar
    /// date or time of day.
    pub fn new(year: u16, month: u8, day: u8, hour: u8, minute: u8, second: u8) -> (r: Option<
        DateTime,
    >)
        ensures
            ({
                let dt = DateTime { year, month, day, hour, minute, second };
                if dt_valid(dt) {
                    r == Some(dt)
                } else {
                    r is None
                }
            }),
    {
        let dt = DateTime { year, month, day, hour, minute, second };
        if 1 <= dt.month && dt.month <= 12 && 1 <= dt.day && dt.day <= days_in_month(
            dt.year,
            dt.month,
        ) && dt.hour < 24 && dt.minute < 60 && dt.second < 60 {
            Some(dt)
        } else {
            None
        }
    }
}

pub fn is_leap_year(year: u16) -> (r: bool)
    ensures
        r == spec_is_leap_year(year as int),
{
    year % 4 == 0 && (year % 100 != 0 || year % 400 == 0)
}

pub fn days_in_month(year: u16, month: u8) -> (r: u8)
    ensures
        r == spec_days_in_month(year as int, month as int),
{
    if month == 2 {
        if is_leap_year(year) {
            29
        } else {
            28
        }
    } else if month == 4 || month == 6 || month == 9 || month == 11 {
        30
    } else {
        31
    }
}

/// Encodes a datetime as the two stored words.
pub fn datetime_to_bits(dt: DateTime) -> (r: (u16, u16))
    requires
        dt_valid(dt),
    ensures
        r == spec_datetime_to_bits(dt),
{
    if dt.year < 1980 {
        (0x21, 0)
    } else if dt.year > 2107 {
        (0xff9f, 0xbf7d)
    } else {
        let r = if dt.second % 2 == 1 {
            plus_one_second(dt)
        } else {
            dt
        };
        if r.year > 2107 {
            (0xff9f, 0xbf7d)
        } else {
            let date = (r.year - 1980) * 512 + (r.month as u16) * 32 + (r.day as u16);
            let time = (r.hour as u16) * 2048 + (r.minute as u16) * 32 + (r.second as u16) / 2;
            (date, time)
        }
    }
}

/// Decodes the two stored words; `None` where they hold no real calendar
/// date or time of day.
pub fn datetime_from_bits(date: u16, time: u16) -> (r: Option<DateTime>)
    ensures
        r == spec_datetime_from_bits(date, time),
{
    let year = date / 512 + 1980;
    let month = ((date / 32) % 16) as u8;
    let day = (date % 32) as u8;
    let hour = (time / 2048) as u8;
    let minute = ((time / 32) % 64) as u8;
    let second = (2 * (time % 32)) as u8;
    DateTime::new(year, month, day, hour, minute, second)
}

fn plus_one_second(dt: DateTime) -> (r: DateTime)
    requires
        dt_valid(dt),
        dt.year <= 2107,
    ensures
        r == spec_plus_one_second(dt),
{
    if dt.second + 1 < 60 {
        DateTime { second: dt.second + 1, ..dt }
    } else if dt.minute + 1 < 60 {
        DateTime { minute: dt.minute + 1, second: 0, ..dt }
    } else if dt.hour + 1 < 24 {
        DateTime { hour: dt.hour + 1, minute: 0, second: 0, ..dt }
    } else if dt.day < days_in_month(dt.year, dt.month) {
        DateTime { day: dt.day + 1, hour: 0, minute: 0, second: 0, ..dt }
    } else if dt.month + 1 <= 12 {
        DateTime { month: dt.month + 1, day: 1, hour: 0, minute: 0, second: 0, ..dt }
    } else {
        DateTime { year: dt.year + 1, month: 1, day: 1, hour: 0, minute: 0, second: 0 }
    }
}

/// The current UTC wall-clock time.
///
/// Relies on `time::OffsetDateTime::now_utc` and its field accessors: the
/// fields form a real calendar date and time of day (and the year fits in
/// 16 bits).  Nothing is assumed of the value itself: it depends on the
/// system clock.
#[verifier::external_body]
pub fn now_utc() -> (r: DateTime)
    ensures
        dt_valid(r),
{
    let n = time::OffsetDateTime::now_utc();
    DateTime {
        year: n.year() as u16,
        month: n.month() as u8,
        day: n.day(),
        hour: n.hour(),
        minute: n.minute(),
        second: n.second(),
    }
}

/// An odd second rounds up by one second before packing: the encoding of an
/// odd-second datetime equals the encoding of the datetime one second later.
pub proof fn lemma_odd_second_rounds_up(dt: DateTime)
    requires
        dt_valid(dt),
        1980 <= dt.year <= 2107,
        dt.second % 2 == 1,
    ensures
        spec_datetime_to_bits(dt) == spec_datetime_to_bits(spec_plus_one_second(dt)),
{
    let r = spec_plus_one_second(dt);
    assert(r.second % 2 == 0);
}

/// Decoding inverts encoding: a valid datetime in the representable range
/// with an even second comes back exactly from its two stored words.
pub proof fn lemma_datetime_bits_roundtrip(dt: DateTime)
    requires
        dt_valid(dt),
        1980 <= dt.year <= 2107,
        dt.second % 2 == 0,
    ensures
        spec_datetime_from_bits(
            spec_datetime_to_bits(dt).0,
            spec_datetime_to_bits(dt).1,
        ) == Some(dt),
{
    let y = dt.year as int;
    let m = dt.month as int;
    let d = dt.day as int;
    let h = dt.hour as int;
    let mi = dt.minute as int;
    let s = dt.second as int;
    let date = spec_date_bits(y, m, d);
    let time = spec_time_bits(h, mi, s);
    assert(spec_datetime_to_bits(dt) == (date, time));
    lemma_split_at_base(y - 1980, m * 32 + d, 512);
    assert(date == (y - 1980) * 512 + (m * 32 + d));
    assert(date / 512 == y - 1980);
    assert(date % 512 == m * 32 + d);
    lemma_split_at_base((y - 1980) * 16 + m, d, 32);
    assert((y - 1980) * 512 + m * 32 == ((y - 1980) * 16 + m) * 32) by (nonlinear_arith);
    assert(date / 32 == (y - 1980) * 16 + m);
    lemma_mod_multiple_vanish(y - 1980, m, 16);
    assert((date / 32) % 16 == m);
    lemma_split_at_base(h * 64 + mi, s / 2, 32);
    assert(h * 2048 + mi * 32 == (h * 64 + mi) * 32) by (nonlinear_arith);
    assert(time / 32 == h * 64 + mi);
    assert(time % 32 == s / 2);
    lemma_mod_multiple_vanish(h, mi, 64);
    assert((time / 32) % 64 == mi);
    lemma_split_at_base(h, mi * 32 + s / 2, 2048);
    assert(time / 2048 == h);
    assert(s == 2 * (s / 2) + s % 2) by (nonlinear_arith);
    assert(2 * (time % 32) == s);
}

/// For `0 <= low < base`: `(high * base + low) % base == low`.
proof fn lemma_mod_multiple_vanish(high: int, low: int, base: int)
    requires
        0 <= low < base,
        0 <= high,
    ensures
        (high * base + low) % base == low,
{
    lemma_split_at_base(high, low, base);
}

} // verus!
