use cab::datetime::{datetime_from_bits, datetime_to_bits};
use cab::DateTime;

fn dt(year: u16, month: u8, day: u8, hour: u8, minute: u8, second: u8) -> DateTime {
    DateTime::new(year, month, day, hour, minute, second).unwrap()
}

#[test]
fn valid_datetime_bits() {
    let datetime = dt(2018, 1, 6, 15, 19, 42);
    assert_eq!(datetime_to_bits(datetime), (0x4c26, 0x7a75));
    assert_eq!(datetime_from_bits(0x4c26, 0x7a75), Some(datetime));
}

#[test]
fn datetime_outside_range() {
    let datetime = dt(1977, 2, 3, 4, 5, 6);
    let bits = datetime_to_bits(datetime);
    let clamped = dt(1980, 1, 1, 0, 0, 0);
    assert_eq!(datetime_from_bits(bits.0, bits.1), Some(clamped));
    assert_eq!(bits, (0x0021, 0x0000));

    let datetime = dt(2110, 2, 3, 4, 5, 6);
    let bits = datetime_to_bits(datetime);
    let clamped = dt(2107, 12, 31, 23, 59, 58);
    assert_eq!(datetime_from_bits(bits.0, bits.1), Some(clamped));
    assert_eq!(bits, (0xff9f, 0xbf7d));
}

#[test]
fn datetime_round_to_nearest_two_seconds() {
    // Even seconds stay:
    let datetime = dt(2012, 3, 4, 1, 2, 6);
    let bits = datetime_to_bits(datetime);
    assert_eq!(datetime_from_bits(bits.0, bits.1), Some(datetime));
    assert_eq!(bits, (0x4064, 0x0843));

    // Odd seconds round up, carrying into the minute:
    let datetime = dt(2012, 3, 4, 5, 6, 59);
    let bits = datetime_to_bits(datetime);
    let rounded = dt(2012, 3, 4, 5, 7, 0);
    assert_eq!(datetime_from_bits(bits.0, bits.1), Some(rounded));
    assert_eq!(bits, (0x4064, 0x28e0));
}

#[test]
fn datetime_rejects_impossible_fields() {
    assert!(DateTime::new(2018, 0, 6, 15, 19, 42).is_none());
    assert!(DateTime::new(2018, 13, 6, 15, 19, 42).is_none());
    assert!(DateTime::new(2018, 2, 29, 0, 0, 0).is_none());
    assert!(DateTime::new(2020, 2, 29, 0, 0, 0).is_some());
    assert!(DateTime::new(2018, 1, 6, 24, 0, 0).is_none());
    assert!(DateTime::new(2018, 1, 6, 0, 60, 0).is_none());
    assert!(DateTime::new(2018, 1, 6, 0, 0, 60).is_none());
}

#[test]
fn decode_rejects_impossible_bits() {
    // Month zero and second 60 are no real calendar values.
    assert_eq!(datetime_from_bits(0x0001, 0x0000), None);
    assert_eq!(datetime_from_bits(0x0021, 0x001e), None);
}

#[test]
fn year_boundary_rounds_into_clamp() {
    // The odd second of the last representable moment rounds up and the
    // result clamps to the top of the range.
    let datetime = dt(2107, 12, 31, 23, 59, 59);
    assert_eq!(datetime_to_bits(datetime), (0xff9f, 0xbf7d));
}
