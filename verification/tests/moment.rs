use unifi_voucher_proxy::moment::{Timestamp, FIRST_SECOND, LAST_SECOND, WIDEST_OFFSET};

const SECOND: i128 = 1_000_000_000;

#[test]
fn a_timestamp_is_shown_as_rfc_3339() {
    // 2027-03-01T00:00:00Z
    let at = Timestamp::new(1_803_859_200 * SECOND, 0).unwrap();
    assert_eq!(at.show(), "2027-03-01T00:00:00Z");
    let offset = Timestamp::new(1_803_859_200 * SECOND + 500_000_000, 2 * 3600).unwrap();
    assert_eq!(offset.show(), "2027-03-01T00:00:00.5+02:00");
}

#[test]
fn the_same_instant_may_be_written_with_any_offset() {
    let utc = Timestamp::new(1_803_859_200 * SECOND, 0).unwrap();
    let east = Timestamp::new((1_803_859_200 + 7200) * SECOND, 7200).unwrap();
    assert_eq!(utc.instant(), east.instant());
    assert!(utc.reaches(&east) && east.reaches(&utc));
    assert_eq!(utc.since(&east), 0);
    let later = Timestamp::new(1_803_859_201 * SECOND, 0).unwrap();
    assert!(later.reaches(&utc) && !utc.reaches(&later));
    assert_eq!(later.since(&utc), SECOND);
}

#[test]
fn what_the_format_cannot_show_is_an_earlier_date() {
    // RFC 3339 has no year below zero and no seconds in an offset.
    let ancient = Timestamp::new(FIRST_SECOND * SECOND, 0).unwrap();
    assert_eq!(ancient.show(), "an earlier date");
    assert_eq!(Timestamp::new(0, 1).unwrap().show(), "an earlier date");
}

#[test]
fn times_outside_the_calendar_are_refused() {
    assert!(Timestamp::new(FIRST_SECOND * SECOND - 1, 0).is_none());
    assert!(Timestamp::new((LAST_SECOND + 1) * SECOND, 0).is_none());
    let last = Timestamp::new((LAST_SECOND + 1) * SECOND - 1, 0).unwrap();
    assert_eq!(last.show(), "9999-12-31T23:59:59.999999999Z");
    assert!(Timestamp::new(0, WIDEST_OFFSET).is_some());
    assert!(Timestamp::new(0, -WIDEST_OFFSET).is_some());
    assert!(Timestamp::new(0, WIDEST_OFFSET + 1).is_none());
    assert!(Timestamp::new(0, -WIDEST_OFFSET - 1).is_none());
}

#[test]
fn the_bounds_are_those_of_the_calendar() {
    let bounds = |s: i128, o: i32| {
        time::OffsetDateTime::from_unix_timestamp(s as i64).is_ok()
            && time::UtcOffset::from_whole_seconds(o).is_ok()
    };
    assert!(bounds(FIRST_SECOND, -WIDEST_OFFSET) && bounds(LAST_SECOND, WIDEST_OFFSET));
    assert!(!bounds(FIRST_SECOND - 1, 0) && !bounds(LAST_SECOND + 1, 0));
    assert!(!bounds(0, WIDEST_OFFSET + 1) && !bounds(0, -WIDEST_OFFSET - 1));
}
