use webauthn_helper::calendar::{days_to_date, format_iso8601};
use webauthn_helper::storage::now_iso8601;

#[test]
fn the_epoch_is_the_first_day_of_1970() {
    assert_eq!(days_to_date(0), (1970, 1, 1));
    assert_eq!(format_iso8601(0), "1970-01-01T00:00:00Z");
}

#[test]
fn days_to_date_known_days() {
    assert_eq!(days_to_date(1), (1970, 1, 2));
    assert_eq!(days_to_date(30), (1970, 1, 31));
    assert_eq!(days_to_date(31), (1970, 2, 1));
    assert_eq!(days_to_date(58), (1970, 2, 28));
    assert_eq!(days_to_date(59), (1970, 3, 1));
    assert_eq!(days_to_date(364), (1970, 12, 31));
    assert_eq!(days_to_date(365), (1971, 1, 1));
    assert_eq!(days_to_date(789), (1972, 2, 29));
    assert_eq!(days_to_date(790), (1972, 3, 1));
    assert_eq!(days_to_date(10_957), (2000, 1, 1));
    assert_eq!(days_to_date(11_016), (2000, 2, 29));
    assert_eq!(days_to_date(11_017), (2000, 3, 1));
    assert_eq!(days_to_date(11_322), (2000, 12, 31));
    assert_eq!(days_to_date(20_089), (2025, 1, 1));
    assert_eq!(days_to_date(47_540), (2100, 2, 28));
    assert_eq!(days_to_date(47_541), (2100, 3, 1));
}

#[test]
fn days_to_date_before_the_epoch() {
    assert_eq!(days_to_date(-1), (1969, 12, 31));
    assert_eq!(days_to_date(-365), (1969, 1, 1));
    assert_eq!(days_to_date(-719_468), (0, 3, 1));
    assert_eq!(days_to_date(-719_469), (0, 2, 29));
    assert_eq!(days_to_date(-719_528), (0, 1, 1));
    assert_eq!(days_to_date(-719_529), (-1, 12, 31));
}

fn is_leap(y: i64) -> bool {
    y % 4 == 0 && (y % 100 != 0 || y % 400 == 0)
}

#[test]
fn days_to_date_walks_the_calendar() {
    let (mut y, mut m, mut d) = (1970i64, 1u32, 1u32);
    for days in 0..150_000i64 {
        assert_eq!(days_to_date(days), (y, m, d), "day {days}");
        let len = match m {
            2 => {
                if is_leap(y) {
                    29
                } else {
                    28
                }
            }
            4 | 6 | 9 | 11 => 30,
            _ => 31,
        };
        if d < len {
            d += 1;
        } else {
            d = 1;
            if m < 12 {
                m += 1;
            } else {
                m = 1;
                y += 1;
            }
        }
    }
}

#[test]
fn iso8601_known_points() {
    assert_eq!(format_iso8601(1), "1970-01-01T00:00:01Z");
    assert_eq!(format_iso8601(59), "1970-01-01T00:00:59Z");
    assert_eq!(format_iso8601(60), "1970-01-01T00:01:00Z");
    assert_eq!(format_iso8601(3_599), "1970-01-01T00:59:59Z");
    assert_eq!(format_iso8601(3_600), "1970-01-01T01:00:00Z");
    assert_eq!(format_iso8601(86_399), "1970-01-01T23:59:59Z");
    assert_eq!(format_iso8601(86_400), "1970-01-02T00:00:00Z");
    assert_eq!(format_iso8601(951_782_400), "2000-02-29T00:00:00Z");
    assert_eq!(format_iso8601(1_000_000_000), "2001-09-09T01:46:40Z");
    assert_eq!(format_iso8601(1_735_689_600), "2025-01-01T00:00:00Z");
    assert_eq!(format_iso8601(1_748_736_000), "2025-06-01T00:00:00Z");
    assert_eq!(format_iso8601(2_147_483_647), "2038-01-19T03:14:07Z");
    assert_eq!(format_iso8601(4_102_444_800), "2100-01-01T00:00:00Z");
}

#[test]
fn iso8601_years_beyond_four_digits() {
    assert_eq!(format_iso8601(253_402_300_799), "9999-12-31T23:59:59Z");
    assert_eq!(format_iso8601(253_402_300_800), "10000-01-01T00:00:00Z");
    let latest = format_iso8601(u64::MAX);
    assert!(latest.ends_with('Z'));
    assert_eq!(latest, "584554051223-11-09T07:00:15Z");
}

#[test]
fn now_is_a_point_in_time() {
    let now = now_iso8601();
    assert!(now.len() >= 20);
    assert!(now.ends_with('Z'));
    let bytes = now.as_bytes();
    let t = now.find('T').unwrap();
    assert_eq!(bytes[t - 3], b'-');
    assert_eq!(bytes[t - 6], b'-');
    assert_eq!(bytes[t + 3], b':');
    assert_eq!(bytes[t + 6], b':');
    assert!(now.as_str() > "2020-01-01T00:00:00Z");
}
