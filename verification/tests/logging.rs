use dowse::logging::{civil_from_days, format_utc, log_line_text};

#[test]
fn civil_from_days_epoch_is_1970_01_01() {
    assert_eq!(civil_from_days(0), (1970, 1, 1));
}

#[test]
fn civil_from_days_known_date() {
    assert_eq!(civil_from_days(19_723), (2024, 1, 1));
}

#[test]
fn civil_from_days_handles_leap_days_and_negative_days() {
    assert_eq!(civil_from_days(11_016), (2000, 2, 29));
    assert_eq!(civil_from_days(-1), (1969, 12, 31));
    assert_eq!(civil_from_days(-719_468), (0, 3, 1));
}

#[test]
fn format_utc_pads_fields() {
    assert_eq!(format_utc(0), "1970-01-01 00:00:00 UTC");
    assert_eq!(format_utc(1_704_067_200 + 3_661), "2024-01-01 01:01:01 UTC");
}

#[test]
fn log_line_has_timestamp_component_and_message() {
    assert_eq!(
        log_line_text("1970-01-01 00:00:00 UTC", "watch", "started"),
        "[1970-01-01 00:00:00 UTC] [watch] started"
    );
}

#[test]
fn civil_from_days_inverts_day_numbers_of_dates() {
    for &(y, m, d) in &[(1970, 1, 1), (2000, 2, 29), (1900, 3, 1), (2024, 12, 31), (1969, 12, 31), (0, 3, 1)] {
        let day = dowse::query::date_to_ms(y, m, d) / dowse::query::MS_PER_DAY;
        assert_eq!(civil_from_days(day), (y, m, d));
    }
}
