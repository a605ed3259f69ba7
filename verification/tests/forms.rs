use bookclub::forms::{DateParseError, MeetingFormParams};

fn form(date: &str, zone: &str, ids: &[&str]) -> MeetingFormParams {
    MeetingFormParams {
        location: "Library".into(),
        date: date.into(),
        timezone: zone.into(),
        user_ids: ids.iter().map(|s| s.to_string()).collect(),
        bench_user_ids: vec![],
    }
}

#[test]
fn date_in_zone() {
    let f = form("2024-08-02T19:30", "Europe/Berlin", &["1"]);
    let t = f.try_get_datetime().unwrap().ok().unwrap();
    // 19:30 CEST is 17:30 UTC.
    assert_eq!(t.offset_seconds, 7200);
    assert_eq!(t.utc_micros, 1_722_619_800_000_000);
    let utc = form("2024-01-01T00:00", "UTC", &[]).try_get_datetime().unwrap().ok().unwrap();
    assert_eq!(utc.utc_micros, 1_704_067_200_000_000);
    assert_eq!(utc.offset_seconds, 0);
}

#[test]
fn bad_dates_and_zones() {
    let bad = form("2024-08-02 19:30", "UTC", &[]);
    assert!(matches!(bad.try_get_datetime(), Some(Err(DateParseError::InvalidDate))));
    assert!(matches!(form("2024-02-30T10:00", "UTC", &[]).try_get_datetime(), Some(Err(_))));
    assert!(form("2024-08-02T19:30", "Mars/Olympus", &[]).try_get_datetime().is_none());
    // A time skipped when clocks go forward.
    assert!(form("2024-03-31T02:30", "Europe/Berlin", &[]).try_get_datetime().is_none());
    // A time that happens twice when clocks go back.
    assert!(form("2024-10-27T02:30", "Europe/Berlin", &[]).try_get_datetime().is_none());
}

#[test]
fn host_order_from_form() {
    let f = form("2024-08-02T19:30", "UTC", &["3", "+1", "-2"]);
    assert_eq!(f.order(), vec![3, 1, -2]);
    let p = f.try_update_params().unwrap();
    assert_eq!(p.location, "Library");
    assert_eq!(p.order, vec![3, 1, -2]);
    assert_eq!(p.date.utc_micros, 1_722_627_000_000_000);
    assert!(form("2024-08-02T19:30", "UTC", &["3", "x"]).try_update_params().is_none());
    assert!(form("2024-08-02T19:30", "UTC", &["2147483648"]).try_update_params().is_none());
    assert!(form("2024-08-02T19:30", "UTC", &["-"]).try_update_params().is_none());
    assert!(form("2024-08-02T19:30", "UTC", &[" 1"]).try_update_params().is_none());
    assert!(form("nope", "UTC", &["1"]).try_update_params().is_none());
    assert_eq!(form("2024-08-02T19:30", "UTC", &["2147483647", "-2147483648"]).order(), vec![i32::MAX, i32::MIN]);
}
