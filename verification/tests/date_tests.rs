use data_lib::date::{get_days_in_month, is_leap_year, Date};

#[test]
fn date_compare() {
    let date1 = Date::new(2023, 10, 1);
    let date2 = Date::new(2023, 10, 2);
    let date3 = Date::new(2024, 1, 1);

    assert!(date1 < date2);
    assert!(date2 > date1);
    assert!(date1 < date3);
    assert!(date3 > date2);
}

#[test]
fn date_to_string() {
    let date1 = Date::new(2023, 10, 1);
    let date2 = Date::new(2023, 10, 2);
    let date3 = Date::new(2024, 1, 1);

    assert_eq!(date1.to_fancy_string(), "2023-10-01");
    assert_eq!(date2.to_fancy_string(), "2023-10-02");
    assert_eq!(date3.to_fancy_string(), "2024-01-01");
}

#[test]
fn date_advance() {
    let mut date4 = Date::new(2023, 10, 31);
    date4.advance_day();
    assert_eq!(date4.to_fancy_string(), "2023-11-01");

    let mut date5 = Date::new(2023, 12, 31);
    date5.advance_month();
    assert_eq!(date5.to_fancy_string(), "2024-01-01");
}

#[test]
fn week_number() {
    let date1 = Date::new(2025, 1, 1);
    assert_eq!(date1.week_number(), 1);

    let date2 = Date::new(2025, 11, 23);
    assert_eq!(date2.week_number(), 47);

    let date3 = Date::new(2025, 11, 24);
    assert_eq!(date3.week_number(), 48);
}

#[test]
fn week_day() {
    let date2 = Date::new(2025, 11, 23);
    assert_eq!(date2.week_day(), 6);

    let date3 = Date::new(2025, 11, 24);
    assert_eq!(date3.week_day(), 0);
}

#[test]
fn week_start() {
    let date2 = Date::new(2025, 11, 23);
    assert_eq!(date2.week_start(), Date::new(2025, 11, 17));

    let date3 = Date::new(2025, 11, 24);
    assert_eq!(date3.week_start(), date3);
}

#[test]
fn leap_years() {
    assert_eq!(is_leap_year(2000), true);
    assert_eq!(is_leap_year(1900), false);
    assert_eq!(is_leap_year(2024), true);
    assert_eq!(is_leap_year(2023), false);
}

#[test]
fn month_lengths() {
    assert_eq!(get_days_in_month(2, 2024), 29);
    assert_eq!(get_days_in_month(2, 2023), 28);
    assert_eq!(get_days_in_month(4, 2023), 30);
    assert_eq!(get_days_in_month(12, 2023), 31);
}

#[test]
fn date_string_roundtrip() {
    let dates = [
        Date::new(2020, 1, 1),
        Date::new(2024, 2, 29),
        Date::new(1999, 12, 31),
        Date::new(2023, 7, 4),
    ];
    for d in dates {
        let s = d.to_fancy_string();
        assert_eq!(Date::from_string(&s), Some(d));
    }
}

#[test]
fn date_from_string_rejects_malformed() {
    assert_eq!(Date::from_string(""), None);
    assert_eq!(Date::from_string("2023"), None);
    assert_eq!(Date::from_string("2023-10"), None);
    assert_eq!(Date::from_string("2023-10-01-05"), None);
    assert_eq!(Date::from_string("abcd-ef-gh"), None);
    assert_eq!(Date::from_string("2023--01"), None);
}

#[test]
fn advance_reverse_inverse() {
    let d = Date::new(2021, 3, 14);
    for n in [0u32, 1, 7, 31, 365, 366, 10000] {
        let mut forward = d;
        forward.advance_days(n);
        let mut back = forward;
        back.reverse_days(n);
        assert_eq!(back, d);
    }
}

#[test]
fn advance_days_carries_months() {
    let mut d = Date::new(2023, 1, 1);
    d.advance_days(59);
    assert_eq!(d, Date::new(2023, 3, 1));

    let mut leap = Date::new(2024, 1, 1);
    leap.advance_days(59);
    assert_eq!(leap, Date::new(2024, 2, 29));
}

#[test]
fn week_start_is_monday_and_not_after() {
    let dates = [
        Date::new(2021, 1, 1),
        Date::new(2024, 2, 29),
        Date::new(2025, 11, 24),
        Date::new(1999, 6, 15),
    ];
    for d in dates {
        let start = d.week_start();
        assert_eq!(start.week_day(), 0);
        assert!(start <= d);
    }
}

#[test]
fn advance_to_weekday_moves_forward() {
    let mut d = Date::new(2025, 11, 24);
    d.advance_to_weekday(0);
    assert_eq!(d, Date::new(2025, 11, 24));

    let mut d2 = Date::new(2025, 11, 24);
    d2.advance_to_weekday(3);
    assert_eq!(d2, Date::new(2025, 11, 27));

    let mut d3 = Date::new(2025, 11, 27);
    d3.advance_to_weekday(0);
    assert_eq!(d3, Date::new(2025, 12, 1));
}

#[test]
fn find_surrounding_brackets() {
    let dates = vec![
        Date::new(2023, 1, 1),
        Date::new(2023, 3, 1),
        Date::new(2023, 2, 1),
    ];
    let target = Date::new(2023, 2, 15);
    assert_eq!(target.find_biggest_smaller(&dates), Some(Date::new(2023, 2, 1)));
    assert_eq!(target.find_smallest_bigger(&dates), Some(Date::new(2023, 3, 1)));
    assert_eq!(
        target.find_surrounding(&dates),
        Some((Date::new(2023, 2, 1), Date::new(2023, 3, 1)))
    );
    let early = Date::new(2022, 1, 1);
    assert_eq!(early.find_biggest_smaller(&dates), None);
    assert_eq!(early.find_surrounding(&dates), None);
}

#[test]
fn days_since_epoch_anchor() {
    assert_eq!(Date::new(1970, 1, 1).days_since_epoch(), 0);
    assert_eq!(Date::new(1970, 1, 2).days_since_epoch(), 1);
    assert_eq!(Date::new(1971, 1, 1).days_since_epoch(), 365);
    assert_eq!(Date::new(1970, 1, 1).week_day(), 3);
}

#[test]
fn today_is_plausible() {
    let now = Date::now();
    assert!(now.month >= 1 && now.month <= 12);
    assert!(now.day >= 1 && now.day <= 31);
}

#[test]
fn daily_iteration_covers_range() {
    let start = Date::new(2023, 2, 26);
    let end = Date::new(2023, 3, 2);
    let days = start.iterate_daily_to(&end);
    let strings: Vec<String> = days.iter().map(|d| d.to_fancy_string()).collect();
    assert_eq!(
        strings,
        vec!["2023-02-26", "2023-02-27", "2023-02-28", "2023-03-01", "2023-03-02"]
    );

    let back = end.iterate_daily_backwards(&start);
    assert_eq!(back.len(), 5);
    assert_eq!(back[0], end);
    assert_eq!(back[4], start);
}

#[test]
fn monthly_iteration_resets_to_first() {
    let start = Date::new(2023, 11, 15);
    let end = Date::new(2024, 2, 1);
    let months = start.iterate_monthly_to(&end);
    let strings: Vec<String> = months.iter().map(|d| d.to_fancy_string()).collect();
    assert_eq!(strings, vec!["2023-11-15", "2023-12-01", "2024-01-01", "2024-02-01"]);
}
