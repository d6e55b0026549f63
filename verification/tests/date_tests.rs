use reading_plan::date::{days_in_month, is_leap_year, Date};
use reading_plan::plan::plan_dates;
use reading_plan::text::{date_string, dec_string, pad2_string, pad4_string};

#[test]
fn leap_years_follow_gregorian_rules() {
    assert!(is_leap_year(2020));
    assert!(is_leap_year(2000));
    assert!(!is_leap_year(1900));
    assert!(!is_leap_year(2021));
}

#[test]
fn month_lengths() {
    assert_eq!(days_in_month(2021, 1), 31);
    assert_eq!(days_in_month(2021, 2), 28);
    assert_eq!(days_in_month(2020, 2), 29);
    assert_eq!(days_in_month(2021, 4), 30);
    assert_eq!(days_in_month(2021, 12), 31);
}

#[test]
fn date_new_accepts_real_dates_only() {
    assert!(Date::new(2020, 2, 29).is_some());
    assert!(Date::new(2021, 2, 29).is_none());
    assert!(Date::new(2021, 13, 1).is_none());
    assert!(Date::new(2021, 0, 1).is_none());
    assert!(Date::new(2021, 4, 31).is_none());
    assert!(Date::new(2021, 4, 0).is_none());
    assert!(Date::new(0, 1, 1).is_none());
    assert!(Date::new(10000, 1, 1).is_none());
    assert_eq!(
        Date::new(9999, 12, 31),
        Some(Date { year: 9999, month: 12, day: 31 })
    );
}

#[test]
fn plan_dates_step_one_day_at_a_time() {
    let start = Date::new(2023, 3, 30).unwrap();
    let got = plan_dates(&start, 4);
    assert_eq!(
        got,
        vec![
            Date { year: 2023, month: 3, day: 30 },
            Date { year: 2023, month: 3, day: 31 },
            Date { year: 2023, month: 4, day: 1 },
            Date { year: 2023, month: 4, day: 2 },
        ]
    );
}

#[test]
fn numbers_render_in_decimal() {
    assert_eq!(dec_string(0), "0");
    assert_eq!(dec_string(7), "7");
    assert_eq!(dec_string(10), "10");
    assert_eq!(dec_string(1234567890), "1234567890");
}

#[test]
fn padded_numbers_keep_their_width() {
    assert_eq!(pad2_string(5), "05");
    assert_eq!(pad2_string(12), "12");
    assert_eq!(pad4_string(3), "0003");
    assert_eq!(pad4_string(42), "0042");
    assert_eq!(pad4_string(123), "0123");
    assert_eq!(pad4_string(2020), "2020");
}

#[test]
fn dates_render_in_ymd_form() {
    let d = Date::new(987, 6, 5).unwrap();
    assert_eq!(date_string(&d), "0987-06-05");
}
