use reading_plan::date::Date;
use reading_plan::plan::{render_plan, PlanError};

fn date(y: u32, m: u32, d: u32) -> Date {
    Date::new(y, m, d).unwrap()
}

#[test]
fn test_render_plan() {
    let got = render_plan(1, 12, &date(2020, 1, 1), &date(2020, 1, 12)).unwrap();
    assert_eq!(
        got,
        vec![
            "Date: 2020-01-01. Pages: 1-1",
            "Date: 2020-01-02. Pages: 2-2",
            "Date: 2020-01-03. Pages: 3-3",
            "Date: 2020-01-04. Pages: 4-4",
            "Date: 2020-01-05. Pages: 5-5",
            "Date: 2020-01-06. Pages: 6-6",
            "Date: 2020-01-07. Pages: 7-7",
            "Date: 2020-01-08. Pages: 8-8",
            "Date: 2020-01-09. Pages: 9-9",
            "Date: 2020-01-10. Pages: 10-10",
            "Date: 2020-01-11. Pages: 11-11",
            "Date: 2020-01-12. Pages: 12-12",
        ]
        .join("\n")
    );
}

#[test]
fn test_render_plan_2() {
    let got = render_plan(691, 767, &date(2023, 3, 27), &date(2023, 4, 2)).unwrap();
    assert_eq!(
        got,
        vec![
            "Date: 2023-03-27. Pages: 691-701",
            "Date: 2023-03-28. Pages: 702-712",
            "Date: 2023-03-29. Pages: 713-723",
            "Date: 2023-03-30. Pages: 724-734",
            "Date: 2023-03-31. Pages: 735-745",
            "Date: 2023-04-01. Pages: 746-756",
            "Date: 2023-04-02. Pages: 757-767",
        ]
        .join("\n")
    );
}

#[test]
fn single_day_covers_all_but_last_page() {
    let got = render_plan(5, 9, &date(2021, 6, 15), &date(2021, 6, 15)).unwrap();
    assert_eq!(got, "Date: 2021-06-15. Pages: 5-8");
}

#[test]
fn equal_pages_single_day() {
    let got = render_plan(7, 7, &date(2021, 6, 15), &date(2021, 6, 15)).unwrap();
    assert_eq!(got, "Date: 2021-06-15. Pages: 7-6");
}

#[test]
fn divisible_page_count_stops_short() {
    let got = render_plan(1, 11, &date(2020, 1, 1), &date(2020, 1, 5)).unwrap();
    assert_eq!(
        got,
        vec![
            "Date: 2020-01-01. Pages: 1-2",
            "Date: 2020-01-02. Pages: 3-4",
            "Date: 2020-01-03. Pages: 5-6",
            "Date: 2020-01-04. Pages: 7-8",
            "Date: 2020-01-05. Pages: 9-10",
        ]
        .join("\n")
    );
}

#[test]
fn plan_crosses_leap_day() {
    let got = render_plan(1, 6, &date(2020, 2, 28), &date(2020, 3, 1)).unwrap();
    assert_eq!(
        got,
        vec![
            "Date: 2020-02-28. Pages: 1-2",
            "Date: 2020-02-29. Pages: 3-4",
            "Date: 2020-03-01. Pages: 5-6",
        ]
        .join("\n")
    );
}

#[test]
fn plan_crosses_year_boundary() {
    let got = render_plan(10, 13, &date(2020, 12, 31), &date(2021, 1, 1)).unwrap();
    assert_eq!(
        got,
        vec!["Date: 2020-12-31. Pages: 10-11", "Date: 2021-01-01. Pages: 12-13"].join("\n")
    );
}

#[test]
fn small_year_month_day_are_zero_padded() {
    let got = render_plan(2, 3, &date(1, 2, 3), &date(1, 2, 3)).unwrap();
    assert_eq!(got, "Date: 0001-02-03. Pages: 2-2");
}

#[test]
fn inverted_page_range_is_an_error() {
    let got = render_plan(12, 1, &date(2020, 1, 1), &date(2020, 1, 12));
    assert_eq!(got, Err(PlanError::InvalidPageRange));
}

#[test]
fn inverted_date_range_is_an_error() {
    let got = render_plan(1, 12, &date(2020, 1, 12), &date(2020, 1, 1));
    assert_eq!(got, Err(PlanError::InvalidDateRange));
}

#[test]
fn rendering_twice_gives_identical_output() {
    let a = render_plan(691, 767, &date(2023, 3, 27), &date(2023, 4, 2)).unwrap();
    let b = render_plan(691, 767, &date(2023, 3, 27), &date(2023, 4, 2)).unwrap();
    assert_eq!(a, b);
}

#[test]
fn line_count_equals_inclusive_day_count() {
    let got = render_plan(1, 100, &date(2022, 2, 20), &date(2022, 3, 5)).unwrap();
    assert_eq!(got.lines().count(), 14);
}

#[test]
fn century_year_1900_is_not_leap() {
    let got = render_plan(1, 3, &date(1900, 2, 28), &date(1900, 3, 1)).unwrap();
    assert_eq!(
        got,
        vec!["Date: 1900-02-28. Pages: 1-1", "Date: 1900-03-01. Pages: 2-2"].join("\n")
    );
}

#[test]
fn century_year_2000_is_leap() {
    let got = render_plan(1, 3, &date(2000, 2, 28), &date(2000, 3, 1)).unwrap();
    assert_eq!(
        got,
        vec![
            "Date: 2000-02-28. Pages: 1-1",
            "Date: 2000-02-29. Pages: 2-2",
            "Date: 2000-03-01. Pages: 3-3",
        ]
        .join("\n")
    );
}
