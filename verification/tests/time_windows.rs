use freqdash::dates::parse_date;
use freqdash::windows::{generate_time_windows, WindowError};

#[test]
fn december_rollover_two_windows() {
    let w = generate_time_windows("2024-12-01", 2).unwrap();
    assert_eq!(w, vec!["20241201-20250101".to_string(), "20250101-20250201".to_string()]);
}

#[test]
fn window_count_and_contiguity() {
    let w = generate_time_windows("2024-01-15", 6).unwrap();
    assert_eq!(w.len(), 6);
    assert_eq!(w[0], "20240101-20240201");
    for i in 0..w.len() {
        assert_eq!(w[i].len(), 17);
        assert_eq!(&w[i][8..9], "-");
    }
    for i in 0..w.len() - 1 {
        let end = &w[i][9..17];
        let start = &w[i + 1][0..8];
        assert_eq!(end, start);
        let a: u32 = w[i][0..8].parse().unwrap();
        let b: u32 = w[i + 1][0..8].parse().unwrap();
        assert!(a < b);
    }
    assert_eq!(w[5], "20240601-20240701");
}

#[test]
fn start_mid_month_snaps_to_first_day() {
    let w = generate_time_windows("2024-03-31", 1).unwrap();
    assert_eq!(w, vec!["20240301-20240401".to_string()]);
}

#[test]
fn leap_day_start_covers_february() {
    let w = generate_time_windows("2024-02-29", 2).unwrap();
    assert_eq!(w, vec!["20240201-20240301".to_string(), "20240301-20240401".to_string()]);
}

#[test]
fn zero_months_is_a_validation_error() {
    assert_eq!(generate_time_windows("2024-01-01", 0), Err(WindowError::InvalidMonths));
}

#[test]
fn malformed_date_is_a_validation_error() {
    assert_eq!(generate_time_windows("garbage", 3), Err(WindowError::InvalidDate));
    assert_eq!(generate_time_windows("2024-1-1", 3), Err(WindowError::InvalidDate));
    assert_eq!(generate_time_windows("2024-13-01", 3), Err(WindowError::InvalidDate));
    assert_eq!(generate_time_windows("2023-02-29", 3), Err(WindowError::InvalidDate));
}

#[test]
fn range_past_year_limit_is_rejected_not_a_panic() {
    assert_eq!(generate_time_windows("9999-12-01", 1), Err(WindowError::RangeTooWide));
    let w = generate_time_windows("9999-11-01", 1).unwrap();
    assert_eq!(w, vec!["99991101-99991201".to_string()]);
}

#[test]
fn leap_year_dates_parse() {
    assert!(parse_date("2024-02-29").is_some());
    assert!(parse_date("2023-02-29").is_none());
    assert!(parse_date("2000-02-29").is_some());
    assert!(parse_date("1900-02-29").is_none());
    let d = parse_date("2024-02-29").unwrap();
    assert_eq!((d.year, d.month, d.day), (2024, 2, 29));
}

#[test]
fn date_shape_is_strict() {
    assert!(parse_date("2024-04-31").is_none());
    assert!(parse_date("2024-04-30").is_some());
    assert!(parse_date("2024-04-00").is_none());
    assert!(parse_date("2024-04-011").is_none());
    assert!(parse_date("2024/04/01").is_none());
}
