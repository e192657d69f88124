use shinsho_rss::date::{calendar_date, format_day, parse_i32, parse_u32, parse_yyyymmdd, ymd_caps};

fn parts(d: &shinsho_rss::date::Date) -> (i32, u32, u32) {
    (d.year(), d.month(), d.day())
}

#[test]
fn calendar_dates_follow_the_gregorian_rules() {
    assert_eq!(calendar_date(2024, 2, 29).map(|d| parts(&d)), Some((2024, 2, 29)));
    assert!(calendar_date(2023, 2, 29).is_none());
    assert!(calendar_date(1900, 2, 29).is_none());
    assert!(calendar_date(2000, 2, 29).is_some());
    assert!(calendar_date(2024, 4, 31).is_none());
    assert!(calendar_date(2024, 13, 1).is_none());
    assert!(calendar_date(2024, 0, 1).is_none());
    assert!(calendar_date(2024, 1, 0).is_none());
    assert!(calendar_date(262142, 12, 31).is_some());
    assert!(calendar_date(262143, 1, 1).is_none());
    assert!(calendar_date(-262143, 1, 1).is_some());
    assert!(calendar_date(-262144, 1, 1).is_none());
    assert!(calendar_date(-4, 2, 29).is_some());
}

#[test]
fn yyyymmdd_numbers() {
    assert_eq!(parse_yyyymmdd(20240315).map(|d| parts(&d)), Some((2024, 3, 15)));
    assert!(parse_yyyymmdd(20240230).is_none());
    assert!(parse_yyyymmdd(0).is_none());
    assert!(parse_yyyymmdd(4294967295).is_none());
}

#[test]
fn integers_read_like_str_parse() {
    assert_eq!(parse_i32("2024"), Some(2024));
    assert_eq!(parse_i32("+7"), Some(7));
    assert_eq!(parse_i32("-12"), Some(-12));
    assert_eq!(parse_i32("-2147483648"), Some(i32::MIN));
    assert_eq!(parse_i32("2147483647"), Some(i32::MAX));
    assert_eq!(parse_i32("2147483648"), None);
    assert_eq!(parse_i32(""), None);
    assert_eq!(parse_i32("-"), None);
    assert_eq!(parse_i32("１２"), None);
    assert_eq!(parse_i32("1 2"), None);
    assert_eq!(parse_u32("07"), Some(7));
    assert_eq!(parse_u32("+4294967295"), Some(u32::MAX));
    assert_eq!(parse_u32("4294967296"), None);
    assert_eq!(parse_u32("-1"), None);
    for s in ["0", "42", "-9", "+3", "99999999999", "abc", "007"] {
        assert_eq!(parse_i32(s), s.parse::<i32>().ok());
        assert_eq!(parse_u32(s), s.parse::<u32>().ok());
    }
}

#[test]
fn year_month_day_groups() {
    let names = vec![None, Some("y".to_string()), Some("m".to_string()), Some("d".to_string())];
    let g = |y: &str, m: &str, d: &str| vec![Some(format!("{y}/{m}/{d}")), Some(y.to_string()), Some(m.to_string()), Some(d.to_string())];
    assert_eq!(ymd_caps(&g("2024", "1", "5"), &names).map(|d| parts(&d)), Some((2024, 1, 5)));
    assert!(ymd_caps(&g("２０２４", "1", "5"), &names).is_none());
    assert!(ymd_caps(&g("2024", "2", "30"), &names).is_none());
    assert!(ymd_caps(&vec![Some("x".to_string()), Some("2024".to_string()), None, Some("1".to_string())], &names).is_none());
    assert!(ymd_caps(&vec![Some("x".to_string())], &names).is_none());
    let unnamed = vec![None, None, None, None];
    assert!(ymd_caps(&g("2024", "1", "5"), &unnamed).is_none());
    let reordered = vec![None, Some("d".to_string()), Some("m".to_string()), Some("y".to_string())];
    let groups = vec![Some("20/5/2024".to_string()), Some("20".to_string()), Some("5".to_string()), Some("2024".to_string())];
    assert_eq!(ymd_caps(&groups, &reordered).map(|d| parts(&d)), Some((2024, 5, 20)));
}

#[test]
fn days_are_written_for_rss() {
    let day = |y, m, d| format_day(&calendar_date(y, m, d).unwrap());
    assert_eq!(day(2024, 1, 1), "Mon, 01 Jan 2024");
    assert_eq!(day(1999, 12, 31), "Fri, 31 Dec 1999");
    assert_eq!(day(2000, 2, 29), "Tue, 29 Feb 2000");
    assert_eq!(day(2025, 11, 18), "Tue, 18 Nov 2025");
    assert_eq!(day(999, 7, 4), "Thu, 04 Jul 0999");
    assert!(day(12345, 6, 7).ends_with(", 07 Jun +12345"));
    assert!(day(-1, 1, 1).ends_with(", 01 Jan -0001"));
    for (y, m, d) in [(2024, 3, 15), (1970, 1, 1), (1, 1, 1), (-44, 3, 15), (2100, 12, 31), (12345, 6, 7), (-1, 1, 1), (0, 1, 1)] {
        let expected = chrono::NaiveDate::from_ymd_opt(y, m, d).unwrap().format("%a, %d %b %Y").to_string();
        assert_eq!(day(y, m, d), expected);
    }
}
