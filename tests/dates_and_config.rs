use bomajou::config::{check_status, Config, ConfigError, FetchError, Setting};
use bomajou::date::CalendarDate;

fn date(year: i32, month: u32, day: u32) -> CalendarDate {
    CalendarDate { year, month, day }
}

#[test]
fn date_keys_are_zero_padded() {
    assert_eq!(date(2024, 1, 5).key(), "2024-01-05");
    assert_eq!(date(5, 3, 9).key(), "0005-03-09");
    assert_eq!(date(0, 12, 31).key(), "0000-12-31");
    assert_eq!(date(12345, 1, 1).key(), "+12345-01-01");
    assert_eq!(date(-5, 1, 1).key(), "-0005-01-01");
    assert_eq!(date(-44, 10, 22).key(), "-0044-10-22");
}

#[test]
fn timestamps_parse_to_their_utc_date() {
    assert_eq!(CalendarDate::parse_timestamp("2024-01-05T10:00:00.000Z"), Some(date(2024, 1, 5)));
    assert_eq!(CalendarDate::parse_timestamp("2024-01-05T11:00:00Z"), Some(date(2024, 1, 5)));
    assert_eq!(
        CalendarDate::parse_timestamp("1999-12-31T23:59:59.123456789Z"),
        Some(date(1999, 12, 31))
    );
    assert_eq!(CalendarDate::parse_timestamp("2024-02-30T00:00:00Z"), None);
    assert_eq!(CalendarDate::parse_timestamp("2024-01-05"), None);
    assert_eq!(CalendarDate::parse_timestamp("2024-01-05T10:00:00+01:00"), None);
    assert_eq!(CalendarDate::parse_timestamp(""), None);
}

#[test]
fn today_is_a_calendar_date() {
    let t = CalendarDate::today();
    assert!((1..=12).contains(&t.month));
    assert!((1..=31).contains(&t.day));
    assert!(t.year >= 2020);
}

#[test]
fn missing_settings_are_reported_in_order() {
    let s = |v: &str| Some(v.to_string());
    assert_eq!(
        Config::from_values(None, None, None).err(),
        Some(ConfigError::Missing(Setting::AccessToken))
    );
    assert_eq!(
        Config::from_values(s("t"), None, s("f")).err(),
        Some(ConfigError::Missing(Setting::UrlBase))
    );
    assert_eq!(
        Config::from_values(s("t"), s("u"), None).err(),
        Some(ConfigError::Missing(Setting::MdFileDestination))
    );
    let c = Config::from_values(s("t"), s("u"), s("f")).unwrap();
    assert_eq!(c.access_token, "t");
    assert_eq!(c.url_base, "u");
    assert_eq!(c.md_file_destination, "f");
    assert_eq!(Setting::UrlBase.var_name(), "URL_BASE");
    assert_eq!(Setting::AccessToken.var_name(), "ACCESS_TOKEN");
    assert_eq!(Setting::MdFileDestination.var_name(), "MD_FILE_DESTINATION");
}

#[test]
fn request_url_carries_sort_and_page_size() {
    let c = Config::from_values(
        Some("tok".to_string()),
        Some("https://api.example.com/raindrops/0".to_string()),
        Some("out.md".to_string()),
    )
    .unwrap();
    assert_eq!(
        c.request_url("-created", "20"),
        "https://api.example.com/raindrops/0?sort=-created&perpage=20"
    );
}

#[test]
fn non_success_status_fails_with_its_code() {
    assert_eq!(check_status(200), Ok(()));
    assert_eq!(check_status(299), Ok(()));
    assert_eq!(check_status(199), Err(FetchError::RequestFailed(199)));
    assert_eq!(check_status(300), Err(FetchError::RequestFailed(300)));
    assert_eq!(check_status(404), Err(FetchError::RequestFailed(404)));
    assert_eq!(check_status(500), Err(FetchError::RequestFailed(500)));
}
