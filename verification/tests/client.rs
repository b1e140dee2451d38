//! The library's own behavior on concrete values: timestamps, headers and
//! status classification.

use chrono::{TimeZone, Utc};
use pshbullet_client::check_status;
use pshbullet_client::headers::{parse_response_headers, ResponseHeaders};
use pshbullet_client::num::{parse_float_seconds_str, parse_i64, render_float_seconds};
use pshbullet_client::time::Timestamp;
use pshbullet_client::{Error, PushbulletClient};

#[test]
fn response_headers_test() {
    let headers = ResponseHeaders {
        ratelimit_limit: Some(16384),
        ratelimit_remaining: Some(16384),
        ratelimit_reset: Some(1496856653),
    };

    let reset = headers.ratelimit_reset_time().unwrap();
    let expected = Utc.with_ymd_and_hms(2017, 6, 7, 17, 30, 53).unwrap();
    assert_eq!(reset.secs, expected.timestamp());
    assert_eq!(reset.nanos, 0);
}

#[test]
fn timestamp_conversion_test() {
    let now = Utc::now();
    let t = Timestamp::new(now.timestamp(), now.timestamp_subsec_nanos());
    let rendered = render_float_seconds(&t);
    let r = parse_float_seconds_str(&rendered).unwrap();
    let diff = r.abs_diff_millis(&t);
    assert!(diff < 10);
}

#[test]
fn round_trip_is_exact() {
    let samples = [
        Timestamp::new(0, 0),
        Timestamp::new(1, 500_000_000),
        Timestamp::new(1_412_047_948, 579_029_000),
        Timestamp::new(9_000_000_000, 999_999_999),
    ];
    for t in samples.iter() {
        let rendered = render_float_seconds(t);
        let r = parse_float_seconds_str(&rendered).unwrap();
        assert_eq!(r.secs, t.secs);
        assert_eq!(r.nanos, t.nanos);
    }
}

#[test]
fn parse_float_seconds_cases() {
    let t = parse_float_seconds_str("1.412047948579029e+09").unwrap();
    assert_eq!(t.secs, 1_412_047_948);
    assert_eq!(t.nanos, 579_029_000);

    let t = parse_float_seconds_str("1496856653").unwrap();
    assert_eq!(t.secs, 1_496_856_653);
    assert_eq!(t.nanos, 0);

    let t = parse_float_seconds_str("2.5e-9").unwrap();
    assert_eq!(t.secs, 0);
    assert_eq!(t.nanos, 3);

    let t = parse_float_seconds_str("0.25").unwrap();
    assert_eq!(t.secs, 0);
    assert_eq!(t.nanos, 250_000_000);

    assert!(parse_float_seconds_str("").is_none());
    assert!(parse_float_seconds_str("-1.0").is_none());
    assert!(parse_float_seconds_str("1.").is_none());
    assert!(parse_float_seconds_str("1e").is_none());
    assert!(parse_float_seconds_str("abc").is_none());
    assert!(parse_float_seconds_str("1e99").is_none());
}

#[test]
fn parse_i64_cases() {
    assert_eq!(parse_i64("1496856653"), Some(1496856653));
    assert_eq!(parse_i64("-5"), Some(-5));
    assert_eq!(parse_i64("+7"), Some(7));
    assert_eq!(parse_i64("0"), Some(0));
    assert_eq!(parse_i64("9223372036854775807"), Some(i64::MAX));
    assert_eq!(parse_i64("-9223372036854775808"), Some(i64::MIN));
    assert_eq!(parse_i64("9223372036854775808"), None);
    assert_eq!(parse_i64(""), None);
    assert_eq!(parse_i64("-"), None);
    assert_eq!(parse_i64("12a"), None);
    assert_eq!(parse_i64("99999999999999999999999"), None);
}

#[test]
fn header_lookup_is_case_insensitive() {
    let headers = vec![
        ("x-ratelimit-limit".to_string(), "16384".to_string()),
        ("X-RATELIMIT-REMAINING".to_string(), "16383".to_string()),
        ("X-Ratelimit-Reset".to_string(), "1496856653".to_string()),
    ];
    let r = parse_response_headers(&headers);
    assert_eq!(r.ratelimit_limit, Some(16384));
    assert_eq!(r.ratelimit_remaining, Some(16383));
    assert_eq!(r.ratelimit_reset, Some(1496856653));
}

#[test]
fn missing_or_malformed_headers_are_absent() {
    let headers = vec![("X-Ratelimit-Limit".to_string(), "not a number".to_string())];
    let r = parse_response_headers(&headers);
    assert_eq!(r.ratelimit_limit, None);
    assert_eq!(r.ratelimit_remaining, None);
    assert_eq!(r.ratelimit_reset, None);
    assert!(r.ratelimit_reset_time().is_none());
}

#[test]
fn status_error_path() {
    let err = check_status(404);
    assert!(matches!(err, Err(Error::Status(404))));
    assert!(check_status(200).is_ok());
    assert!(check_status(299).is_ok());
    assert!(matches!(check_status(300), Err(Error::Status(300))));
    assert!(matches!(check_status(199), Err(Error::Status(199))));
}

#[test]
fn client_keeps_its_token() {
    let client = PushbulletClient::new(String::from("token-value"));
    assert_eq!(client.access_token(), "token-value");
}
