//! Response-body parsing on the service's documented sample bodies.

use chrono::{TimeZone, Utc};
use pshbullet_client::device::parse_devices_body;
use pshbullet_client::push::{parse_push_body, parse_push_list_body};
use pshbullet_client::time::Timestamp;
use pshbullet_client::Error;

const DEVICES_RESULT: &str = r#"
{
  "devices": [
    {
      "active": true,
      "app_version": 8623,
      "created": 1.412047948579029e+09,
      "iden": "ujpah72o0sjAoRtnM0jc",
      "manufacturer": "Apple",
      "model": "iPhone 5s (GSM)",
      "modified": 1.412047948579031e+09,
      "nickname": "Elon Musk's iPhone",
      "push_token": "production:f73be0ee7877c8c7fa69b1468cde764f",
      "type": "ios",
      "kind": "ios",
      "pushable": true,
      "icon": "phone"
    },
    {
      "active": false,
      "iden": "ujCf8vfVeUumdk2AXMrt7Y",
      "created": 1.4369858538733912e+09,
      "modified": 1.445097271901183e+09,
      "pushable": false,
      "icon": "phone"
    }
  ]
}
    "#;

const PUSH_RESULT: &str = r#"
{
  "pushes": [
    {
      "active": true,
      "body": "Space Elevator, Mars Hyperloop, Space Model S (Model Space?)",
      "created": 1.412047948579029e+09,
      "direction": "self",
      "dismissed": false,
      "iden": "ujpah72o0sjAoRtnM0jc",
      "modified": 1.412047948579031e+09,
      "receiver_email": "elon@teslamotors.com",
      "receiver_email_normalized": "elon@teslamotors.com",
      "receiver_iden": "ujpah72o0",
      "sender_email": "elon@teslamotors.com",
      "sender_email_normalized": "elon@teslamotors.com",
      "sender_iden": "ujpah72o0",
      "sender_name": "Elon Musk",
      "title": "Space Travel Ideas",
      "type": "note"
    }
  ]
}
    "#;

fn instant(y: i32, mo: u32, d: u32, h: u32, mi: u32, s: u32) -> Timestamp {
    let dt = Utc.with_ymd_and_hms(y, mo, d, h, mi, s).unwrap();
    Timestamp::new(dt.timestamp(), 0)
}

#[test]
fn deserialize_devices_test() {
    let devices = parse_devices_body(DEVICES_RESULT).unwrap();
    assert_eq!(devices.len(), 2);
    let r = &devices[0];
    assert_eq!(r.app_version, Some(8623));
    assert_eq!(r.active, true);
    assert_eq!(r.iden, "ujpah72o0sjAoRtnM0jc");

    let expected = instant(2014, 9, 30, 3, 32, 28);
    let diff = r.modified_time().abs_diff_millis(&expected) as i64;
    assert!((diff - 579).abs() < 10);

    let diff = r.created_time().abs_diff_millis(&expected) as i64;
    assert!((diff - 579).abs() < 10);
}

#[test]
fn minimal_device_has_absent_optional_fields() {
    let devices = parse_devices_body(DEVICES_RESULT).unwrap();
    let r = &devices[1];
    assert_eq!(r.active, false);
    assert_eq!(r.iden, "ujCf8vfVeUumdk2AXMrt7Y");
    assert_eq!(r.icon, "phone");
    assert_eq!(r.app_version, None);
    assert_eq!(r.manufacturer, None);
    assert_eq!(r.model, None);
    assert_eq!(r.nickname, None);
    assert_eq!(r.push_token, None);
}

#[test]
fn deserialize_test() {
    let pushes = parse_push_list_body(PUSH_RESULT).unwrap();
    assert_eq!(pushes.len(), 1);
    let r = &pushes[0];
    assert_eq!(r.push_type, "note");
    assert_eq!(r.active, true);
    assert_eq!(r.direction, "self");

    assert_eq!(r.modified.secs, 1_412_047_948);
    assert_eq!(r.modified.nanos, 579_031_000);
    let expected = instant(2014, 9, 30, 3, 32, 28);
    let diff = r.modified_time().abs_diff_millis(&expected) as i64;
    assert!((diff - 579).abs() < 10);

    assert_eq!(r.created.secs, 1_412_047_948);
    assert_eq!(r.created.nanos, 579_029_000);
    let diff = r.created_time().abs_diff_millis(&expected) as i64;
    assert!((diff - 579).abs() < 10);
}

#[test]
fn single_push_body_parses() {
    let body = r#"{
      "active": true,
      "created": 1.412047948579029e+09,
      "direction": "self",
      "dismissed": false,
      "iden": "ujpah72o0sjAoRtnM0jc",
      "modified": 1.412047948579031e+09,
      "receiver_email": "a@example.com",
      "receiver_email_normalized": "a@example.com",
      "receiver_iden": "u1",
      "sender_email": "a@example.com",
      "sender_email_normalized": "a@example.com",
      "sender_iden": "u1",
      "sender_name": "A",
      "type": "note"
    }"#;
    let r = parse_push_body(body).unwrap();
    assert_eq!(r.push_type, "note");
    assert_eq!(r.body, "");
    assert_eq!(r.title, "");
    assert_eq!(r.url, "");
}

#[test]
fn unicode_escapes_decode() {
    let body = r#"{
      "active": true,
      "created": 1e9,
      "direction": "self",
      "dismissed": false,
      "iden": "i1",
      "modified": 1e9,
      "receiver_email": "a@example.com",
      "receiver_email_normalized": "a@example.com",
      "receiver_iden": "u1",
      "sender_email": "a@example.com",
      "sender_email_normalized": "a@example.com",
      "sender_iden": "u1",
      "sender_name": "Musk \uD83D\uDE00 caf\u00e9",
      "type": "note"
    }"#;
    let r = parse_push_body(body).unwrap();
    assert_eq!(r.sender_name, "Musk \u{1F600} caf\u{e9}");
}

#[test]
fn lone_surrogate_is_a_decode_error() {
    let body = r#"{"devices": [{"active": true, "iden": "\uD83Dx", "created": 1e9, "modified": 1e9, "icon": "phone"}]}"#;
    assert!(matches!(parse_devices_body(body), Err(Error::Decode)));
}

#[test]
fn unknown_nested_fields_are_ignored() {
    let body = r#"{
      "devices": [
        {
          "active": true,
          "iden": "i1",
          "created": 1e9,
          "modified": 1e9,
          "icon": "phone",
          "extras": {"a": [1, {"b": "x]}"}], "c": null},
          "tags": ["one", "two"]
        }
      ],
      "cursor": "abc",
      "aliases": [1, 2]
    }"#;
    let devices = parse_devices_body(body).unwrap();
    assert_eq!(devices.len(), 1);
    assert_eq!(devices[0].iden, "i1");
}

#[test]
fn number_tokens_follow_the_json_grammar() {
    let ok = r#"{"devices": [{"active": true, "iden": "i1", "created": 1e9, "modified": 1e9, "icon": "p", "x": -1, "y": 0.5, "z": 12e+07}]}"#;
    assert_eq!(parse_devices_body(ok).unwrap().len(), 1);

    let bad_dots = r#"{"devices": [{"active": true, "iden": "i1", "created": 1e9, "modified": 1e9, "icon": "p", "x": 1.2.3}]}"#;
    assert!(matches!(parse_devices_body(bad_dots), Err(Error::Decode)));

    let leading_zero = r#"{"devices": [{"active": true, "iden": "i1", "created": 1e9, "modified": 1e9, "icon": "p", "x": 07}]}"#;
    assert!(matches!(parse_devices_body(leading_zero), Err(Error::Decode)));
}

#[test]
fn malformed_body_is_a_decode_error() {
    assert!(matches!(parse_devices_body("not json"), Err(Error::Decode)));
    assert!(matches!(parse_devices_body("{}"), Err(Error::Decode)));
    assert!(matches!(
        parse_devices_body(r#"{"devices":[{"active":true}]}"#),
        Err(Error::Decode)
    ));
    assert!(matches!(parse_push_list_body(r#"{"pushes":2}"#), Err(Error::Decode)));
    assert!(matches!(parse_push_body("[1,2]"), Err(Error::Decode)));
}

#[test]
fn empty_list_bodies_parse() {
    let devices = parse_devices_body(r#"{"devices": []}"#).unwrap();
    assert_eq!(devices.len(), 0);
    let pushes = parse_push_list_body(r#"{"pushes":[], "cursor": "abc"}"#).unwrap();
    assert_eq!(pushes.len(), 0);
}
