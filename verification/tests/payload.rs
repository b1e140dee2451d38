//! Request-body and query-parameter generation, checked with an
//! independent JSON reader.

use pshbullet_client::push::{create_push_body, list_push_params, ListCondition, Request, Target};
use pshbullet_client::time::Timestamp;

#[test]
fn push_creation_request_shape() {
    let target = Target::Device(String::from("abc"));
    let request = Request::Note { title: "t", body: "b" };
    let body = create_push_body(&target, &request);
    let v: serde_json::Value = serde_json::from_str(&body).unwrap();
    assert_eq!(v["type"].as_str(), Some("note"));
    assert_eq!(v["title"].as_str(), Some("t"));
    assert_eq!(v["body"].as_str(), Some("b"));
    assert_eq!(v["device_iden"].as_str(), Some("abc"));
    assert!(v.get("email").is_none());
    assert!(v.get("channel_tag").is_none());
    assert!(v.get("client_iden").is_none());
}

#[test]
fn broadcast_adds_no_target_member() {
    let target = Target::Broadcast;
    let request = Request::Note { title: "t", body: "b" };
    let body = create_push_body(&target, &request);
    let v: serde_json::Value = serde_json::from_str(&body).unwrap();
    assert!(v.get("device_iden").is_none());
    assert!(v.get("email").is_none());
    assert!(v.get("channel_tag").is_none());
    assert!(v.get("client_iden").is_none());
}

#[test]
fn link_request_carries_its_url() {
    let target = Target::Email(String::from("a@example.com"));
    let request = Request::Link { title: "t", body: "b", url: "https://example.com/x" };
    let body = create_push_body(&target, &request);
    let v: serde_json::Value = serde_json::from_str(&body).unwrap();
    assert_eq!(v["type"].as_str(), Some("link"));
    assert_eq!(v["url"].as_str(), Some("https://example.com/x"));
    assert_eq!(v["email"].as_str(), Some("a@example.com"));
}

#[test]
fn payload_escapes_string_content() {
    let target = Target::Broadcast;
    let request = Request::Note { title: "a\"b\\c", body: "line one\nline two\ttabbed" };
    let body = create_push_body(&target, &request);
    let v: serde_json::Value = serde_json::from_str(&body).unwrap();
    assert_eq!(v["title"].as_str(), Some("a\"b\\c"));
    assert_eq!(v["body"].as_str(), Some("line one\nline two\ttabbed"));

    let request = Request::Note { title: "ctl\u{1}\u{1f}end", body: "b" };
    let body = create_push_body(&target, &request);
    let v: serde_json::Value = serde_json::from_str(&body).unwrap();
    assert_eq!(v["title"].as_str(), Some("ctl\u{1}\u{1f}end"));
}

#[test]
fn list_condition_defaults() {
    let condition = ListCondition::new(32);
    assert_eq!(condition.active, true);
    assert_eq!(condition.limit, 32);
    assert!(condition.modified_after.is_none());
    assert!(condition.cursor.is_none());
}

#[test]
fn list_params_shape() {
    let mut condition = ListCondition::new(32);
    let params = list_push_params(&condition);
    assert_eq!(params.len(), 2);
    assert_eq!(params[0], ("active".to_string(), "true".to_string()));
    assert_eq!(params[1], ("limit".to_string(), "32".to_string()));

    condition.set_modified_after(Timestamp::new(1_400_000_000, 500_000_000));
    condition.cursor = Some("opaque-cursor".to_string());
    let params = list_push_params(&condition);
    assert_eq!(params.len(), 4);
    assert_eq!(params[2].0, "modified_after");
    let t = pshbullet_client::num::parse_float_seconds_str(&params[2].1).unwrap();
    assert_eq!(t.secs, 1_400_000_000);
    assert_eq!(t.nanos, 500_000_000);
    assert_eq!(params[3], ("cursor".to_string(), "opaque-cursor".to_string()));
}
