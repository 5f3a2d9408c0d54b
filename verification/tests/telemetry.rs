use touch_n_drink::json::error::Error as JsonError;
use touch_n_drink::json::value::Value;
use touch_n_drink::mixpanel::{DistinctId, Mixpanel};
use touch_n_drink::nfc::Uid;
use touch_n_drink::telemetry::{track_request_body, Event, Telemetry, MAX_BUFFER_DURATION, MAX_BUFFER_EVENTS};

#[test]
fn event_names_and_user_ids() {
    let uid = Uid::Single([0x11, 0x22, 0x33, 0x44]);
    assert_eq!(Event::SystemStart.event_name(), "system_start");
    assert_eq!(Event::DataRefreshed(1, 2, 3).event_name(), "data_refreshed");
    assert_eq!(Event::AuthenticationFailed(uid.clone()).event_name(), "authentication_failed");
    assert_eq!(Event::UserAuthenticated(7, uid.clone()).event_name(), "user_authenticated");
    assert_eq!(
        Event::ArticlePurchased(7, "1111".into(), "2".into(), "3.5".into()).event_name(),
        "article_purchased"
    );
    assert_eq!(Event::Error(None, "oops".into()).event_name(), "error");
    assert_eq!(Event::UserAuthenticated(7, uid.clone()).user_id(), Some(7));
    assert_eq!(Event::AuthenticationFailed(uid).user_id(), None);
    assert_eq!(Event::Error(Some(9), "x".into()).user_id(), Some(9));
    assert_eq!(Event::SystemStart.distinct_id("dev-1"), "dev-1");
    assert_eq!(Event::Error(Some(1234), "x".into()).distinct_id("dev-1"), "1234");
}

#[test]
fn event_extra_fields() {
    let fields = Event::DataRefreshed(4, 5, 6).extra_fields().unwrap();
    assert_eq!(
        fields,
        vec![
            ("article_count".to_string(), Value::Integer(4)),
            ("uid_count".to_string(), Value::Integer(5)),
            ("user_count".to_string(), Value::Integer(6)),
        ]
    );
    let fields = Event::AuthenticationFailed(Uid::Single([0xde, 0xad, 0xbe, 0xef]))
        .extra_fields()
        .unwrap();
    assert_eq!(fields, vec![("uid".to_string(), Value::String("deadbeef".into()))]);
    assert!(Event::SystemStart.extra_fields().unwrap().is_empty());
}

#[test]
fn track_request_json() {
    let events = vec![
        (1700000000000i64, Event::SystemStart),
        (
            1700000001000i64,
            Event::ArticlePurchased(42, "1111".into(), "2".into(), "3.5".into()),
        ),
    ];
    let body = track_request_body(&events, "tok", "dev-1", "1.0.0", "abc123").unwrap();
    let body = String::from_utf8(body).unwrap();
    assert_eq!(
        body,
        [
            r#"[{"event": "system_start", "properties": {"token": "tok", "time": 1700000000000, "#,
            r#""distinct_id": "dev-1", "firmware_version": "1.0.0", "firmware_git_sha": "abc123", "#,
            r#""device_id": "dev-1"}}, "#,
            r#"{"event": "article_purchased", "properties": {"token": "tok", "time": 1700000001000, "#,
            r#""distinct_id": "42", "firmware_version": "1.0.0", "firmware_git_sha": "abc123", "#,
            r#""device_id": "dev-1", "article_id": "1111", "amount": 2, "total_price": 3.5}}]"#,
        ]
        .concat()
    );
    // The body is valid JSON
    let parsed: serde_json::Value = serde_json::from_str(&body).unwrap();
    assert_eq!(parsed[1]["properties"]["total_price"].as_f64(), Some(3.5));
}

#[test]
fn telemetry_buffering() {
    let mut telemetry = Telemetry::new(Some("tok"), "dev-1", 100);
    assert!(!telemetry.needs_flush(100 + MAX_BUFFER_DURATION));
    telemetry.track(Event::SystemStart, 101);
    assert_eq!(telemetry.events().len(), 1);
    assert_eq!(telemetry.events()[0].0, 101);
    assert!(!telemetry.needs_flush(100 + MAX_BUFFER_DURATION - 1));
    assert!(telemetry.needs_flush(100 + MAX_BUFFER_DURATION));
    telemetry.flushed(200);
    assert!(telemetry.events().is_empty());
    for i in 0..MAX_BUFFER_EVENTS {
        assert!(!telemetry.needs_flush(200));
        telemetry.track(Event::Error(None, format!("e{}", i)), 200);
    }
    assert!(telemetry.needs_flush(200));
}

#[test]
fn telemetry_disabled_without_token() {
    let mut telemetry = Telemetry::new(None, "dev-1", 0);
    telemetry.track(Event::SystemStart, 1);
    assert!(telemetry.events().is_empty());
    assert!(!telemetry.needs_flush(1000));
}

#[test]
fn mixpanel_client() {
    assert_eq!(Mixpanel::new("tok").token(), "tok");
    assert!(matches!(DistinctId::of(Some(5), "dev"), DistinctId::User(5)));
    assert!(matches!(DistinctId::of(None, "dev"), DistinctId::Device(d) if d == "dev"));
}

#[test]
fn too_large_counts() {
    assert_eq!(
        Event::DataRefreshed(usize::MAX, 0, 0).extra_fields(),
        Err(JsonError::NumberTooLarge)
    );
    assert!(track_request_body(&[(0, Event::DataRefreshed(usize::MAX, 0, 0))], "t", "d", "v", "g").is_err());
}
