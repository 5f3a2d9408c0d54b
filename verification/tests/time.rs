use touch_n_drink::ui::current_date;
use touch_n_drink::error::ErrorKind;
use touch_n_drink::json::writer::Writer;
use touch_n_drink::time::{response_time, Clock};
use touch_n_drink::vereinsflieger::proto_articles::{ArticleListRequest, Date};
use touch_n_drink::vereinsflieger::proto_user::UserListRequest;

const FEB_18_2015: i64 = 1_424_301_369_000_000;

#[test]
fn response_date_header() {
    assert_eq!(response_time(Some("Wed, 18 Feb 2015 23:16:09 GMT")), Some(FEB_18_2015));
    assert_eq!(response_time(Some("Wed, 18 Feb 2015 23:16:09 +0100")), Some(FEB_18_2015 - 3_600_000_000));
    assert_eq!(response_time(Some("yesterday")), None);
    assert_eq!(response_time(None), None);
}

#[test]
fn clock_from_reference() {
    let mut clock = Clock::new();
    assert_eq!(clock.now(1_000_000), None);
    assert_eq!(clock.today(0), None);
    // Known time 5 s after system start
    clock.set_by_reference(FEB_18_2015, 5_000_000);
    assert_eq!(clock.now(5_000_000), Some(FEB_18_2015));
    assert_eq!(clock.now(6_000_000), Some(FEB_18_2015 + 1_000_000));
    assert_eq!(clock.instant_to_datetime(0), Some(FEB_18_2015 - 5_000_000));
    assert_eq!(clock.instant_to_datetime(u64::MAX), None);
    assert_eq!(clock.today(5_000_000), Some(Date { year: 2015, month: 2, day: 18 }));
    // One hour later it is the next day
    assert_eq!(clock.today(5_000_000 + 3_600_000_000), Some(Date { year: 2015, month: 2, day: 19 }));
}

#[test]
fn date_texts() {
    assert_eq!(Date { year: 2024, month: 5, day: 1 }.to_text(), "2024-05-01");
    assert_eq!(Date { year: 999, month: 12, day: 31 }.to_text(), "0999-12-31");
}

#[test]
fn list_requests() {
    let mut w = Writer::new(Vec::new());
    ArticleListRequest { accesstoken: "t".into() }.to_json(&mut w).unwrap();
    assert_eq!(w.into_inner(), br#"{"accesstoken": "t"}"#.to_vec());
    let mut w = Writer::new(Vec::new());
    UserListRequest { accesstoken: "u".into() }.to_json(&mut w).unwrap();
    assert_eq!(w.into_inner(), br#"{"accesstoken": "u"}"#.to_vec());
}

#[test]
fn current_date_needs_clock() {
    let mut clock = Clock::new();
    assert!(matches!(current_date(&clock, 0), Err(ErrorKind::CurrentTimeNotSet)));
    clock.set_by_reference(FEB_18_2015, 0);
    assert!(matches!(current_date(&clock, 0), Ok(Date { year: 2015, month: 2, day: 18 })));
}

#[test]
fn calendar_dates() {
    let mut clock = Clock::new();
    // 2000-02-29 12:00:00 UTC
    clock.set_by_reference(951_825_600_000_000, 0);
    assert_eq!(clock.today(0), Some(Date { year: 2000, month: 2, day: 29 }));
    // 12 hours later
    assert_eq!(clock.today(43_200_000_000), Some(Date { year: 2000, month: 3, day: 1 }));
    // One microsecond before the epoch
    let mut clock = Clock::new();
    clock.set_by_reference(-1, 0);
    assert_eq!(clock.today(0), Some(Date { year: 1969, month: 12, day: 31 }));
}
