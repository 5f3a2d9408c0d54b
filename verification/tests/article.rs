use touch_n_drink::ui::refresh_data;
use touch_n_drink::user::Users;
use touch_n_drink::telemetry::Event;
use touch_n_drink::vereinsflieger::proto_user::{Key, User as VfUser};
use touch_n_drink::error::ErrorKind;
use touch_n_drink::ui::refresh_articles_today;
use touch_n_drink::time::Clock;
use touch_n_drink::article::{trim_name, Articles};
use touch_n_drink::vereinsflieger::proto_articles::{Article as VfArticle, ArticlePrice, Date};

#[test]
fn article_smoke() {
    let mut articles = Articles::new(vec!["1111".into(), "2222".into()]);
    articles.update_article(&"1111".into(), "Cold Drink", 11.11);
    articles.update_article(&"2222".into(), "Hot Drink", 22.22);
    assert_eq!(articles.count(), 2);
    assert_eq!(articles.get("1111").unwrap().name, "Cold Drink");
    assert_eq!(articles.get("1111").unwrap().price, 11.11);
    assert_eq!(articles.get("2222").unwrap().name, "Hot Drink");
    assert_eq!(articles.get("2222").unwrap().price, 22.22);
    assert_eq!(articles.get_by_index(0).unwrap().0, "1111");
    assert_eq!(articles.get_by_index(0).unwrap().1.name, "Cold Drink");
    assert_eq!(articles.get_by_index(1).unwrap().0, "2222");
    assert_eq!(articles.get_by_index(1).unwrap().1.name, "Hot Drink");
}

#[test]
fn no_articles() {
    let mut articles = Articles::new(vec![]);
    articles.update_article(&"1111".into(), "Cold Drink", 11.11);
    articles.update_article(&"2222".into(), "Hot Drink", 22.22);
    assert_eq!(articles.count(), 0);
    assert_eq!(articles.get_by_index(0), None);
}

#[test]
fn ignore_missing_and_unwanted() {
    let mut articles = Articles::new(vec!["9999".into(), "2222".into()]);
    articles.update_article(&"1111".into(), "Cold Drink", 11.11);
    articles.update_article(&"2222".into(), "Hot Drink", 22.22);
    assert_eq!(articles.count(), 1);
    assert_eq!(articles.get("1111"), None);
    assert_eq!(articles.get_by_index(0).unwrap().0, "2222");
    assert_eq!(articles.get_by_index(1), None);
}

#[test]
fn article_names_lose_generic_prefix() {
    let mut articles = Articles::new(vec!["1".into(), "2".into(), "3".into()]);
    articles.update_article(&"1".into(), "Getränke Cola", 1.5f32);
    articles.update_article(&"2".into(), "Getränk   Wasser", 1.0f32);
    articles.update_article(&"3".into(), "  Bier", 2.0f32);
    assert_eq!(articles.get("1").unwrap().name, "Cola");
    assert_eq!(articles.get("2").unwrap().name, "Wasser");
    assert_eq!(articles.get("3").unwrap().name, "Bier");
    assert_eq!(trim_name("Getränke Getränk Saft"), "Saft");
}

#[test]
fn article_update_replaces_and_clear_empties() {
    let mut articles = Articles::new(vec!["1111".into()]);
    articles.update_article(&"1111".into(), "Cold Drink", 1u32);
    articles.update_article(&"1111".into(), "Warm Drink", 2u32);
    assert_eq!(articles.count(), 1);
    assert_eq!(articles.get("1111").unwrap().name, "Warm Drink");
    assert_eq!(articles.get("1111").unwrap().price, 2);
    articles.clear();
    assert_eq!(articles.count(), 0);
    assert_eq!(articles.get("1111"), None);
}

fn date(year: i32, month: u32, day: u32) -> Date {
    Date { year, month, day }
}

#[test]
fn vereinsflieger_article_uses_price_valid_on_date() {
    let vf = VfArticle {
        articleid: "1111".into(),
        designation: "Getränke Cola".into(),
        prices: vec![
            ArticlePrice { validfrom: date(2023, 1, 1), validto: date(2023, 12, 31), unitprice: 100u32 },
            ArticlePrice { validfrom: date(2024, 1, 1), validto: date(2024, 12, 31), unitprice: 150u32 },
        ],
    };
    assert_eq!(vf.price_valid_on(date(2024, 6, 1)), Some(150));
    assert_eq!(vf.price_valid_on(date(2023, 6, 1)), Some(100));
    assert_eq!(vf.price_valid_on(date(2025, 1, 1)), None);

    let mut articles = Articles::new(vec!["1111".into()]);
    articles.update_vereinsflieger_article(&vf, date(2025, 1, 1));
    assert_eq!(articles.count(), 0);
    articles.update_vereinsflieger_article(&vf, date(2024, 2, 29));
    assert_eq!(articles.get("1111").unwrap().name, "Cola");
    assert_eq!(articles.get("1111").unwrap().price, 150);
}

#[test]
fn article_refresh_replaces_information() {
    let mut articles = Articles::new(vec!["1111".into(), "2222".into()]);
    articles.update_article(&"2222".into(), "Old", 1u32);
    let received = vec![
        VfArticle {
            articleid: "1111".into(),
            designation: "Getränk Cola".into(),
            prices: vec![ArticlePrice { validfrom: date(2024, 1, 1), validto: date(9999, 12, 31), unitprice: 150u32 }],
        },
        VfArticle {
            articleid: "3333".into(),
            designation: "Unwanted".into(),
            prices: vec![ArticlePrice { validfrom: date(2024, 1, 1), validto: date(9999, 12, 31), unitprice: 99u32 }],
        },
    ];
    assert_eq!(articles.refresh(&received, date(2024, 3, 1)), 2);
    assert_eq!(articles.count(), 1);
    assert_eq!(articles.get("1111").unwrap().name, "Cola");
    assert_eq!(articles.get("2222"), None);
    assert_eq!(received[0].price(), Some(150));
}

#[test]
fn refresh_needs_current_date() {
    let received = vec![VfArticle {
        articleid: "1111".into(),
        designation: "Getränk Cola".into(),
        prices: vec![ArticlePrice { validfrom: date(2015, 1, 1), validto: date(2015, 12, 31), unitprice: 150u32 }],
    }];
    let mut articles = Articles::new(vec!["1111".into()]);
    articles.update_article(&"1111".into(), "Old", 1u32);
    // Without a current date nothing is cleared
    let mut clock = Clock::new();
    assert!(matches!(
        refresh_articles_today(&mut articles, &received, &clock, 0),
        Err(ErrorKind::CurrentTimeNotSet)
    ));
    assert_eq!(articles.get("1111").unwrap().name, "Old");
    // 2015-02-18 23:16:09 UTC
    clock.set_by_reference(1_424_301_369_000_000, 0);
    assert!(matches!(refresh_articles_today(&mut articles, &received, &clock, 0), Ok(1)));
    assert_eq!(articles.get("1111").unwrap().name, "Cola");
    assert_eq!(articles.get("1111").unwrap().price, 150);
}

#[test]
fn refresh_data_in_order() {
    let received = vec![VfArticle {
        articleid: "1111".into(),
        designation: "Getränk Cola".into(),
        prices: vec![ArticlePrice { validfrom: date(2015, 1, 1), validto: date(2015, 12, 31), unitprice: 150u32 }],
    }];
    let members = vec![VfUser {
        firstname: "Alice".into(),
        memberid: 7,
        memberstatus: "Aktiv".into(),
        keymanagement: vec![Key { title: "NFC Transponder".into(), keyname: "0a0b0c0d".into() }],
    }];
    let mut articles = Articles::new(vec!["1111".into()]);
    let mut users = Users::new();
    let mut clock = Clock::new();
    // Without a current date neither table changes
    assert!(matches!(
        refresh_data(&mut articles, &mut users, &received, &members, &clock, 0),
        Err(ErrorKind::CurrentTimeNotSet)
    ));
    assert_eq!(articles.count(), 0);
    assert!(users.get(7).is_none());
    clock.set_by_reference(1_424_301_369_000_000, 0);
    let event = refresh_data(&mut articles, &mut users, &received, &members, &clock, 0).unwrap();
    assert!(matches!(event, Event::DataRefreshed(1, 3, 2)));
    assert_eq!(users.get(7).unwrap().name, "Alice");
}
