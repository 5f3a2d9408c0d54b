use touch_n_drink::article::Articles;
use touch_n_drink::telemetry::Event;
use touch_n_drink::ui::{authenticate, data_refreshed};
use touch_n_drink::nfc::Uid;
use touch_n_drink::user::Users;
use touch_n_drink::vereinsflieger::proto_user::{Key, User as VfUser};

fn key(title: &str, keyname: &str) -> Key {
    Key { title: title.into(), keyname: keyname.into() }
}

#[test]
fn users_know_test_cards() {
    let users = Users::new();
    assert_eq!(users.count_uids(), 2);
    assert_eq!(users.count(), 1);
    let (id, user) = users.get_by_uid(&Uid::Single([0x13, 0xbd, 0x5b, 0x2a])).unwrap();
    assert_eq!(id, 3);
    assert_eq!(user.name, "Test-User");
    assert_eq!(users.get_by_uid(&Uid::Single([0xb7, 0xd3, 0x65, 0x26])).unwrap().0, 3);
    assert!(users.get_by_uid(&Uid::Single([1, 2, 3, 4])).is_none());
    assert_eq!(users.get(3).unwrap().name, "Test-User");
    assert!(users.get(4).is_none());
}

#[test]
fn users_update_and_clear() {
    let mut users = Users::new();
    users.update_uid(Uid::Single([1, 2, 3, 4]), 42);
    assert!(users.get_by_uid(&Uid::Single([1, 2, 3, 4])).is_none());
    users.update_user(42, "Alice".into());
    let (id, user) = users.get_by_uid(&Uid::Single([1, 2, 3, 4])).unwrap();
    assert_eq!((id, user.name.as_str()), (42, "Alice"));
    users.update_user(42, "Alicia".into());
    assert_eq!(users.get(42).unwrap().name, "Alicia");
    assert_eq!(users.count(), 2);
    users.update_uid(Uid::Single([1, 2, 3, 4]), 3);
    assert_eq!(users.get_by_uid(&Uid::Single([1, 2, 3, 4])).unwrap().0, 3);
    assert_eq!(users.count_uids(), 3);
    users.clear();
    assert_eq!(users.count_uids(), 2);
    assert_eq!(users.count(), 1);
    assert!(users.get(42).is_none());
}

#[test]
fn vereinsflieger_users() {
    let mut users = Users::new();
    let alice = VfUser {
        firstname: "Alice".into(),
        memberid: 7,
        memberstatus: "Aktiv".into(),
        keymanagement: vec![
            key("NFC Transponder", "0a0b0c0d"),
            key("Schlüssel", "11223344"),
            key("NFC Transponder 2", "not-a-uid"),
            key("NFC Transponder 3", "01020304050607"),
        ],
    };
    users.update_vereinsflieger_user(&alice);
    assert_eq!(users.get_by_uid(&Uid::Single([0x0a, 0x0b, 0x0c, 0x0d])).unwrap().0, 7);
    assert_eq!(users.get_by_uid(&Uid::Double([1, 2, 3, 4, 5, 6, 7])).unwrap().1.name, "Alice");
    assert!(users.get_by_uid(&Uid::Single([0x11, 0x22, 0x33, 0x44])).is_none());

    // Retired members are ignored
    let bob = VfUser {
        firstname: "Bob".into(),
        memberid: 8,
        memberstatus: "Ausgeschieden".into(),
        keymanagement: vec![key("NFC Transponder", "a1a2a3a4")],
    };
    assert!(bob.is_retired());
    users.update_vereinsflieger_user(&bob);
    assert!(users.get(8).is_none());
    assert!(users.get_by_uid(&Uid::Single([0xa1, 0xa2, 0xa3, 0xa4])).is_none());

    // Members without a valid card are not added
    let carol = VfUser {
        firstname: "Carol".into(),
        memberid: 9,
        memberstatus: "Aktiv".into(),
        keymanagement: vec![key("NFC Transponder", "xyz")],
    };
    users.update_vereinsflieger_user(&carol);
    assert!(users.get(9).is_none());
}

#[test]
fn keys_by_label_prefix() {
    let user = VfUser {
        firstname: "Alice".into(),
        memberid: 7,
        memberstatus: "aktiv (ausgeschieden)".into(),
        keymanagement: vec![key("NFC Transponder", "1"), key("Tür", "2"), key("NFC Transponder B", "3")],
    };
    assert_eq!(user.keys_named_with_prefix("NFC Transponder"), vec!["1", "3"]);
    assert!(user.is_retired());
}

#[test]
fn users_refresh_and_authenticate() {

    let mut users = Users::new();
    users.update_user(99, "Gone".into());
    let received = vec![VfUser {
        firstname: "Alice".into(),
        memberid: 7,
        memberstatus: "Aktiv".into(),
        keymanagement: vec![key("NFC Transponder", "0a0b0c0d")],
    }];
    assert_eq!(users.refresh(&received), 1);
    assert!(users.get(99).is_none());
    assert_eq!(users.count(), 2);

    let (who, event) = authenticate(&users, Uid::Single([0x0a, 0x0b, 0x0c, 0x0d]));
    assert_eq!(who, Some((7, "Alice".to_string())));
    assert!(matches!(event, Event::UserAuthenticated(7, _)));
    let (who, event) = authenticate(&users, Uid::Single([1, 1, 1, 1]));
    assert_eq!(who, None);
    assert!(matches!(event, Event::AuthenticationFailed(u) if u == Uid::Single([1, 1, 1, 1])));

    let articles: Articles<u32> = Articles::new(vec!["1".into()]);
    assert!(matches!(data_refreshed(&articles, &users), Event::DataRefreshed(0, 3, 2)));
}

#[test]
fn counts_follow_updates() {
    let mut users = Users::new();
    let (uids, count) = (users.count_uids(), users.count());
    users.update_uid(Uid::Single([1, 2, 3, 4]), 5);
    assert_eq!(users.count_uids(), uids + 1);
    // Re-mapping a known card replaces its user, it does not add a card
    users.update_uid(Uid::Single([1, 2, 3, 4]), 6);
    assert_eq!(users.count_uids(), uids + 1);
    assert_eq!(users.count(), count);
    users.update_user(5, "Eve".into());
    assert_eq!(users.count(), count + 1);
    users.update_user(5, "Eva".into());
    assert_eq!(users.count(), count + 1);
    assert_eq!(users.count_uids(), uids + 1);
}

#[test]
fn vereinsflieger_user_update_keeps_other_entries() {
    let mut users = Users::new();
    users.update_uid(Uid::Single([0x0a, 0x0b, 0x0c, 0x0d]), 1);
    users.update_uid(Uid::Single([9, 9, 9, 9]), 1);
    users.update_user(1, "Old".into());
    let dave = VfUser {
        firstname: "Dave".into(),
        memberid: 2,
        memberstatus: "Aktiv".into(),
        keymanagement: vec![key("NFC Transponder", "0a0b0c0d")],
    };
    users.update_vereinsflieger_user(&dave);
    // The parsed card now points to the member, other cards and users stay
    assert_eq!(users.get_by_uid(&Uid::Single([0x0a, 0x0b, 0x0c, 0x0d])).unwrap().0, 2);
    assert_eq!(users.get_by_uid(&Uid::Single([9, 9, 9, 9])).unwrap().1.name, "Old");
    assert_eq!(users.get(2).unwrap().name, "Dave");
    assert_eq!(users.get(1).unwrap().name, "Old");
}
