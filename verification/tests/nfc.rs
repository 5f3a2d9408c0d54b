use touch_n_drink::nfc::{list_step, parse_target_list, InvalidUid, ListStep, TargetList, Uid};
use touch_n_drink::pn532::Error as Pn532Error;

#[test]
fn parse_uid() {
    assert_eq!(Uid::from_str("11223344"), Ok(Uid::Single([0x11, 0x22, 0x33, 0x44])));
    assert_eq!(
        Uid::from_str("11223344556677"),
        Ok(Uid::Double([0x11, 0x22, 0x33, 0x44, 0x55, 0x66, 0x77]))
    );
    assert_eq!(
        Uid::from_str("112233445566778899aa"),
        Ok(Uid::Triple([0x11, 0x22, 0x33, 0x44, 0x55, 0x66, 0x77, 0x88, 0x99, 0xaa]))
    );
    assert_eq!(Uid::from_str("foo"), Err(InvalidUid));
}

#[test]
fn display_uid() {
    assert_eq!(Uid::Single([0x11, 0x22, 0x33, 0x44]).to_string(), "11223344");
    assert_eq!(
        Uid::Double([0x11, 0x22, 0x33, 0x44, 0x55, 0x66, 0x77]).to_string(),
        "11223344556677"
    );
    assert_eq!(
        Uid::Triple([0x11, 0x22, 0x33, 0x44, 0x55, 0x66, 0x77, 0x88, 0x99, 0xaa]).to_string(),
        "112233445566778899aa"
    );
}

#[test]
fn parse_uid_upper_case_and_invalid_digits() {
    assert_eq!(Uid::from_str("DEADBEEF"), Ok(Uid::Single([0xde, 0xad, 0xbe, 0xef])));
    assert_eq!(Uid::from_str("1122334g"), Err(InvalidUid));
    assert_eq!(Uid::from_str("112233"), Err(InvalidUid));
    assert_eq!(Uid::from_str(""), Err(InvalidUid));
}

#[test]
fn uid_display_then_parse_gives_it_back() {
    let uid = Uid::Double([0x04, 0xa1, 0xff, 0x00, 0x7e, 0x10, 0x9c]);
    assert_eq!(Uid::from_str(&uid.to_string()), Ok(uid.clone()));
}

#[test]
fn uid_from_bytes() {
    assert_eq!(Uid::try_from(&[1, 2, 3, 4]), Ok(Uid::Single([1, 2, 3, 4])));
    assert_eq!(Uid::try_from(&[1, 2, 3, 4, 5]), Err(InvalidUid));
    assert_eq!(Uid::try_from(&[1, 2, 3, 4, 5, 6, 7, 8, 9, 10]).unwrap().as_ref(), &[1, 2, 3, 4, 5, 6, 7, 8, 9, 10]);
    let a = Uid::Single([1, 2, 3, 4]);
    assert!(a.same(&a.copy()));
    assert!(!a.same(&Uid::Single([1, 2, 3, 5])));
}

#[test]
fn target_list_responses() {
    assert!(matches!(parse_target_list(&[1, 1, 0, 4]), TargetList::TooShort));
    assert!(matches!(parse_target_list(&[0, 1, 0, 4, 8, 4]), TargetList::Empty));
    // One target with a 4 byte NFCID
    let resp = [1, 1, 0x00, 0x04, 0x08, 4, 0xde, 0xad, 0xbe, 0xef];
    match parse_target_list(&resp) {
        TargetList::Target(Some(uid)) => assert_eq!(uid, Uid::Single([0xde, 0xad, 0xbe, 0xef])),
        other => panic!("unexpected {:?}", other),
    }
    // Declared length longer than the response: cut short, 3 bytes are no valid UID
    let resp = [1, 1, 0x00, 0x04, 0x08, 7, 0xde, 0xad, 0xbe];
    assert!(matches!(parse_target_list(&resp), TargetList::Target(None)));
}

#[test]
fn reader_loop_steps() {
    assert!(matches!(list_step(Err(Pn532Error::TimeoutResponse)), ListStep::Restart));
    assert!(matches!(list_step(Err(Pn532Error::CrcError)), ListStep::Fail(Pn532Error::CrcError)));
    assert!(matches!(list_step(Ok(&[0u8, 1, 0, 4, 8, 4][..])), ListStep::Restart));
    assert!(matches!(list_step(Ok(&[1u8, 1][..])), ListStep::Restart));
    let resp = [1, 1, 0x00, 0x44, 0x00, 7, 1, 2, 3, 4, 5, 6, 7, 0x99];
    match list_step(Ok(&resp[..])) {
        ListStep::Release(Some(uid)) => assert_eq!(uid.as_ref(), &[1, 2, 3, 4, 5, 6, 7]),
        other => panic!("unexpected {:?}", other),
    }
}
