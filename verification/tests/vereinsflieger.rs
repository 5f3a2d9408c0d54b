use touch_n_drink::json::error::Error as JsonError;
use touch_n_drink::json::reader::Reader;
use touch_n_drink::json::writer::Writer;
use touch_n_drink::vereinsflieger::proto_auth::{
    AccessTokenResponse, SignInRequest, SignInResponse, UserInformationRequest, UserInformationResponse,
};
use touch_n_drink::vereinsflieger::proto_sale::{SaleAddRequest, SaleAddResponse};
use touch_n_drink::vereinsflieger::{Error, Vereinsflieger};

fn reader(s: &str) -> Reader {
    Reader::new(s.as_bytes().to_vec())
}

fn json(f: impl FnOnce(&mut Writer)) -> String {
    let mut writer = Writer::new(Vec::new());
    f(&mut writer);
    String::from_utf8(writer.into_inner()).unwrap()
}

#[test]
fn session_handling() {
    let mut vf = Vereinsflieger::new("user", "md5", "key", Some(1));
    assert!(vf.needs_sign_in());
    assert!(matches!(vf.accesstoken(), Err(Error::NotLoggedIn)));
    vf.set_accesstoken("tok".into());
    assert!(!vf.needs_sign_in());
    assert_eq!(vf.accesstoken().unwrap(), "tok");
    assert_eq!(vf.check_signed_in(Ok(())).unwrap(), true);
    assert!(matches!(vf.check_signed_in(Err(Error::Timeout)), Err(Error::Timeout)));
    assert_eq!(vf.accesstoken().unwrap(), "tok");
    assert!(matches!(vf.check_signed_in(Err(Error::RequestFailed(500))), Err(Error::RequestFailed(500))));
    assert_eq!(vf.check_signed_in(Err(Error::RequestFailed(401))).unwrap(), false);
    assert!(vf.needs_sign_in());
}

#[test]
fn access_token_response() {
    let r = AccessTokenResponse::read(&mut reader(r#"{"accesstoken": "abc", "httpstatuscode": 200}"#)).unwrap();
    assert_eq!(r.accesstoken, "abc");
    assert_eq!(AccessTokenResponse::read(&mut reader("[]")).unwrap_err(), JsonError::Unexpected('['));
    assert_eq!(AccessTokenResponse::read(&mut reader(r#"{"accesstoken": 1}"#)).unwrap_err(), JsonError::InvalidType);
    assert!(SignInResponse::read(&mut reader(r#"{"httpstatuscode": 200}"#)).is_ok());
    assert!(SaleAddResponse::read(&mut reader("{}")).is_ok());
}

#[test]
fn sign_in_request_json() {
    let req = SignInRequest {
        accesstoken: "tok".into(),
        username: "user".into(),
        password_md5: "md5".into(),
        appkey: "key".into(),
        cid: Some(7),
        auth_secret: None,
    };
    assert_eq!(
        json(|w| req.to_json(w).unwrap()),
        r#"{"accesstoken": "tok", "username": "user", "password": "md5", "appkey": "key", "cid": 7}"#
    );
    let req = UserInformationRequest { accesstoken: "tok".into() };
    assert_eq!(json(|w| req.to_json(w).unwrap()), r#"{"accesstoken": "tok"}"#);
}

#[test]
fn sale_request_json() {
    let req = SaleAddRequest {
        accesstoken: "tok".into(),
        bookingdate: "2024-05-01".into(),
        articleid: "1111".into(),
        amount: "2".into(),
        memberid: Some(42),
        totalprice: Some("3.5".into()),
        comment: None,
    };
    assert_eq!(
        json(|w| req.to_json(w).unwrap()),
        r#"{"accesstoken": "tok", "bookingdate": "2024-05-01", "articleid": "1111", "amount": 2, "memberid": 42, "totalprice": 3.5}"#
    );
}

#[test]
fn user_information_response() {
    let r = UserInformationResponse::read(&mut reader(
        r#"{"uid": "12", "firstname": "Alice", "lastname": "Doe", "memberid": 34, "status": "aktiv", "roles": ["a", "b"], "email": "a@b.c", "other": null}"#,
    ))
    .unwrap();
    assert_eq!(r.uid, 12);
    assert_eq!(r.firstname, "Alice");
    assert_eq!(r.lastname, "Doe");
    assert_eq!(r.memberid, 34);
    assert_eq!(r.status, "aktiv");
    assert_eq!(r.cid, 0);
    assert_eq!(r.roles, vec!["a".to_string(), "b".to_string()]);
    assert_eq!(r.email, "a@b.c");
    assert!(UserInformationResponse::read(&mut reader(r#"{"uid": "x"}"#)).is_err());
}
