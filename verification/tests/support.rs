use touch_n_drink::error::{Error, ErrorKind};
use touch_n_drink::util::{DisplayDuration, DisplayOption, DisplaySlice, Rect, RectangleExt, SensitiveString};
use touch_n_drink::vereinsflieger::Error as VfError;
use touch_n_drink::{ota, pn532};

#[test]
fn sensitive_strings_are_redacted() {
    assert_eq!(SensitiveString("secret".into()).to_string(), "<redacted>");
    assert_eq!(SensitiveString(String::new()).to_string(), "");
    assert_eq!(SensitiveString("secret".into()).as_str(), "secret");
}

#[test]
fn display_helpers() {
    assert_eq!(DisplayOption(Some("x".to_string())).to_string(), "x");
    assert_eq!(DisplayOption::<String>(None).to_string(), "-");
    let items = vec!["a".to_string(), "b".to_string(), "c".to_string()];
    assert_eq!(DisplaySlice(&items).to_string(), "a, b, c");
    assert_eq!(DisplaySlice::<String>(&[]).to_string(), "-");
    assert_eq!(DisplayDuration(0).to_string(), "0h0m0s");
    assert_eq!(DisplayDuration(3 * 3600 + 25 * 60 + 7).to_string(), "3h25m7s");
    assert_eq!(DisplayDuration(86400).to_string(), "24h0m0s");
}

#[test]
fn rectangle_header_and_footer() {
    let r = Rect { x: 0, y: 0, width: 128, height: 64 };
    let (head, body) = r.header(10);
    assert_eq!(head, Rect { x: 0, y: 0, width: 128, height: 10 });
    assert_eq!(body, Rect { x: 0, y: 10, width: 128, height: 54 });
    let (body, foot) = r.footer(12);
    assert_eq!(body, Rect { x: 0, y: 0, width: 128, height: 52 });
    assert_eq!(foot, Rect { x: 0, y: 52, width: 128, height: 12 });
}

#[test]
fn error_kinds_and_users() {
    let e = Error::from_kind(ErrorKind::Cancel);
    assert!(e.is_cancel());
    assert!(!e.is_user_timeout());
    assert_eq!(e.user_id(), None);
    let r: Result<(), Error> = Error::try_with(42, Err(Error::from_kind(ErrorKind::UserTimeout)));
    let e = r.unwrap_err();
    assert!(e.is_user_timeout());
    assert_eq!(e.user_id(), Some(42));
    assert_eq!(Error::try_with(42, Ok::<u8, Error>(7)).unwrap(), 7);
}

#[test]
fn error_messages() {
    assert_eq!(ErrorKind::Cancel.message(), "User cancelled");
    assert_eq!(ErrorKind::UserTimeout.message(), "Timeout waiting for input");
    assert_eq!(ErrorKind::ArticleNotFound.message(), "Article not found");
    assert_eq!(ErrorKind::NFCError(pn532::Error::CrcError).message(), "NFC: CRC error");
    assert_eq!(
        ErrorKind::Ota(ota::Error::RequestFailed(404)).message(),
        "OTA: Request failed (404)"
    );
    assert_eq!(
        ErrorKind::VereinsfliegerError(VfError::RequestFailed(401)).message(),
        "Vereinsflieger: Request failed (401)"
    );
    assert_eq!(
        ErrorKind::VereinsfliegerError(VfError::NotLoggedIn).message(),
        "Vereinsflieger: Not logged in"
    );
    assert_eq!(Error::from_kind(ErrorKind::NoNetwork).kind().message(), "No network connection");
}
