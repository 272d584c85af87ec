use dmlive::error::CookieError;
use dmlive::login::{logged_in, login_request, validate_bili_cookie};

#[test]
fn blank_cookie_is_not_sent() {
    assert!(login_request("").is_none());
    assert!(login_request(" \t\u{3000}\n").is_none());
}

#[test]
fn blank_cookie_is_not_logged_in() {
    let logged_in = br#"{"code":0,"data":{"isLogin":true}}"#;
    for cookie in ["", "   ", " \t\u{3000}\n"] {
        assert_eq!(validate_bili_cookie(cookie, b""), Ok(false));
        assert_eq!(validate_bili_cookie(cookie, logged_in), Ok(false));
    }
}

#[test]
fn request_carries_the_cookie() {
    let request = login_request(" SESSDATA=x ").unwrap();
    assert_eq!(request.url, "https://api.bilibili.com/x/web-interface/nav");
    assert_eq!(request.referer, "https://www.bilibili.com/");
    assert_eq!(request.cookie, " SESSDATA=x ");
    assert_eq!(request.connect_timeout_secs, 10);
    assert_eq!(request.timeout_secs, 15);
}

#[test]
fn reply_with_code_and_flag_is_logged_in() {
    assert_eq!(
        validate_bili_cookie(
            "SESSDATA=x",
            br#"{"code":0,"message":"0","data":{"isLogin":true,"mid":1}}"#
        ),
        Ok(true)
    );
}

#[test]
fn any_other_reply_is_not_logged_in() {
    for body in [
        r#"{"code":-101,"data":{"isLogin":false}}"#,
        r#"{"code":0,"data":{"isLogin":false}}"#,
        r#"{"code":1,"data":{"isLogin":true}}"#,
        r#"{"code":0.0,"data":{"isLogin":true}}"#,
        r#"{"code":"0","data":{"isLogin":true}}"#,
        r#"{"code":0,"data":{"isLogin":1}}"#,
        r#"{"code":0,"data":[true]}"#,
        r#"{"code":0}"#,
        r#"{"data":{"isLogin":true}}"#,
        "[]",
        "null",
    ] {
        assert_eq!(validate_bili_cookie("SESSDATA=x", body.as_bytes()), Ok(false), "{body}");
    }
}

#[test]
fn reply_that_is_no_json_is_an_error() {
    for body in ["", "<html>", r#"{"code":0"#] {
        assert_eq!(
            validate_bili_cookie("SESSDATA=x", body.as_bytes()),
            Err(CookieError::MalformedReply)
        );
    }
}

#[test]
fn malformed_reply_is_reported_as_the_client_reports_it() {
    assert_eq!(
        CookieError::MalformedReply.message(),
        "error decoding response body"
    );
}

#[test]
fn code_and_flag_decide() {
    assert!(logged_in(Some(0), Some(true)));
    assert!(!logged_in(Some(0), Some(false)));
    assert!(!logged_in(Some(-101), Some(true)));
    assert!(!logged_in(None, Some(true)));
    assert!(!logged_in(Some(0), None));
}
