use dmlive::browser::{get_cookies_from_browser, Browser};
use dmlive::cookies::{cookie_header, minimal_bili_cookie, minimal_cookie_values, FirefoxCookie};
use dmlive::error::CookieError;
use dmlive::string_map::StringMap;

fn cookie(name: &str, value: &str) -> FirefoxCookie {
    FirefoxCookie {
        name: name.into(),
        value: value.into(),
    }
}

#[test]
fn cookie_headers_are_stable_and_do_not_include_empty_values() {
    let header = cookie_header(vec![
        FirefoxCookie {
            name: "SESSDATA".into(),
            value: "session".into(),
        },
        FirefoxCookie {
            name: "bili_jct".into(),
            value: "csrf".into(),
        },
        FirefoxCookie {
            name: "buvid3".into(),
            value: "tracking".into(),
        },
    ])
    .unwrap();
    assert_eq!(header, "SESSDATA=session; bili_jct=csrf");
}

#[test]
fn existing_cookie_headers_are_reduced_to_the_minimum() {
    let header = minimal_bili_cookie(
        "buvid3=tracking; DedeUserID=123; SESSDATA=session=value; bili_jct=csrf; sid=ignored",
    )
    .unwrap();
    assert_eq!(header, "SESSDATA=session=value; bili_jct=csrf; DedeUserID=123");
    assert!(minimal_bili_cookie("bili_jct=csrf; DedeUserID=123").is_err());
}

#[test]
fn header_order_does_not_depend_on_cookie_order() {
    let one = cookie_header(vec![
        cookie("DedeUserID", "9"),
        cookie("bili_jct", "j"),
        cookie("SESSDATA", "s"),
    ]);
    let two = cookie_header(vec![
        cookie("SESSDATA", "s"),
        cookie("DedeUserID", "9"),
        cookie("bili_jct", "j"),
    ]);
    assert_eq!(one, two);
    assert_eq!(one, Ok("SESSDATA=s; bili_jct=j; DedeUserID=9".to_string()));
}

#[test]
fn later_stored_cookie_wins_unless_it_is_empty() {
    let header = cookie_header(vec![
        cookie("SESSDATA", "old"),
        cookie("SESSDATA", "new"),
        cookie("SESSDATA", ""),
        cookie("", "nameless"),
    ]);
    assert_eq!(header, Ok("SESSDATA=new".to_string()));
}

#[test]
fn later_header_item_wins_even_if_it_is_empty() {
    assert_eq!(
        minimal_bili_cookie("SESSDATA=a; SESSDATA=b"),
        Ok("SESSDATA=b".to_string())
    );
    assert_eq!(
        minimal_bili_cookie("SESSDATA=a; SESSDATA="),
        Err(CookieError::MissingSession)
    );
}

#[test]
fn header_items_are_trimmed() {
    assert_eq!(
        minimal_bili_cookie(" \tSESSDATA = s ;;  bili_jct=\u{3000}j\u{a0};junk"),
        Ok("SESSDATA=s; bili_jct=j".to_string())
    );
}

#[test]
fn missing_session_is_an_error() {
    for header in ["", ";", "SESSDATA", "SESSDATA=", "sessdata=x", "=SESSDATA"] {
        assert_eq!(minimal_bili_cookie(header), Err(CookieError::MissingSession));
    }
    assert_eq!(cookie_header(vec![]), Err(CookieError::MissingSession));
    assert_eq!(
        CookieError::MissingSession.message(),
        "the required SESSDATA cookie was not found"
    );
}

#[test]
fn values_are_listed_in_a_fixed_order() {
    let mut values = StringMap::new();
    assert_eq!(
        minimal_cookie_values(&values),
        Err(CookieError::MissingSession)
    );
    values.insert("DedeUserID".to_string(), "1".to_string());
    values.insert("SESSDATA".to_string(), "x".to_string());
    values.insert("bili_jct".to_string(), "".to_string());
    values.insert("other".to_string(), "y".to_string());
    assert_eq!(
        minimal_cookie_values(&values),
        Ok("SESSDATA=x; DedeUserID=1".to_string())
    );
    assert_eq!(values.get("bili_jct"), Some(""));
    assert_eq!(values.get("nothing"), None);
}

#[test]
fn reduced_header_is_its_own_reduced_form() {
    for header in [
        "a=b; DedeUserID=123; SESSDATA=session=value; bili_jct=csrf; sid=ignored",
        "SESSDATA=x",
        "bili_jct=%2C; SESSDATA= a b ",
    ] {
        let once = minimal_bili_cookie(header).unwrap();
        assert_eq!(minimal_bili_cookie(&once), Ok(once.clone()));
        assert!(!once.contains("sid") && !once.contains("a=b"));
    }
}

#[test]
fn browsers_are_named_in_any_case() {
    assert_eq!(get_cookies_from_browser("chrome"), Ok(Browser::Chrome));
    assert_eq!(get_cookies_from_browser(" FireFox\n"), Ok(Browser::Firefox));
    assert_eq!(get_cookies_from_browser("CHROMIUM"), Ok(Browser::Chromium));
    for name in ["", "safari", "chromi", "chrome2", "fire fox", "Ｃhrome"] {
        assert_eq!(
            get_cookies_from_browser(name),
            Err(CookieError::UnsupportedBrowser)
        );
    }
}

#[test]
fn only_the_items_of_login_cookies_count() {
    let one = "SESSDATA=a;bili_jct=j;SESSDATA=b;x=1";
    let two = "bili_jct = j;;y=2; SESSDATA=a ;z;SESSDATA=b";
    assert_eq!(minimal_bili_cookie(one), minimal_bili_cookie(two));
    assert_eq!(
        minimal_bili_cookie(one),
        Ok("SESSDATA=b; bili_jct=j".to_string())
    );
}
