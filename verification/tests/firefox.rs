use dmlive::error::CookieError;
use dmlive::firefox::{
    continue_search, host_names, read_firefox_cookies, select_cookies, start_search, MozCookie,
    SearchAction,
};

fn row(
    name: &str,
    value: &str,
    host: &str,
    path: &str,
    expiry: i64,
    origin_attributes: &str,
    last_accessed: i64,
) -> MozCookie {
    MozCookie {
        name: Some(name.to_string()),
        value: Some(value.to_string()),
        host: Some(host.to_string()),
        path: Some(path.to_string()),
        expiry: Some(expiry),
        origin_attributes: Some(origin_attributes.to_string()),
        last_accessed: Some(last_accessed),
    }
}

const NOW: i64 = 1_700_000_000;

#[test]
fn firefox_reader_filters_expired_scoped_and_container_cookies() {
    let future = NOW + 3600;
    let past = future - 7200;
    let rows = vec![
        row("SESSDATA", "session", ".bilibili.com", "/", future, "", 1),
        row("bili_jct", "csrf", ".bilibili.com", "/", future, "", 2),
        row("DedeUserID", "123", ".bilibili.com", "/", future, "", 3),
        row("buvid3", "tracking", ".bilibili.com", "/", future, "", 4),
        row("expired", "old", ".bilibili.com", "/", past, "", 5),
        row("scoped", "path", ".bilibili.com", "/account", future, "", 6),
        row("container", "isolated", ".bilibili.com", "/", future, "userContextId=1", 7),
    ];
    let header = read_firefox_cookies(&rows, ".bilibili.com", NOW).unwrap();
    assert_eq!(header, "SESSDATA=session; bili_jct=csrf; DedeUserID=123");
}

#[test]
fn login_cookies_are_filtered_one_by_one() {
    let future = NOW + 1;
    let good = || row("SESSDATA", "good", ".bilibili.com", "/", future, "", 1);
    let bad = vec![
        row("SESSDATA", "bad", ".bilibili.com", "/", NOW, "", 9),
        row("SESSDATA", "bad", ".bilibili.com", "/", NOW - 1, "", 9),
        row("SESSDATA", "bad", ".bilibili.com", "/account", future, "", 9),
        row("SESSDATA", "bad", ".bilibili.com", "/", future, "userContextId=1", 9),
        row("SESSDATA", "bad", ".live.bilibili.com", "/", future, "", 9),
        row("sessdata", "bad", ".bilibili.com", "/", future, "", 9),
        MozCookie { host: None, ..row("SESSDATA", "bad", "", "/", future, "", 9) },
        MozCookie { path: None, ..row("SESSDATA", "bad", ".bilibili.com", "", future, "", 9) },
        MozCookie { expiry: None, ..row("SESSDATA", "bad", ".bilibili.com", "/", 0, "", 9) },
        MozCookie {
            origin_attributes: None,
            ..row("SESSDATA", "bad", ".bilibili.com", "/", future, "", 9)
        },
        MozCookie { name: None, ..row("", "bad", ".bilibili.com", "/", future, "", 9) },
    ];
    for row in bad {
        assert_eq!(
            read_firefox_cookies(&vec![good(), row], "bilibili.com", NOW),
            Ok("SESSDATA=good".to_string())
        );
    }
}

#[test]
fn cookie_accessed_last_wins() {
    let rows = vec![
        row("SESSDATA", "third", "bilibili.com", "/", 0, "", 30),
        row("SESSDATA", "first", "www.bilibili.com", "/", 0, "", 10),
        row("SESSDATA", "second", ".bilibili.com", "/", 0, "", 20),
        MozCookie {
            last_accessed: None,
            ..row("SESSDATA", "never", ".bilibili.com", "/", 0, "", 0)
        },
    ];
    let values = |rows: &Vec<MozCookie>| -> Vec<String> {
        match select_cookies(rows, "..bilibili.com", NOW) {
            Ok(found) => found.into_iter().map(|cookie| cookie.value).collect(),
            Err(e) => panic!("{e:?}"),
        }
    };
    assert_eq!(values(&rows), ["never", "first", "second", "third"]);
    assert_eq!(
        read_firefox_cookies(&rows, "..bilibili.com", NOW),
        Ok("SESSDATA=third".to_string())
    );
    let tied = vec![
        row("SESSDATA", "a", ".bilibili.com", "/", 0, "", 5),
        row("SESSDATA", "b", ".bilibili.com", "/", 0, "", 5),
    ];
    assert_eq!(values(&tied), ["a", "b"]);
}

#[test]
fn database_without_a_session_is_an_error() {
    let rows = vec![row("bili_jct", "j", ".bilibili.com", "/", 0, "", 1)];
    assert_eq!(
        read_firefox_cookies(&rows, ".bilibili.com", NOW),
        Err(CookieError::MissingSession)
    );
    assert_eq!(
        read_firefox_cookies(&vec![], ".bilibili.com", NOW),
        Err(CookieError::MissingSession)
    );
}

#[test]
fn wanted_cookie_without_a_value_is_an_error() {
    let null = MozCookie {
        value: None,
        ..row("bili_jct", "", ".bilibili.com", "/", 0, "", 1)
    };
    let unwanted = MozCookie {
        value: None,
        ..row("other", "", ".bilibili.com", "/", 0, "", 1)
    };
    let session = || row("SESSDATA", "s", ".bilibili.com", "/", 0, "", 1);
    assert_eq!(
        read_firefox_cookies(&vec![session(), null], ".bilibili.com", NOW),
        Err(CookieError::NullValue)
    );
    assert_eq!(
        read_firefox_cookies(&vec![session(), unwanted], ".bilibili.com", NOW),
        Ok("SESSDATA=s".to_string())
    );
}

#[test]
fn missing_value_is_reported_as_the_database_reports_it() {
    let error = sqlx::Error::ColumnDecode {
        index: format!("{:?}", "value"),
        source: Box::new(sqlx::error::UnexpectedNullError),
    };
    assert_eq!(CookieError::NullValue.message(), error.to_string());
}

#[test]
fn cookies_are_stored_under_three_hosts() {
    for host in ["bilibili.com", ".bilibili.com", "..bilibili.com"] {
        let names = host_names(host);
        assert_eq!(names.domain, ".bilibili.com");
        assert_eq!(names.bare, "bilibili.com");
        assert_eq!(names.www, "www.bilibili.com");
    }
}

fn search(outcomes: Vec<Result<String, String>>) -> SearchAction {
    let count = outcomes.len();
    let mut action = start_search(count);
    loop {
        match action {
            SearchAction::Read(profile) => {
                action = continue_search(count, profile, outcomes[profile].clone());
            }
            end => return end,
        }
    }
}

#[test]
fn first_readable_profile_ends_the_search() {
    let ok = |header: &str| Ok(header.to_string());
    let err = |cause: &str| Err(cause.to_string());
    assert!(matches!(
        search(vec![err("locked"), ok("b"), ok("c")]),
        SearchAction::Found(header) if header == "b"
    ));
    assert!(matches!(
        search(vec![err("first"), err("last")]),
        SearchAction::Failed(1, cause) if cause == "last"
    ));
    assert!(matches!(search(vec![]), SearchAction::Nothing));
}
