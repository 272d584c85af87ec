use dmlive::config::{Args, Config, ConfigManager};
use dmlive::refresh::{cookie_host, RefreshEvent, RefreshStage};

fn manager(bcookie: &str) -> ConfigManager {
    let config = Config {
        bcookie: Some(bcookie.to_string()),
        cookies_from_browser: Some("firefox".to_string()),
        danmaku_speed: None,
        font_alpha_bits: None,
        font_scale_bits: None,
    };
    let args = Args {
        url: "https://live.bilibili.com/6".to_string(),
        record: false,
        download_dm: false,
        wait_interval: None,
        log_level: 3,
        http_address: None,
        quiet: false,
        tcp: false,
        plive: false,
    };
    ConfigManager::new(config, &args)
}

/// Runs a refresh. The result is the cookie at the end, what was done and what was warned of.
fn run(
    bcookie: &str,
    configured: Result<bool, &str>,
    browser: Result<&str, &str>,
    candidate: Result<bool, &str>,
    saved: Result<(), &str>,
) -> (String, Vec<String>, Vec<String>) {
    let owned = |e: &str| e.to_string();
    let mut m = manager(bcookie);
    let mut stage = m.refresh_bili_cookie_from_browser();
    let mut done = Vec::new();
    let mut warnings = Vec::new();
    loop {
        let event = match &stage {
            RefreshStage::ValidateConfigured(cookie) => {
                done.push(format!("check {cookie}"));
                RefreshEvent::Validated(configured.map_err(owned))
            }
            RefreshStage::ReadBrowser => {
                done.push("read".to_string());
                RefreshEvent::BrowserCookies(browser.map(owned).map_err(owned))
            }
            RefreshStage::ValidateCandidate(cookie) => {
                done.push(format!("check {cookie}"));
                RefreshEvent::Validated(candidate.map_err(owned))
            }
            RefreshStage::SaveConfigured | RefreshStage::SaveCandidate => {
                done.push(format!("save {}", m.bcookie));
                RefreshEvent::Saved(saved.map_err(owned))
            }
            RefreshStage::Done => break,
        };
        let (next, warning) = m.continue_refresh(stage, event);
        if let Some(warning) = warning {
            warnings.push(warning.message(&m.cookies_from_browser));
        }
        stage = next;
    }
    (m.bcookie, done, warnings)
}

#[test]
fn valid_reduced_cookie_is_left_alone() {
    let (cookie, done, warnings) = run("SESSDATA=x", Ok(true), Ok(""), Ok(true), Ok(()));
    assert_eq!(cookie, "SESSDATA=x");
    assert_eq!(done, ["check SESSDATA=x"]);
    assert!(warnings.is_empty());
}

#[test]
fn valid_configured_cookie_is_reduced_and_saved() {
    let (cookie, done, warnings) = run("a=b;SESSDATA=x", Ok(true), Ok(""), Ok(true), Err("disk"));
    assert_eq!(cookie, "SESSDATA=x");
    assert_eq!(done, ["check SESSDATA=x", "save SESSDATA=x"]);
    assert_eq!(
        warnings,
        ["the minimal configured cookie is valid but could not be saved: disk"]
    );
}

#[test]
fn expired_cookie_is_replaced_from_the_browser() {
    let (cookie, done, warnings) = run(
        "SESSDATA=old",
        Ok(false),
        Ok("bili_jct=j; SESSDATA=new; tracking=1"),
        Ok(true),
        Ok(()),
    );
    assert_eq!(cookie, "SESSDATA=new; bili_jct=j");
    assert_eq!(
        done,
        [
            "check SESSDATA=old",
            "read",
            "check SESSDATA=new; bili_jct=j",
            "save SESSDATA=new; bili_jct=j"
        ]
    );
    assert_eq!(
        warnings,
        ["configured video-site cookie is no longer logged in; trying the browser profile"]
    );
}

#[test]
fn browser_cookie_is_used_even_if_it_cannot_be_saved() {
    let (cookie, done, warnings) = run("", Ok(true), Ok("SESSDATA=n"), Ok(true), Err("disk"));
    assert_eq!(cookie, "SESSDATA=n");
    assert_eq!(done, ["read", "check SESSDATA=n", "save SESSDATA=n"]);
    assert_eq!(
        warnings,
        ["browser cookies are valid but could not be saved to config: disk"]
    );
}

#[test]
fn unconfirmed_cookies_change_nothing() {
    for (browser, candidate, warning) in [
        (
            Err("locked"),
            Ok(true),
            "could not read cookies from firefox: locked",
        ),
        (
            Ok("bili_jct=j"),
            Ok(true),
            "cookies from firefox do not contain the required login fields: the required SESSDATA cookie was not found",
        ),
        (
            Ok("SESSDATA=n"),
            Ok(false),
            "cookies from firefox are not logged in",
        ),
        (
            Ok("SESSDATA=n"),
            Err("offline"),
            "could not validate cookies from firefox: offline",
        ),
    ] {
        let (cookie, _, warnings) = run(" SESSDATA=o", Err("timeout"), browser, candidate, Ok(()));
        assert_eq!(cookie, " SESSDATA=o");
        assert_eq!(
            warnings,
            [
                "could not validate the configured video-site cookie; trying the browser profile: timeout",
                warning
            ]
        );
    }
}

#[test]
fn kept_cookie_is_not_saved_again() {
    let (cookie, _, _) = run("x", Ok(true), Ok("z=1;SESSDATA= n ;"), Ok(true), Ok(()));
    let (again, done, _) = run(&cookie, Ok(true), Err(""), Ok(true), Ok(()));
    assert_eq!(again, cookie);
    assert_eq!(done, [format!("check {cookie}")]);
}

#[test]
fn warnings_tell_no_cookie() {
    let outcome = |secret: &str| {
        run(
            &format!("SESSDATA={secret}"),
            Ok(false),
            Ok(&format!("SESSDATA={secret}{secret}")),
            Ok(false),
            Ok(()),
        )
        .2
    };
    assert_eq!(outcome("one"), outcome("another"));
    assert!(outcome("one").iter().all(|warning| !warning.contains("oneone")));
}

#[test]
fn cookies_of_the_video_site_are_read() {
    assert_eq!(cookie_host(), ".bilibili.com");
}
