//! The browsers from which cookies can be taken.

use crate::error::CookieError;
use crate::text;
use vstd::prelude::*;

verus! {

/// A browser from which cookies can be taken.
#[derive(Clone, Copy, Debug, PartialEq, Eq, Structural)]
pub enum Browser {
    Chrome,
    Firefox,
    Chromium,
}

/// The browser that a name stands for. Case and surrounding white space make no
/// difference.
pub open spec fn browser_named(name: Seq<char>) -> Option<Browser> {
    let plain = text::ascii_lowered(text::trimmed(name));
    if plain == "chrome"@ {
        Some(Browser::Chrome)
    } else if plain == "firefox"@ {
        Some(Browser::Firefox)
    } else if plain == "chromium"@ {
        Some(Browser::Chromium)
    } else {
        None
    }
}

/// The browser from which cookies are taken if `browser` is configured.
pub fn get_cookies_from_browser(browser: &str) -> (res: Result<Browser, CookieError>)
    ensures
        match res {
            Ok(found) => browser_named(browser@) == Some(found),
            Err(e) => browser_named(browser@) is None && e == CookieError::UnsupportedBrowser,
        },
{
    let name = text::trim(browser);
    if text::lowers_to(name, "chrome") {
        Ok(Browser::Chrome)
    } else if text::lowers_to(name, "firefox") {
        Ok(Browser::Firefox)
    } else if text::lowers_to(name, "chromium") {
        Ok(Browser::Chromium)
    } else {
        Err(CookieError::UnsupportedBrowser)
    }
}

/// A browser is known by its name in any mixture of cases, with any white space around it,
/// and by nothing else.
pub proof fn law_browsers_are_known_by_name(a: Seq<char>, name: Seq<char>, b: Seq<char>)
    requires
        text::all_space(a),
        text::all_space(b),
        text::is_trimmed(name),
    ensures
        browser_named(a + name + b) == Some(Browser::Chrome) <==> text::ascii_lowered(name)
            == "chrome"@,
        browser_named(a + name + b) == Some(Browser::Firefox) <==> text::ascii_lowered(name)
            == "firefox"@,
        browser_named(a + name + b) == Some(Browser::Chromium) <==> text::ascii_lowered(name)
            == "chromium"@,
{
    text::law_only_outer_space_is_trimmed(a, name, b);
    reveal_strlit("chrome");
    reveal_strlit("firefox");
    reveal_strlit("chromium");
    assert("chrome"@.len() != "chromium"@.len());
    assert("firefox"@[0] != "chrome"@[0]);
    assert("firefox"@[0] != "chromium"@[0]);
}

} // verus!
