//! Errors of reading and reducing cookies.

use vstd::prelude::*;

verus! {

/// Why no cookie header could be produced.
#[derive(Clone, Copy, Debug, PartialEq, Eq, Structural)]
pub enum CookieError {
    /// There is no `SESSDATA` cookie with a value.
    MissingSession,
    /// The key ring knows no entry for this browser.
    UnknownBrowser,
    /// Cookies cannot be taken from this browser.
    UnsupportedBrowser,
    /// The stored value does not decrypt under the key.
    DecryptionFailed,
    /// The stored value is not in the `v11` format.
    NotVersion11,
    /// No Firefox profile has a cookie database.
    NoProfile,
    /// A cookie that is wanted has no value in the database.
    NullValue,
    /// The login check was answered with something that is not JSON.
    MalformedReply,
}

impl CookieError {
    /// The text of the error.
    pub open spec fn text(self) -> Seq<char> {
        match self {
            CookieError::MissingSession => "the required SESSDATA cookie was not found"@,
            CookieError::UnknownBrowser => "unknown browser"@,
            CookieError::UnsupportedBrowser => "browser not supported"@,
            CookieError::DecryptionFailed => "decryption failed"@,
            CookieError::NotVersion11 => "a v10 cookie"@,
            CookieError::NoProfile => "no Firefox profile with cookies.sqlite was found"@,
            CookieError::NullValue => "error occurred while decoding column \"value\": unexpected null; try decoding as an `Option`"@,
            CookieError::MalformedReply => "error decoding response body"@,
        }
    }

    /// The text of the error.
    pub fn message(&self) -> (res: &'static str)
        ensures
            res@ == self.text(),
    {
        match self {
            CookieError::MissingSession => "the required SESSDATA cookie was not found",
            CookieError::UnknownBrowser => "unknown browser",
            CookieError::UnsupportedBrowser => "browser not supported",
            CookieError::DecryptionFailed => "decryption failed",
            CookieError::NotVersion11 => "a v10 cookie",
            CookieError::NoProfile => "no Firefox profile with cookies.sqlite was found",
            CookieError::NullValue => "error occurred while decoding column \"value\": unexpected null; try decoding as an `Option`",
            CookieError::MalformedReply => "error decoding response body",
        }
    }
}

/// The text of each error, as it is reported.
pub proof fn law_errors_are_reported_as_texts()
    ensures
        CookieError::MissingSession.text() == "the required SESSDATA cookie was not found"@,
        CookieError::UnknownBrowser.text() == "unknown browser"@,
        CookieError::UnsupportedBrowser.text() == "browser not supported"@,
        CookieError::DecryptionFailed.text() == "decryption failed"@,
        CookieError::NotVersion11.text() == "a v10 cookie"@,
        CookieError::NoProfile.text() == "no Firefox profile with cookies.sqlite was found"@,
        CookieError::NullValue.text()
            == "error occurred while decoding column \"value\": unexpected null; try decoding as an `Option`"@,
        CookieError::MalformedReply.text() == "error decoding response body"@,
{
}

} // verus!
