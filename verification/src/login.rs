//! The check whether a cookie still belongs to a logged-in session.

use crate::error::CookieError;
use crate::outside;
use crate::text;
use vstd::prelude::*;

verus! {

/// A request that asks the site whether a cookie is logged in.
pub struct LoginRequest {
    pub url: &'static str,
    pub referer: &'static str,
    pub cookie: String,
    pub connect_timeout_secs: u64,
    pub timeout_secs: u64,
}

/// The request that checks `cookie`. Nothing is asked about a blank cookie.
pub fn login_request(cookie: &str) -> (res: Option<LoginRequest>)
    ensures
        res is None <==> text::trimmed(cookie@).len() == 0,
        res matches Some(request) ==> {
            &&& request.url@ == "https://api.bilibili.com/x/web-interface/nav"@
            &&& request.referer@ == "https://www.bilibili.com/"@
            &&& request.cookie@ == cookie@
            &&& request.connect_timeout_secs == 10
            &&& request.timeout_secs == 15
        },
{
    if text::trim(cookie).is_empty() {
        return None;
    }
    Some(
        LoginRequest {
            url: "https://api.bilibili.com/x/web-interface/nav",
            referer: "https://www.bilibili.com/",
            cookie: cookie.to_owned(),
            connect_timeout_secs: 10,
            timeout_secs: 15,
        },
    )
}

/// Whether a reply says that the session is logged in: its code is zero and its login flag
/// is set.
pub open spec fn says_logged_in(code: Option<i64>, is_login: Option<bool>) -> bool {
    code == Some(0i64) && is_login == Some(true)
}

/// Whether the code and the login flag of a reply say that the session is logged in.
pub fn logged_in(code: Option<i64>, is_login: Option<bool>) -> (res: bool)
    ensures
        res == says_logged_in(code, is_login),
{
    match (code, is_login) {
        (Some(code), Some(is_login)) => code == 0 && is_login,
        _ => false,
    }
}

/// What the body of a reply says: whether the session is logged in, if it is JSON.
pub open spec fn reply_verdict(body: Seq<u8>) -> Option<bool> {
    match (
        outside::json_i64_at(body, "/code"@),
        outside::json_bool_at(body, "/data/isLogin"@),
    ) {
        (Some(code), Some(is_login)) => Some(says_logged_in(code, is_login)),
        _ => None,
    }
}

/// Whether `cookie` is logged in, by the body of the reply to the request that checks it.
/// A blank cookie is not logged in: nothing is asked about it, and no body counts.
pub fn validate_bili_cookie(cookie: &str, body: &[u8]) -> (res: Result<bool, CookieError>)
    ensures
        text::trimmed(cookie@).len() == 0 ==> res == Ok::<bool, CookieError>(false),
        text::trimmed(cookie@).len() > 0 ==> match res {
            Ok(verdict) => reply_verdict(body@) == Some(verdict),
            Err(e) => reply_verdict(body@) is None && e == CookieError::MalformedReply,
        },
{
    if text::trim(cookie).is_empty() {
        return Ok(false);
    }
    match (outside::json_i64(body, "/code"), outside::json_bool(body, "/data/isLogin")) {
        (Some(code), Some(is_login)) => Ok(logged_in(code, is_login)),
        _ => Err(CookieError::MalformedReply),
    }
}

/// A reply confirms a login exactly if its code is zero and its login flag is set, as the
/// document has them at `/code` and at `/data/isLogin`; a document that is JSON but says
/// anything else denies it, and only what is no JSON says nothing.
pub proof fn law_reply_needs_zero_code_and_flag(body: Seq<u8>)
    ensures
        reply_verdict(body) == Some(true) <==> outside::json_i64_at(body, "/code"@) == Some(
            Some(0i64),
        ) && outside::json_bool_at(body, "/data/isLogin"@) == Some(Some(true)),
        reply_verdict(body) is None <==> outside::json_i64_at(body, "/code"@) is None
            || outside::json_bool_at(body, "/data/isLogin"@) is None,
{
}

/// A login takes both a code and a flag: every other code, a flag that is not set, and the
/// lack of either deny it.
pub proof fn law_login_takes_code_and_flag(code: i64, is_login: bool)
    ensures
        says_logged_in(Some(0), Some(true)),
        code != 0 ==> !says_logged_in(Some(code), Some(is_login)),
        !says_logged_in(Some(code), Some(false)),
        !says_logged_in(None, Some(is_login)),
        !says_logged_in(Some(code), None),
        !says_logged_in(None, None),
{
}

} // verus!
