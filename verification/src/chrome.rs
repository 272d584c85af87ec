//! Cookies that Chrome and Chromium store, encrypted under a key of the KDE wallet.

use crate::error::CookieError;
use crate::outside;
use crate::text;
use vstd::prelude::*;

verus! {

/// One cookie as Chrome stores it. Where `value` is empty, the value is in
/// `encrypted_value`.
pub struct ChromeCookie {
    pub name: String,
    pub value: String,
    pub encrypted_value: Vec<u8>,
}

/// The number of bytes in front of the value in what a cookie decrypts to.
pub const DIGEST_LENGTH: usize = 32;

/// Whether stored data is marked as version 11.
pub open spec fn is_version_11(data: Seq<u8>) -> bool {
    text::begins_with(data, vstd::utf8::encode_utf8("v11"@))
}

/// The initialization vector: spaces.
pub open spec fn cookie_iv() -> Seq<u8> {
    Seq::new(16, |i: int| 32u8)
}

/// The bytes of the value in what a cookie decrypts to.
pub open spec fn value_bytes(plaintext: Seq<u8>) -> Seq<u8> {
    if plaintext.len() >= DIGEST_LENGTH {
        plaintext.skip(DIGEST_LENGTH as int)
    } else {
        Seq::empty()
    }
}

/// The value that stored data holds.
pub open spec fn decrypted_value(data: Seq<u8>, key: Seq<u8>) -> Result<Seq<char>, CookieError> {
    if !is_version_11(data) {
        Err(CookieError::NotVersion11)
    } else {
        match outside::aes128_cbc_plaintext(key, cookie_iv(), data.skip(3)) {
            Some(plaintext) => Ok(outside::text_of_bytes(value_bytes(plaintext))),
            None => Err(CookieError::DecryptionFailed),
        }
    }
}

/// The value of a cookie. There is none where it has to be decrypted and is too short to
/// be marked with a version.
pub open spec fn cookie_value(cookie: ChromeCookie, key: Seq<u8>) -> Option<
    Result<Seq<char>, CookieError>,
> {
    if cookie.value@.len() > 0 {
        Some(Ok(cookie.value@))
    } else if cookie.encrypted_value@.len() < 3 {
        None
    } else {
        Some(decrypted_value(cookie.encrypted_value@, key))
    }
}

/// The header that lists all `cookies`, up to the first whose value cannot be had: then
/// that is the result.
pub open spec fn header_of(cookies: Seq<ChromeCookie>, key: Seq<u8>) -> Option<
    Result<Seq<char>, CookieError>,
>
    decreases cookies.len(),
{
    if cookies.len() == 0 {
        Some(Ok(Seq::empty()))
    } else {
        match header_of(cookies.drop_last(), key) {
            Some(Ok(header)) => match cookie_value(cookies.last(), key) {
                Some(Ok(value)) => Some(
                    Ok(header + cookies.last().name@ + seq!['='] + value + seq![';']),
                ),
                other => other,
            },
            other => other,
        }
    }
}

/// Whether a text says what a `Result` or an error says.
pub open spec fn is_result(res: Result<String, CookieError>, wanted: Result<Seq<char>, CookieError>) -> bool {
    match (res, wanted) {
        (Ok(found), Ok(text)) => found@ == text,
        (Err(found), Err(error)) => found == error,
        _ => false,
    }
}

/// The text of the value in what a cookie decrypts to.
pub fn cookie_text(plaintext: &Vec<u8>) -> (res: String)
    ensures
        res@ == outside::text_of_bytes(value_bytes(plaintext@)),
{
    if plaintext.len() >= DIGEST_LENGTH {
        let tail = vstd::slice::slice_subrange(plaintext.as_slice(), DIGEST_LENGTH, plaintext.len());
        assert(tail@ == plaintext@.skip(DIGEST_LENGTH as int));
        outside::from_utf8_lossy(tail)
    } else {
        let empty: Vec<u8> = Vec::new();
        outside::from_utf8_lossy(empty.as_slice())
    }
}

/// The value that stored data holds.
pub fn decrypt_chrome_cookie(data: &[u8], key: &[u8; 16]) -> (res: Result<String, CookieError>)
    requires
        data@.len() >= 3,
    ensures
        is_result(res, decrypted_value(data@, key@)),
        is_version_11(data@) && (data@.len() == 3 || (data@.len() - 3) % 16 != 0) ==> res == Err::<
            String,
            CookieError,
        >(CookieError::DecryptionFailed),
{
    proof {
        reveal_strlit("v11");
        vstd::utf8::is_ascii_chars_encode_utf8("v11"@);
        assert(vstd::utf8::encode_utf8("v11"@) == seq![0x76u8, 0x31u8, 0x31u8]);
        assert(data@.subrange(0, 3) == seq![data@[0], data@[1], data@[2]]);
        assert(is_version_11(data@) <==> data@[0] == 0x76 && data@[1] == 0x31 && data@[2] == 0x31)
            by {
            let mark = seq![0x76u8, 0x31u8, 0x31u8];
            if is_version_11(data@) {
                assert(data@.subrange(0, 3)[0] == mark[0]);
                assert(data@.subrange(0, 3)[1] == mark[1]);
                assert(data@.subrange(0, 3)[2] == mark[2]);
            }
        }
    }
    if data[0] != 0x76 || data[1] != 0x31 || data[2] != 0x31 {
        return Err(CookieError::NotVersion11);
    }
    let iv: [u8; 16] = [32u8; 16];
    assert(iv@ == cookie_iv());
    let ciphertext = vstd::slice::slice_subrange(data, 3, data.len());
    assert(ciphertext@ == data@.skip(3));
    match outside::aes128_cbc_decrypt(key, &iv, ciphertext) {
        Some(plaintext) => Ok(cookie_text(&plaintext)),
        None => Err(CookieError::DecryptionFailed),
    }
}

/// The header that lists all `cookies`. It is `None` if a cookie has to be decrypted whose
/// stored data is too short to be marked with a version.
pub fn chrome_cookie_header(cookies: &Vec<ChromeCookie>, key: &[u8; 16]) -> (res: Option<
    Result<String, CookieError>,
>)
    ensures
        match res {
            Some(header) => header_of(cookies@, key@) matches Some(wanted) && is_result(
                header,
                wanted,
            ),
            None => header_of(cookies@, key@) is None,
        },
{
    proof {
        reveal_strlit("=");
        reveal_strlit(";");
        assert("="@ == seq!['=']);
        assert(";"@ == seq![';']);
    }
    let mut header: String = String::new();
    let mut i: usize = 0;
    while i < cookies.len()
        invariant
            "="@ == seq!['='],
            ";"@ == seq![';'],
            i <= cookies.len(),
            header_of(cookies@.take(i as int), key@) == Some(Ok::<Seq<char>, CookieError>(header@)),
        decreases cookies.len() - i,
    {
        let cookie = &cookies[i];
        let ghost done = cookies@.take(i + 1);
        assert(done.drop_last() == cookies@.take(i as int));
        assert(done.last() == *cookie);
        let value: String = if !cookie.value.as_str().is_empty() {
            cookie.value.clone()
        } else {
            let data = &cookie.encrypted_value;
            if data.len() < 3 {
                proof {
                    lemma_header_stops(cookies@, key@, i + 1);
                }
                return None;
            }
            match decrypt_chrome_cookie(data.as_slice(), key) {
                Ok(value) => value,
                Err(e) => {
                    proof {
                        lemma_header_stops(cookies@, key@, i + 1);
                    }
                    return Some(Err(e));
                },
            }
        };
        header.append(cookie.name.as_str());
        header.append("=");
        header.append(value.as_str());
        header.append(";");
        assert(header_of(done, key@) == Some(Ok::<Seq<char>, CookieError>(header@)));
        i = i + 1;
    }
    assert(cookies@.take(i as int) == cookies@);
    Some(Ok(header))
}

/// Once a cookie has no value, what follows it makes no difference.
proof fn lemma_header_stops(cookies: Seq<ChromeCookie>, key: Seq<u8>, n: int)
    requires
        0 <= n <= cookies.len(),
        !(header_of(cookies.take(n), key) matches Some(Ok(_))),
    ensures
        header_of(cookies, key) == header_of(cookies.take(n), key),
    decreases cookies.len() - n,
{
    if n < cookies.len() {
        assert(cookies.take(n + 1).drop_last() == cookies.take(n));
        lemma_header_stops(cookies, key, n + 1);
    } else {
        assert(cookies.take(n) == cookies);
    }
}

/// Where Chrome or Chromium keeps its data, and its key.
pub struct ChromeSource {
    /// The application under which its configuration directory is found.
    pub application: &'static str,
    /// The browser whose entry in the key ring holds the key.
    pub keyring_browser: &'static str,
}

/// Where Chrome, or Chromium if `is_chromium`, keeps its data and its key.
pub fn chrome_source(is_chromium: bool) -> (res: ChromeSource)
    ensures
        res.application@ == (if is_chromium {
            "chromium"@
        } else {
            "google-chrome"@
        }),
        res.keyring_browser@ == (if is_chromium {
            "chromium"@
        } else {
            "chrome"@
        }),
{
    if is_chromium {
        ChromeSource { application: "chromium", keyring_browser: "chromium" }
    } else {
        ChromeSource { application: "google-chrome", keyring_browser: "chrome" }
    }
}

/// The query for the cookies of the hosts that match `host`.
pub open spec fn cookie_query_text(host: Seq<char>) -> Seq<char> {
    "\nSELECT name, value, encrypted_value \nFROM cookies\nWHERE host_key LIKE '"@ + host
        + "'\n        "@
}

/// The query for the cookies of the hosts that match `host`.
pub fn cookie_query(host: &str) -> (res: String)
    ensures
        res@ == cookie_query_text(host@),
{
    let mut query: String =
        "\nSELECT name, value, encrypted_value \nFROM cookies\nWHERE host_key LIKE '".to_owned();
    query.append(host);
    query.append("'\n        ");
    query
}

/// Under which name the key ring lists a browser.
pub open spec fn keyring_entry(browser: Seq<char>) -> Option<Seq<char>> {
    if browser == "chrome"@ {
        Some("Chrome"@)
    } else if browser == "chromium"@ {
        Some("Chromium"@)
    } else {
        None
    }
}

/// Under which name the key ring lists a browser.
pub fn keyring_name(browser: &str) -> (res: Result<&'static str, CookieError>)
    ensures
        match res {
            Ok(name) => keyring_entry(browser@) == Some(name@),
            Err(e) => keyring_entry(browser@) is None && e == CookieError::UnknownBrowser,
        },
{
    if text::same_text(browser, "chrome") {
        Ok("Chrome")
    } else if text::same_text(browser, "chromium") {
        Ok("Chromium")
    } else {
        Err(CookieError::UnknownBrowser)
    }
}

/// The arguments of `dbus-send` that ask for the name of the network wallet.
pub fn wallet_name_args() -> (res: Vec<&'static str>)
    ensures
        text::texts(res@) == seq![
            "--session"@,
            "--print-reply=literal"@,
            "--dest=org.kde.kwalletd5"@,
            "/modules/kwalletd5"@,
            "org.kde.KWallet.networkWallet"@,
        ],
{
    let mut args: Vec<&'static str> = Vec::new();
    args.push("--session");
    args.push("--print-reply=literal");
    args.push("--dest=org.kde.kwalletd5");
    args.push("/modules/kwalletd5");
    args.push("org.kde.KWallet.networkWallet");
    assert(text::texts(args@) =~= seq![
        "--session"@,
        "--print-reply=literal"@,
        "--dest=org.kde.kwalletd5"@,
        "/modules/kwalletd5"@,
        "org.kde.KWallet.networkWallet"@,
    ]);
    args
}

/// The arguments of `kwallet-query` that ask for the password of a key ring entry.
pub fn wallet_password_args(keyring: &str, wallet: &str) -> (res: Vec<String>)
    ensures
        outside::string_texts(res@) == seq![
            "--read-password"@,
            keyring@ + " Safe Storage"@,
            "--folder"@,
            keyring@ + " Keys"@,
            wallet@,
        ],
{
    let mut entry: String = keyring.to_owned();
    entry.append(" Safe Storage");
    let mut folder: String = keyring.to_owned();
    folder.append(" Keys");
    let mut args: Vec<String> = Vec::new();
    args.push("--read-password".to_owned());
    args.push(entry);
    args.push("--folder".to_owned());
    args.push(folder);
    args.push(wallet.to_owned());
    assert(outside::string_texts(args@) =~= seq![
        "--read-password"@,
        keyring@ + " Safe Storage"@,
        "--folder"@,
        keyring@ + " Keys"@,
        wallet@,
    ]);
    args
}

/// The text that a command printed, without white space at its ends.
pub fn printed_text(stdout: &[u8]) -> (res: String)
    ensures
        res@ == text::trimmed(outside::text_of_bytes(stdout@)),
{
    let printed = outside::from_utf8_lossy(stdout);
    text::trim(printed.as_str()).to_owned()
}

/// The password in a reply of `kwallet-query`: the reply itself, or nothing if it reports
/// a failure.
pub open spec fn password_in(reply: Seq<char>) -> Seq<char> {
    if text::begins_with(reply, "Failed"@) {
        Seq::empty()
    } else {
        reply
    }
}

/// The password in a reply of `kwallet-query`.
pub fn wallet_password(reply: String) -> (res: String)
    ensures
        res@ == password_in(reply@),
{
    if text::starts_with(reply.as_str(), "Failed") {
        String::new()
    } else {
        reply
    }
}

/// The key under which cookies are encrypted, derived from the password of the wallet.
pub fn cookie_key(password: &str) -> (res: [u8; 16])
    requires
        vstd::utf8::encode_utf8(password@).len() < outside::SHA1_INPUT_LIMIT,
    ensures
        res@ == outside::pbkdf2_hmac_sha1(
            vstd::utf8::encode_utf8(password@),
            vstd::utf8::encode_utf8("saltysalt"@),
            1,
        ),
{
    let salt = "saltysalt";
    proof {
        reveal_strlit("saltysalt");
        vstd::utf8::is_ascii_chars_encode_utf8("saltysalt"@);
    }
    outside::pbkdf2_sha1(password.as_bytes(), salt.as_bytes(), 1)
}

/// The key under which cookies are encrypted, from what `kwallet-query` printed. It is
/// `None` if that is too long to derive a key from.
pub fn get_kwallet_password(stdout: &[u8]) -> (res: Option<[u8; 16]>)
    ensures
        ({
            let password = vstd::utf8::encode_utf8(
                password_in(text::trimmed(outside::text_of_bytes(stdout@))),
            );
            match res {
                Some(key) => password.len() < outside::SHA1_INPUT_LIMIT && key@
                    == outside::pbkdf2_hmac_sha1(
                    password,
                    vstd::utf8::encode_utf8("saltysalt"@),
                    1,
                ),
                None => password.len() >= outside::SHA1_INPUT_LIMIT,
            }
        }),
{
    let password = wallet_password(printed_text(stdout));
    if password.as_str().as_bytes().len() as u64 >= outside::SHA1_INPUT_LIMIT {
        return None;
    }
    Some(cookie_key(password.as_str()))
}

/// A cookie that is stored in plain text is listed as it is: no key is needed.
pub proof fn law_plain_cookies_need_no_key(
    cookies: Seq<ChromeCookie>,
    key: Seq<u8>,
    other: Seq<u8>,
)
    requires
        forall|i: int| 0 <= i < cookies.len() ==> (#[trigger] cookies[i]).value@.len() > 0,
    ensures
        header_of(cookies, key) == header_of(cookies, other),
        header_of(cookies, key) matches Some(Ok(_)),
    decreases cookies.len(),
{
    if cookies.len() > 0 {
        let before = cookies.drop_last();
        assert forall|i: int| 0 <= i < before.len() implies (#[trigger] before[i]).value@.len()
            > 0 by {
            assert(before[i] == cookies[i]);
        }
        law_plain_cookies_need_no_key(before, key, other);
        assert(cookies[cookies.len() - 1].value@.len() > 0);
    }
}

/// What a cookie decrypts to is a digest of 32 bytes and then its value, of any length: the
/// whole value is read, whatever the digest is. Less than a digest holds no value.
pub proof fn law_whole_value_follows_the_digest(
    digest: Seq<u8>,
    bytes: Seq<u8>,
    value: Seq<char>,
    short: Seq<u8>,
)
    requires
        digest.len() == 32,
        short.len() < 32,
    ensures
        value_bytes(digest + bytes) == bytes,
        outside::text_of_bytes(value_bytes(digest + vstd::utf8::encode_utf8(value))) == value,
        outside::text_of_bytes(value_bytes(short)) == Seq::<char>::empty(),
{
    let encoded = vstd::utf8::encode_utf8(value);
    let none = Seq::<char>::empty();
    assert((digest + bytes).skip(32) == bytes);
    assert((digest + encoded).skip(32) == encoded);
    outside::law_encoded_text_is_read_back(value);
    outside::law_encoded_text_is_read_back(none);
    assert(vstd::utf8::encode_utf8(none) == Seq::<u8>::empty());
}

/// Data marked with `v11` is decrypted under the key, from the fourth byte on and with an
/// initialization vector of 16 spaces, and the text behind the digest is its value, whole.
/// Where that fails, so does the cookie.
pub proof fn law_marked_data_is_decrypted(
    ciphertext: Seq<u8>,
    key: Seq<u8>,
    digest: Seq<u8>,
    value: Seq<char>,
)
    requires
        digest.len() == 32,
    ensures
        ({
            let data = seq![0x76u8, 0x31u8, 0x31u8] + ciphertext;
            let spaces = Seq::new(16, |i: int| 0x20u8);
            let plaintext = outside::aes128_cbc_plaintext(key, spaces, ciphertext);
            &&& plaintext == Some(digest + vstd::utf8::encode_utf8(value)) ==> decrypted_value(
                data,
                key,
            ) == Ok::<Seq<char>, CookieError>(value)
            &&& plaintext is None ==> decrypted_value(data, key) == Err::<Seq<char>, CookieError>(
                CookieError::DecryptionFailed,
            )
            &&& plaintext is Some ==> decrypted_value(data, key) is Ok
        }),
{
    let mark = seq![0x76u8, 0x31u8, 0x31u8];
    let data = mark + ciphertext;
    reveal_strlit("v11");
    vstd::utf8::is_ascii_chars_encode_utf8("v11"@);
    assert(vstd::utf8::encode_utf8("v11"@) == mark);
    text::law_prefix_stands_in_front(data, mark, ciphertext);
    assert(data.skip(3) == ciphertext);
    assert(cookie_iv() == Seq::new(16, |i: int| 0x20u8));
    law_whole_value_follows_the_digest(digest, Seq::empty(), value, Seq::empty());
}

/// Data is refused as not marked exactly if one of its first three bytes is not that of the
/// mark `v11`; nothing else of it, and no key, makes a difference to that.
pub proof fn law_only_marked_data_is_decrypted(data: Seq<u8>, key: Seq<u8>)
    requires
        data.len() >= 3,
    ensures
        decrypted_value(data, key) == Err::<Seq<char>, CookieError>(CookieError::NotVersion11)
            <==> data[0] != 0x76 || data[1] != 0x31 || data[2] != 0x31,
{
    let mark = seq![0x76u8, 0x31u8, 0x31u8];
    reveal_strlit("v11");
    vstd::utf8::is_ascii_chars_encode_utf8("v11"@);
    assert(vstd::utf8::encode_utf8("v11"@) == mark);
    if data[0] == 0x76 && data[1] == 0x31 && data[2] == 0x31 {
        assert(data.subrange(0, 3) == mark);
    } else if is_version_11(data) {
        assert(data.subrange(0, 3)[0] == mark[0]);
        assert(data.subrange(0, 3)[1] == mark[1]);
        assert(data.subrange(0, 3)[2] == mark[2]);
    }
}

/// A cookie with a plain value has that value, whatever else is stored; only one without is
/// decrypted, and it has no value at all where less than a mark is stored.
pub proof fn law_plain_value_comes_first(cookie: ChromeCookie, key: Seq<u8>)
    ensures
        cookie.value@.len() > 0 ==> cookie_value(cookie, key) == Some(
            Ok::<Seq<char>, CookieError>(cookie.value@),
        ),
        cookie.value@.len() == 0 && cookie.encrypted_value@.len() >= 3 ==> cookie_value(
            cookie,
            key,
        ) == Some(decrypted_value(cookie.encrypted_value@, key)),
        cookie.value@.len() == 0 && cookie.encrypted_value@.len() < 3 ==> cookie_value(
            cookie,
            key,
        ) is None,
{
}

/// A header lists its cookies one after the other, each with its whole name and value; the
/// first whose value cannot be had decides, whatever follows it.
pub proof fn law_cookies_are_listed_one_after_the_other(
    cookies: Seq<ChromeCookie>,
    cookie: ChromeCookie,
    more: Seq<ChromeCookie>,
    key: Seq<u8>,
    header: Seq<char>,
    value: Seq<char>,
)
    requires
        header_of(cookies, key) == Some(Ok::<Seq<char>, CookieError>(header)),
    ensures
        header_of(Seq::empty(), key) == Some(Ok::<Seq<char>, CookieError>(Seq::empty())),
        cookie_value(cookie, key) == Some(Ok::<Seq<char>, CookieError>(value)) ==> header_of(
            cookies.push(cookie),
            key,
        ) == Some(Ok::<Seq<char>, CookieError>(header + cookie.name@ + "="@ + value + ";"@)),
        !(cookie_value(cookie, key) matches Some(Ok(_))) ==> header_of(
            cookies.push(cookie) + more,
            key,
        ) == cookie_value(cookie, key),
{
    reveal_strlit("=");
    reveal_strlit(";");
    assert("="@ == seq!['=']);
    assert(";"@ == seq![';']);
    let one = cookies.push(cookie);
    assert(one.drop_last() == cookies);
    if !(cookie_value(cookie, key) matches Some(Ok(_))) {
        let all = one + more;
        assert(all.take(one.len() as int) == one);
        lemma_header_stops(all, key, one.len() as int);
    }
}

/// A reply that starts with `Failed` holds no password, and any other reply is the password,
/// whole.
pub proof fn law_reply_is_the_password_unless_it_failed(rest: Seq<char>, reply: Seq<char>)
    ensures
        password_in("Failed"@ + rest) == Seq::<char>::empty(),
        !text::begins_with(reply, "Failed"@) ==> password_in(reply) == reply,
{
    text::law_prefix_stands_in_front(reply, "Failed"@, rest);
}

/// The key ring has an entry for Chrome and one for Chromium, told apart by the name of the
/// browser, and for no other browser.
pub proof fn law_key_ring_knows_two_browsers(browser: Seq<char>)
    ensures
        browser == "chrome"@ <==> keyring_entry(browser) == Some("Chrome"@),
        browser == "chromium"@ <==> keyring_entry(browser) == Some("Chromium"@),
        browser != "chrome"@ && browser != "chromium"@ <==> keyring_entry(browser) is None,
{
    reveal_strlit("chrome");
    reveal_strlit("chromium");
    reveal_strlit("Chrome");
    reveal_strlit("Chromium");
    assert("chrome"@.len() != "chromium"@.len());
    assert("Chrome"@.len() != "Chromium"@.len());
}

/// The query names the whole host between its quotation marks.
pub proof fn law_query_names_the_whole_host(host: Seq<char>)
    ensures
        ({
            let query = cookie_query_text(host);
            let before = "\nSELECT name, value, encrypted_value \nFROM cookies\nWHERE host_key LIKE '"@;
            let after = "'\n        "@;
            &&& query.len() == before.len() + host.len() + after.len()
            &&& text::begins_with(query, before + host)
            &&& query == before + host + after
        }),
{
    let before = "\nSELECT name, value, encrypted_value \nFROM cookies\nWHERE host_key LIKE '"@;
    let after = "'\n        "@;
    text::law_prefix_stands_in_front(cookie_query_text(host), before + host, after);
}

/// A result is a text or an error exactly as it says.
pub proof fn law_result_says_its_text(
    found: String,
    wanted: Seq<char>,
    error: CookieError,
    other: CookieError,
)
    ensures
        is_result(Ok(found), Ok(wanted)) <==> found@ == wanted,
        is_result(Err(error), Err(other)) <==> error == other,
        !is_result(Ok(found), Err(other)),
        !is_result(Err(error), Ok(wanted)),
{
}

} // verus!
