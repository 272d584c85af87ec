use aes::cipher::block_padding::Pkcs7;
use aes::cipher::{BlockEncryptMut, KeyIvInit};
use dmlive::chrome::{
    chrome_cookie_header, chrome_source, cookie_key, cookie_query, cookie_text,
    decrypt_chrome_cookie, get_kwallet_password, keyring_name, printed_text, wallet_name_args,
    wallet_password, wallet_password_args, ChromeCookie,
};
use dmlive::error::CookieError;

const KEY: [u8; 16] = *b"0123456789abcdef";

fn stored(version: &[u8], plaintext: &[u8]) -> Vec<u8> {
    let mut buf = vec![0u8; plaintext.len() + 16];
    buf[..plaintext.len()].copy_from_slice(plaintext);
    let ciphertext = cbc::Encryptor::<aes::Aes128>::new(&KEY.into(), &[b' '; 16].into())
        .encrypt_padded_mut::<Pkcs7>(&mut buf, plaintext.len())
        .unwrap()
        .to_vec();
    [version, &ciphertext].concat()
}

fn with_digest(value: &[u8]) -> Vec<u8> {
    [&[7u8; 32], value].concat()
}

fn cookie(name: &str, value: &str, encrypted_value: Vec<u8>) -> ChromeCookie {
    ChromeCookie {
        name: name.to_string(),
        value: value.to_string(),
        encrypted_value,
    }
}

#[test]
fn version_11_cookies_are_decrypted() {
    for value in ["", "x", "session%2Cvalue", "é and more than one block of text"] {
        let data = stored(b"v11", &with_digest(value.as_bytes()));
        assert_eq!(decrypt_chrome_cookie(&data, &KEY), Ok(value.to_string()));
    }
}

#[test]
fn plaintext_without_a_value_gives_an_empty_one() {
    assert_eq!(
        decrypt_chrome_cookie(&stored(b"v11", b"short"), &KEY),
        Ok(String::new())
    );
    assert_eq!(cookie_text(&vec![b'a'; 31]), "");
    assert_eq!(cookie_text(&vec![b'a'; 33]), "a");
}

#[test]
fn value_that_is_no_utf8_is_repaired() {
    let data = stored(b"v11", &with_digest(b"a\xffb"));
    assert_eq!(
        decrypt_chrome_cookie(&data, &KEY),
        Ok("a\u{fffd}b".to_string())
    );
}

#[test]
fn other_versions_are_refused() {
    for version in [b"v10", b"v12", b"V11", b"abc"] {
        let data = stored(version, &with_digest(b"x"));
        assert_eq!(
            decrypt_chrome_cookie(&data, &KEY),
            Err(CookieError::NotVersion11)
        );
    }
    assert_eq!(CookieError::NotVersion11.message(), "a v10 cookie");
}

#[test]
fn malformed_ciphertext_does_not_decrypt() {
    let whole = stored(b"v11", &with_digest(b"x"));
    for data in [b"v11".to_vec(), whole[..whole.len() - 1].to_vec()] {
        assert_eq!(
            decrypt_chrome_cookie(&data, &KEY),
            Err(CookieError::DecryptionFailed)
        );
    }
    let mut unpadded = vec![0u8; 16];
    unpadded[15] = 17;
    let mut buf = [unpadded.clone(), vec![0u8; 16]].concat();
    let ciphertext = cbc::Encryptor::<aes::Aes128>::new(&KEY.into(), &[b' '; 16].into())
        .encrypt_padded_mut::<Pkcs7>(&mut buf, 16)
        .unwrap()[..16]
        .to_vec();
    assert_eq!(
        decrypt_chrome_cookie(&[b"v11".to_vec(), ciphertext].concat(), &KEY),
        Err(CookieError::DecryptionFailed)
    );
}

#[test]
fn header_lists_all_cookies() {
    let cookies = vec![
        cookie("a", "plain", vec![]),
        cookie("b", "", stored(b"v11", &with_digest(b"secret"))),
        cookie("c", "", stored(b"v11", b"")),
    ];
    assert_eq!(
        chrome_cookie_header(&cookies, &KEY),
        Some(Ok("a=plain;b=secret;c=;".to_string()))
    );
    assert_eq!(chrome_cookie_header(&vec![], &KEY), Some(Ok(String::new())));
}

#[test]
fn header_stops_at_the_first_cookie_without_a_value() {
    let old = || cookie("old", "", stored(b"v10", b"x"));
    let short = || cookie("short", "", b"v1".to_vec());
    assert_eq!(
        chrome_cookie_header(&vec![old(), short()], &KEY),
        Some(Err(CookieError::NotVersion11))
    );
    assert_eq!(chrome_cookie_header(&vec![short(), old()], &KEY), None);
    assert_eq!(
        chrome_cookie_header(&vec![cookie("bad", "", b"v11x".to_vec()), short()], &KEY),
        Some(Err(CookieError::DecryptionFailed))
    );
}

#[test]
fn plain_cookies_are_listed_under_any_key() {
    let cookies = vec![cookie("a", "1", vec![]), cookie("b", "2", b"v10".to_vec())];
    assert_eq!(
        chrome_cookie_header(&cookies, &KEY),
        chrome_cookie_header(&cookies, &[0u8; 16])
    );
}

#[test]
fn key_is_derived_from_the_password() {
    let peanuts = [
        0xfd, 0x62, 0x1f, 0xe5, 0xa2, 0xb4, 0x02, 0x53, 0x9d, 0xfa, 0x14, 0x7c, 0xa9, 0x27, 0x27,
        0x78,
    ];
    assert_eq!(cookie_key("peanuts"), peanuts);
    assert_eq!(get_kwallet_password(b"  peanuts\n"), Some(peanuts));
    assert_ne!(get_kwallet_password(b"pea nuts"), Some(peanuts));
}

#[test]
fn reply_that_reports_a_failure_is_no_password() {
    assert_eq!(wallet_password("Failed to open".to_string()), "");
    assert_eq!(wallet_password("not Failed".to_string()), "not Failed");
    assert_eq!(
        get_kwallet_password(b"\nFailed to open wallet\n"),
        Some(cookie_key(""))
    );
    assert_eq!(get_kwallet_password(b""), Some(cookie_key("")));
}

#[test]
fn printed_text_is_trimmed_and_repaired() {
    assert_eq!(printed_text(b"   kdewallet\n"), "kdewallet");
    assert_eq!(printed_text(b" \xff "), "\u{fffd}");
}

#[test]
fn commands_ask_for_the_entry_of_the_browser() {
    assert_eq!(keyring_name("chrome"), Ok("Chrome"));
    assert_eq!(keyring_name("chromium"), Ok("Chromium"));
    assert_eq!(keyring_name("Chrome"), Err(CookieError::UnknownBrowser));
    assert_eq!(
        wallet_password_args("Chrome", "kdewallet"),
        [
            "--read-password",
            "Chrome Safe Storage",
            "--folder",
            "Chrome Keys",
            "kdewallet"
        ]
    );
    assert_eq!(
        wallet_name_args(),
        [
            "--session",
            "--print-reply=literal",
            "--dest=org.kde.kwalletd5",
            "/modules/kwalletd5",
            "org.kde.KWallet.networkWallet",
        ]
    );
}

#[test]
fn chrome_and_chromium_have_their_own_data() {
    let chrome = chrome_source(false);
    assert_eq!(chrome.application, "google-chrome");
    assert_eq!(chrome.keyring_browser, "chrome");
    let chromium = chrome_source(true);
    assert_eq!(chromium.application, "chromium");
    assert_eq!(chromium.keyring_browser, "chromium");
}

#[test]
fn query_asks_for_the_host() {
    assert_eq!(
        cookie_query(".bilibili.com"),
        "
SELECT name, value, encrypted_value 
FROM cookies
WHERE host_key LIKE '.bilibili.com'
        "
    );
}
