//! Calls into other crates and into parts of the standard library whose bodies Verus does
//! not read. The contracts here are believed, not proved.

use aes::cipher::block_padding::Pkcs7;
use aes::cipher::{BlockDecryptMut, KeyIvInit};
use vstd::prelude::*;

verus! {

/// What `String::from_utf8_lossy` makes of a byte string.
pub uninterp spec fn utf8_lossy(bytes: Seq<u8>) -> Seq<char>;

/// `std::string::String::from_utf8_lossy`: the text that a byte string encodes, where
/// what is not valid UTF-8 is replaced. Valid UTF-8 is decoded as it stands.
#[verifier::external_body]
pub(crate) fn from_utf8_lossy(bytes: &[u8]) -> (res: String)
    ensures
        res@ == utf8_lossy(bytes@),
        vstd::utf8::valid_utf8(bytes@) ==> res@ == vstd::utf8::decode_utf8(bytes@),
{
    String::from_utf8_lossy(bytes).into_owned()
}

/// The text that a byte string stands for: what it encodes, where it is valid UTF-8, and
/// otherwise what `String::from_utf8_lossy` makes of it.
pub open spec fn text_of_bytes(bytes: Seq<u8>) -> Seq<char> {
    if vstd::utf8::valid_utf8(bytes) {
        vstd::utf8::decode_utf8(bytes)
    } else {
        utf8_lossy(bytes)
    }
}

/// What AES-128 in CBC mode with PKCS#7 padding decrypts `ciphertext` to; `None` where
/// its length or its padding is wrong.
pub uninterp spec fn aes128_cbc_plaintext(
    key: Seq<u8>,
    iv: Seq<u8>,
    ciphertext: Seq<u8>,
) -> Option<Seq<u8>>;

/// `decrypt_padded_mut::<Pkcs7>` of `cbc::Decryptor<aes::Aes128>`: decrypts a copy of
/// `ciphertext` and removes its padding. It fails where the length of the ciphertext is
/// zero or no multiple of the block length, or where the padding is malformed. The
/// padding that it removes has from one byte to a whole block.
#[verifier::external_body]
pub(crate) fn aes128_cbc_decrypt(key: &[u8; 16], iv: &[u8; 16], ciphertext: &[u8]) -> (res: Option<
    Vec<u8>,
>)
    ensures
        match res {
            Some(plaintext) => aes128_cbc_plaintext(key@, iv@, ciphertext@) == Some(plaintext@),
            None => aes128_cbc_plaintext(key@, iv@, ciphertext@) is None,
        },
        ciphertext@.len() == 0 || ciphertext@.len() % 16 != 0 ==> res is None,
        res matches Some(plaintext) ==> plaintext@.len() < ciphertext@.len() <= plaintext@.len()
            + 16,
{
    let mut buf = ciphertext.to_vec();
    match cbc::Decryptor::<aes::Aes128>::new(key.into(), iv.into()).decrypt_padded_mut::<Pkcs7>(
        &mut buf,
    ) {
        Ok(plaintext) => Some(plaintext.to_vec()),
        Err(_) => None,
    }
}

/// The first 16 bytes of the key that PBKDF2 with HMAC-SHA1 derives.
pub uninterp spec fn pbkdf2_hmac_sha1(
    secret: Seq<u8>,
    salt: Seq<u8>,
    iterations: u32,
) -> Seq<u8>;

/// SHA-1 counts the bits of its input in 64 bits: it hashes inputs of fewer bytes than
/// this.
pub const SHA1_INPUT_LIMIT: u64 = 0x2000_0000_0000_0000;

/// `ring::pbkdf2::derive` with `ring::pbkdf2::PBKDF2_HMAC_SHA1`: derives a key of 16
/// bytes. It panics on what is too long to be hashed: the secret, or the salt between the
/// block of 64 bytes that HMAC puts before it and the four bytes of an index after it.
#[verifier::external_body]
pub(crate) fn pbkdf2_sha1(secret: &[u8], salt: &[u8], iterations: u32) -> (res: [u8; 16])
    requires
        iterations > 0,
        secret@.len() < SHA1_INPUT_LIMIT,
        64 + salt@.len() + 4 < SHA1_INPUT_LIMIT,
    ensures
        res@ == pbkdf2_hmac_sha1(secret@, salt@, iterations),
{
    let mut key = [0u8; 16];
    ring::pbkdf2::derive(
        ring::pbkdf2::PBKDF2_HMAC_SHA1,
        std::num::NonZeroU32::new(iterations).unwrap(),
        salt,
        secret,
        &mut key,
    );
    key
}

/// The integer that a JSON document has at a JSON pointer: `None` where the document is
/// not JSON, `Some(None)` where there is no value or one that is no `i64`.
pub uninterp spec fn json_i64_at(document: Seq<u8>, pointer: Seq<char>) -> Option<Option<i64>>;

/// `serde_json::from_slice`, `serde_json::Value::pointer` and `as_i64`: the integer that
/// a JSON document has at `pointer`.
#[verifier::external_body]
pub(crate) fn json_i64(document: &[u8], pointer: &str) -> (res: Option<Option<i64>>)
    ensures
        res == json_i64_at(document@, pointer@),
{
    match serde_json::from_slice::<serde_json::Value>(document) {
        Ok(value) => match value.pointer(pointer) {
            Some(field) => Some(field.as_i64()),
            None => Some(None),
        },
        Err(_) => None,
    }
}

/// The boolean that a JSON document has at a JSON pointer: `None` where the document is
/// not JSON, `Some(None)` where there is no value or one that is no boolean.
pub uninterp spec fn json_bool_at(document: Seq<u8>, pointer: Seq<char>) -> Option<Option<bool>>;

/// `serde_json::from_slice`, `serde_json::Value::pointer` and `as_bool`: the boolean that
/// a JSON document has at `pointer`.
#[verifier::external_body]
pub(crate) fn json_bool(document: &[u8], pointer: &str) -> (res: Option<Option<bool>>)
    ensures
        res == json_bool_at(document@, pointer@),
{
    match serde_json::from_slice::<serde_json::Value>(document) {
        Ok(value) => match value.pointer(pointer) {
            Some(field) => Some(field.as_bool()),
            None => Some(None),
        },
        Err(_) => None,
    }
}

/// The contents of a list of pairs of strings.
pub open spec fn pair_texts(pairs: Seq<(String, String)>) -> Seq<(Seq<char>, Seq<char>)> {
    pairs.map_values(|pair: (String, String)| (pair.0@, pair.1@))
}

/// The contents of a list of strings.
pub open spec fn string_texts(strings: Seq<String>) -> Seq<Seq<char>> {
    strings.map_values(|string: String| string@)
}

/// The name and value pairs in the query of a URL; `None` where it is no absolute URL.
pub uninterp spec fn url_query(url: Seq<char>) -> Option<Seq<(Seq<char>, Seq<char>)>>;

/// `reqwest::Url::parse` and `query_pairs`: the decoded pairs in the query of `url`, in
/// order.
#[verifier::external_body]
pub(crate) fn url_query_pairs(url: &str) -> (res: Option<Vec<(String, String)>>)
    ensures
        match res {
            Some(pairs) => url_query(url@) == Some(pair_texts(pairs@)),
            None => url_query(url@) is None,
        },
{
    match reqwest::Url::parse(url) {
        Ok(parsed) => Some(parsed.query_pairs().into_owned().collect()),
        Err(_) => None,
    }
}

/// The path segments of a URL; `None` where it is no absolute URL, `Some(None)` where its
/// path does not start with a slash and so has no segments.
pub uninterp spec fn url_segments(url: Seq<char>) -> Option<Option<Seq<Seq<char>>>>;

/// `reqwest::Url::parse` and `path_segments`: the segments of the path of `url`, in order,
/// as they stand in the URL.
#[verifier::external_body]
pub(crate) fn url_path_segments(url: &str) -> (res: Option<Option<Vec<String>>>)
    ensures
        match res {
            Some(Some(segments)) => url_segments(url@) == Some(Some(string_texts(segments@))),
            Some(None) => url_segments(url@) == Some(None::<Seq<Seq<char>>>),
            None => url_segments(url@) is None,
        },
{
    match reqwest::Url::parse(url) {
        Ok(parsed) => match parsed.path_segments() {
            Some(segments) => Some(Some(segments.map(String::from).collect())),
            None => Some(None),
        },
        Err(_) => None,
    }
}

/// The bytes that encode a text stand for that text, whatever it is and however long.
pub proof fn law_encoded_text_is_read_back(text: Seq<char>)
    ensures
        text_of_bytes(vstd::utf8::encode_utf8(text)) == text,
{
    vstd::utf8::encode_utf8_valid_utf8(text);
    vstd::utf8::encode_utf8_decode_utf8(text);
}

/// An input can be hashed exactly if its length in bits fits in 64 bits.
pub proof fn law_limit_is_that_of_64_bits(bytes: nat)
    ensures
        bytes < SHA1_INPUT_LIMIT <==> bytes * 8 <= u64::MAX,
{
}

} // verus!
