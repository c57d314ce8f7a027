//! Sealing of stored secrets: AES-256-GCM under a master key, with a fresh
//! random nonce per secret, and the base64 text in which the master key is
//! kept. Where the key and the sealed bytes are stored stays with the
//! caller.

use crate::error::AppError;
use crate::text::{from_chars, push_str, str_bytes, string_from_utf8, to_chars};
use aes_gcm::aead::{Aead, KeyInit};
use aes_gcm::{Aes256Gcm, Nonce};
use base64::engine::general_purpose::STANDARD;
use base64::Engine;
use rand::RngCore;
use vstd::prelude::*;
use vstd::utf8::{decode_utf8, encode_utf8, valid_utf8};

verus! {

// ---------------------------------------------------------------------------
// AES-256-GCM
// ---------------------------------------------------------------------------

/// The most plaintext bytes AES-GCM seals in one message (2^36).
pub const PLAINTEXT_LIMIT: u64 = 68719476736;

/// The ciphertext (with its tag) that AES-256-GCM makes of a plaintext
/// under a key and a nonce, with no associated data.
pub uninterp spec fn sealed(key: Seq<u8>, nonce: Seq<u8>, plaintext: Seq<u8>) -> Seq<u8>;

/// What AES-256-GCM gives back of a ciphertext under a key and a nonce:
/// the plaintext when the tag checks, nothing otherwise.
pub uninterp spec fn opened(key: Seq<u8>, nonce: Seq<u8>, ciphertext: Seq<u8>) -> Option<Seq<u8>>;

/// The bytes of a successful result.
pub open spec fn ok_bytes(r: Result<Vec<u8>, String>) -> Option<Seq<u8>> {
    match r {
        Ok(v) => Some(v@),
        Err(_) => None,
    }
}

/// A ciphertext that some plaintext (within the limit) was sealed to under
/// the key and the nonce opens to that plaintext.
pub open spec fn opens_what_was_sealed(
    key: Seq<u8>,
    nonce: Seq<u8>,
    ciphertext: Seq<u8>,
    result: Option<Seq<u8>>,
) -> bool {
    forall|p: Seq<u8>|
        p.len() <= PLAINTEXT_LIMIT && #[trigger] sealed(key, nonce, p) == ciphertext ==> result == Some(p)
}

/// `Aead::encrypt` of `Aes256Gcm`, the cipher made from the key with
/// `KeyInit::new`. It fails only for a plaintext over the limit, with the
/// error whose text is `aead::Error`; otherwise the result is the named
/// ciphertext.
#[verifier::external_body]
fn aes_gcm_encrypt(key: &[u8; 32], nonce: &[u8; 12], plaintext: &[u8]) -> (r: Result<Vec<u8>, String>)
    ensures
        r is Ok <==> plaintext@.len() <= PLAINTEXT_LIMIT,
        r matches Ok(c) ==> c@ == sealed(key@, nonce@, plaintext@),
        r matches Err(e) ==> e@ == "aead::Error"@,
{
    match Aes256Gcm::new(key.into()).encrypt(Nonce::from_slice(nonce), plaintext) {
        Ok(c) => Ok(c),
        Err(e) => Err(e.to_string()),
    }
}

/// `Aead::decrypt` of `Aes256Gcm`: the named result, with the error text
/// `aead::Error` when the ciphertext does not open; and, as for every
/// AEAD cipher, what was sealed under a key and a nonce opens under them
/// to the same plaintext.
#[verifier::external_body]
fn aes_gcm_decrypt(key: &[u8; 32], nonce: &[u8; 12], ciphertext: &[u8]) -> (r: Result<Vec<u8>, String>)
    ensures
        r is Ok <==> opened(key@, nonce@, ciphertext@) is Some,
        r matches Ok(v) ==> Some(v@) == opened(key@, nonce@, ciphertext@),
        r matches Err(e) ==> e@ == "aead::Error"@,
        opens_what_was_sealed(key@, nonce@, ciphertext@, ok_bytes(r)),
{
    match Aes256Gcm::new(key.into()).decrypt(Nonce::from_slice(nonce), ciphertext) {
        Ok(p) => Ok(p),
        Err(e) => Err(e.to_string()),
    }
}

/// Random bytes from the thread's generator (`RngCore::fill_bytes` of
/// `rand::thread_rng()`). Nothing is stated of them.
#[verifier::external_body]
fn random_bytes<const N: usize>() -> (r: [u8; N]) {
    let mut b = [0u8; N];
    rand::thread_rng().fill_bytes(&mut b);
    b
}

/// The error is `Crypto` with the message.
pub open spec fn crypto_with<T>(r: Result<T, AppError>, m: Seq<char>) -> bool {
    r matches Err(AppError::Crypto(x)) && x@ == m
}

/// The error is `Crypto` with a message that starts with the prefix.
pub open spec fn crypto_starting<T>(r: Result<T, AppError>, prefix: Seq<char>) -> bool {
    r matches Err(AppError::Crypto(x)) && x@.len() >= prefix.len() && x@.take(prefix.len() as int) == prefix
}

/// The error text with a prefix.
fn crypto_error(prefix: &str, detail: &str) -> (r: AppError)
    ensures
        r matches AppError::Crypto(m) && m@ == prefix@ + detail@,
{
    let mut acc = to_chars(prefix);
    push_str(&mut acc, detail);
    AppError::Crypto(from_chars(acc.as_slice()))
}

/// Seals a secret under the master key with a fresh random nonce, and
/// returns the ciphertext and the nonce. It fails only for a plaintext
/// over the limit.
pub fn encrypt_with_key(key: &[u8; 32], plaintext: &str) -> (r: Result<(Vec<u8>, [u8; 12]), AppError>)
    ensures
        r is Ok <==> encode_utf8(plaintext@).len() <= PLAINTEXT_LIMIT,
        r matches Ok((c, n)) ==> c@ == sealed(key@, n@, encode_utf8(plaintext@)),
        r is Err ==> crypto_with(r, "加密失败: aead::Error"@),
{
    let nonce: [u8; 12] = random_bytes();
    let bytes = str_bytes(plaintext);
    match aes_gcm_encrypt(key, &nonce, bytes.as_slice()) {
        Ok(c) => Ok((c, nonce)),
        Err(e) => {
            proof {
                reveal_strlit("加密失败: ");
                reveal_strlit("aead::Error");
                reveal_strlit("加密失败: aead::Error");
                assert("加密失败: "@ + e@ =~= "加密失败: aead::Error"@);
            }
            Err(crypto_error("加密失败: ", e.as_str()))
        },
    }
}

/// Opens a secret: the nonce must be twelve bytes. A ciphertext that does
/// not open, or opens to bytes that are not UTF-8, is refused. What
/// `encrypt_with_key` sealed under the same key opens to the same text.
pub fn decrypt_with_key(key: &[u8; 32], ciphertext: &[u8], nonce: &[u8]) -> (r: Result<String, AppError>)
    requires
        nonce@.len() == 12,
    ensures
        match opened(key@, nonce@, ciphertext@) {
            None => crypto_with(r, "解密失败: aead::Error"@),
            Some(p) => if valid_utf8(p) {
                r matches Ok(s) && s@ == decode_utf8(p)
            } else {
                crypto_starting(r, "明文不是 UTF-8: "@)
            },
        },
        forall|text: Seq<char>|
            encode_utf8(text).len() <= PLAINTEXT_LIMIT && #[trigger] sealed(key@, nonce@, encode_utf8(text))
                == ciphertext@ ==> (r matches Ok(s) && s@ == text),
{
    let n: [u8; 12] = [
        nonce[0],
        nonce[1],
        nonce[2],
        nonce[3],
        nonce[4],
        nonce[5],
        nonce[6],
        nonce[7],
        nonce[8],
        nonce[9],
        nonce[10],
        nonce[11],
    ];
    assert(n@ =~= nonce@);
    let plain = match aes_gcm_decrypt(key, &n, ciphertext) {
        Ok(p) => p,
        Err(e) => {
            proof {
                reveal_strlit("解密失败: ");
                reveal_strlit("aead::Error");
                reveal_strlit("解密失败: aead::Error");
                assert("解密失败: "@ + e@ =~= "解密失败: aead::Error"@);
            }
            return Err(crypto_error("解密失败: ", e.as_str()));
        },
    };
    let ghost bytes = plain@;
    match string_from_utf8(plain) {
        Ok(s) => {
            proof {
                assert forall|text: Seq<char>|
                    encode_utf8(text).len() <= PLAINTEXT_LIMIT && #[trigger] sealed(
                        key@,
                        nonce@,
                        encode_utf8(text),
                    ) == ciphertext@ implies s@ == text by {
                    vstd::utf8::encode_utf8_decode_utf8(text);
                }
            }
            Ok(s)
        },
        Err(e) => {
            let r = crypto_error("明文不是 UTF-8: ", e.as_str());
            proof {
                reveal_strlit("明文不是 UTF-8: ");
                assert(("明文不是 UTF-8: "@ + e@).take("明文不是 UTF-8: "@.len() as int) =~= "明文不是 UTF-8: "@);
                assert forall|text: Seq<char>|
                    encode_utf8(text).len() <= PLAINTEXT_LIMIT && #[trigger] sealed(
                        key@,
                        nonce@,
                        encode_utf8(text),
                    ) == ciphertext@ implies false by {
                    vstd::utf8::encode_utf8_valid_utf8(text);
                    assert(bytes == encode_utf8(text));
                }
            }
            Err(r)
        },
    }
}

// ---------------------------------------------------------------------------
// The master key's text
// ---------------------------------------------------------------------------

/// The character of a six-bit value in the standard base64 alphabet.
pub open spec fn base64_char(v: int) -> char {
    if v < 26 {
        ('A' as int + v) as char
    } else if v < 52 {
        ('a' as int + (v - 26)) as char
    } else if v < 62 {
        ('0' as int + (v - 52)) as char
    } else if v == 62 {
        '+'
    } else {
        '/'
    }
}

/// Standard base64 with padding: each three bytes become four characters;
/// a last group of one or two bytes is padded with `=`.
pub open spec fn base64_text(b: Seq<u8>) -> Seq<char>
    decreases b.len(),
{
    if b.len() == 0 {
        Seq::empty()
    } else if b.len() == 1 {
        seq![base64_char(b[0] as int / 4), base64_char((b[0] as int % 4) * 16), '=', '=']
    } else if b.len() == 2 {
        seq![
            base64_char(b[0] as int / 4),
            base64_char((b[0] as int % 4) * 16 + b[1] as int / 16),
            base64_char((b[1] as int % 16) * 4),
            '=',
        ]
    } else {
        seq![
            base64_char(b[0] as int / 4),
            base64_char((b[0] as int % 4) * 16 + b[1] as int / 16),
            base64_char((b[1] as int % 16) * 4 + b[2] as int / 64),
            base64_char(b[2] as int % 64),
        ] + base64_text(b.skip(3))
    }
}

/// The base64 text of some bytes decodes to those bytes.
pub open spec fn decodes_every_encoding(text: Seq<char>, result: Option<Seq<u8>>) -> bool {
    forall|b: Seq<u8>| #[trigger] base64_text(b) == text ==> result == Some(b)
}

/// What the standard base64 engine decodes a text to, nothing when the
/// text is not valid base64.
pub uninterp spec fn base64_decoded(text: Seq<char>) -> Option<Seq<u8>>;

/// `Engine::encode` of the standard engine (with padding).
#[verifier::external_body]
fn base64_encode(bytes: &[u8]) -> (r: String)
    ensures
        r@ == base64_text(bytes@),
{
    STANDARD.encode(bytes)
}

/// `Engine::decode` of the standard engine: the named result, with the
/// error's text when the text is not valid base64 (what that text says is
/// not stated); the text of some bytes decodes to those bytes.
#[verifier::external_body]
fn base64_decode(text: &str) -> (r: Result<Vec<u8>, String>)
    ensures
        r is Ok <==> base64_decoded(text@) is Some,
        r matches Ok(v) ==> Some(v@) == base64_decoded(text@),
        decodes_every_encoding(text@, ok_bytes(r)),
{
    match STANDARD.decode(text) {
        Ok(v) => Ok(v),
        Err(e) => Err(e.to_string()),
    }
}

/// A fresh random master key and the text in which it is kept.
pub fn new_master_key() -> (r: ([u8; 32], String))
    ensures
        r.1@ == base64_text(r.0@),
{
    let key: [u8; 32] = random_bytes();
    let text = base64_encode(&key);
    (key, text)
}

/// The master key read back from its text: valid base64 of exactly 32
/// bytes. The text of a key gives back the key.
pub fn decode_master_key(encoded: &str) -> (r: Result<[u8; 32], AppError>)
    ensures
        match base64_decoded(encoded@) {
            None => crypto_starting(r, "主密钥不是合法 base64: "@),
            Some(b) => if b.len() == 32 {
                r matches Ok(k) && k@ == b
            } else {
                crypto_with(r, "主密钥长度不是 32 字节"@)
            },
        },
        forall|k: [u8; 32]| #[trigger] base64_text(k@) == encoded@ ==> r == Ok::<[u8; 32], AppError>(k),
{
    let decoded = match base64_decode(encoded) {
        Ok(v) => v,
        Err(e) => {
            let r = crypto_error("主密钥不是合法 base64: ", e.as_str());
            proof {
                reveal_strlit("主密钥不是合法 base64: ");
                assert(("主密钥不是合法 base64: "@ + e@).take("主密钥不是合法 base64: "@.len() as int)
                    =~= "主密钥不是合法 base64: "@);
            }
            return Err(r);
        },
    };
    if decoded.len() != 32 {
        proof {
            assert forall|k: [u8; 32]| #[trigger] base64_text(k@) == encoded@ implies false by {
                assert(k@.len() == 32);
            }
        }
        return Err(AppError::Crypto(String::from_str("主密钥长度不是 32 字节")));
    }
    let mut key = [0u8; 32];
    let mut i: usize = 0;
    while i < 32
        invariant
            decoded@.len() == 32,
            i <= 32,
            forall|j: int| 0 <= j < i ==> key@[j] == decoded@[j],
        decreases 32 - i,
    {
        key.set(i, decoded[i]);
        i = i + 1;
    }
    assert(key@ =~= decoded@);
    proof {
        broadcast use vstd::array::group_array_axioms;

        assert forall|k: [u8; 32]| #[trigger] base64_text(k@) == encoded@ implies key == k by {
            assert(k@ == decoded@);
            assert forall|j: int| 0 <= j < 32 implies key[j] == k[j] by {
                assert(key@[j] == k@[j]);
            }
            assert(key =~= k);
        }
    }
    Ok(key)
}

} // verus!
