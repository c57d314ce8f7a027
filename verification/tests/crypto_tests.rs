use net_power::crypto::{decode_master_key, decrypt_with_key, encrypt_with_key, new_master_key};
use net_power::error::AppError;

fn crypto_text(e: AppError) -> String {
    match e {
        AppError::Crypto(m) => m,
        _ => panic!("expected a crypto error"),
    }
}

#[test]
fn secret_roundtrip_keeps_plaintext_out_of_ciphertext() {
    let key = [7_u8; 32];
    let plaintext = "ssh-password-should-not-be-plain";
    let (ciphertext, nonce) = encrypt_with_key(&key, plaintext).expect("sealing succeeds");
    assert_ne!(ciphertext, plaintext.as_bytes());
    assert!(!String::from_utf8_lossy(&ciphertext).contains(plaintext));
    assert_eq!(ciphertext.len(), plaintext.len() + 16);
    assert_eq!(nonce.len(), 12);
    assert_eq!(decrypt_with_key(&key, &ciphertext, &nonce).expect("opens"), plaintext);
}

#[test]
fn secrets_do_not_open_under_another_key_or_when_altered() {
    let key = [7_u8; 32];
    let (mut ciphertext, nonce) = encrypt_with_key(&key, "口令").unwrap();
    let e = decrypt_with_key(&[8_u8; 32], &ciphertext, &nonce).unwrap_err();
    assert_eq!(crypto_text(e), "解密失败: aead::Error");
    ciphertext[0] ^= 1;
    let e = decrypt_with_key(&key, &ciphertext, &nonce).unwrap_err();
    assert_eq!(crypto_text(e), "解密失败: aead::Error");
}

#[test]
fn each_secret_gets_a_fresh_nonce() {
    let key = [1_u8; 32];
    let (c1, n1) = encrypt_with_key(&key, "same").unwrap();
    let (c2, n2) = encrypt_with_key(&key, "same").unwrap();
    assert_ne!(n1, n2);
    assert_ne!(c1, c2);
    assert_eq!(decrypt_with_key(&key, &c2, &n2).unwrap(), "same");
}

#[test]
fn master_key_text_roundtrips() {
    let (key, text) = new_master_key();
    assert_eq!(text.len(), 44);
    assert_eq!(decode_master_key(&text).unwrap(), key);
    assert_eq!(
        decode_master_key("BwcHBwcHBwcHBwcHBwcHBwcHBwcHBwcHBwcHBwcHBwc=").unwrap(),
        [7_u8; 32]
    );
}

#[test]
fn master_key_text_is_checked() {
    let e = decode_master_key("not base64!").unwrap_err();
    assert!(crypto_text(e).starts_with("主密钥不是合法 base64: "));
    let e = decode_master_key("YWJj").unwrap_err();
    assert_eq!(crypto_text(e), "主密钥长度不是 32 字节");
}
