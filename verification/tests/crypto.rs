use peerchat::crypto::{
    appkey_from_b64, appkey_to_b64, decrypt, encrypt, seal, sha256_hex, AppCrypto, CryptoError,
    KeyError,
};
use peerchat::protocol::{
    Envelope, CHAT_PROTOCOL, DISCOVERY_KEY, FILE_PROTOCOL, KAD_PROTOCOL, KEY_PROTOCOL,
};

fn bytes32(hex: &str) -> [u8; 32] {
    let mut out = [0u8; 32];
    for i in 0..32 {
        out[i] = u8::from_str_radix(&hex[2 * i..2 * i + 2], 16).unwrap();
    }
    out
}

fn alice() -> AppCrypto {
    AppCrypto::from_secret_bytes(&bytes32(
        "77076d0a7318a57d3c16c17251b26645df4c2f92ebc0992ac177fba51db92c2a",
    ))
}

fn bob() -> AppCrypto {
    AppCrypto::from_secret_bytes(&bytes32(
        "5dab087e624a8a4b79e17f8b83800ee66f3bb1292618b6fd1c2f8b27ff88e0eb",
    ))
}

#[test]
fn protocol_names() {
    assert_eq!(KEY_PROTOCOL, "/peerchat/key/1.0.0");
    assert_eq!(CHAT_PROTOCOL, "/peerchat/chat/1.0.0");
    assert_eq!(FILE_PROTOCOL, "/peerchat/file/1.0.0");
    assert_eq!(KAD_PROTOCOL, "/peerchat/kad/1.0.0");
    assert_eq!(DISCOVERY_KEY, "peerchat-discovery-v1");
}

#[test]
fn public_key_of_a_known_secret() {
    let keys = AppCrypto::from_secret_bytes(&bytes32(
        "5dab087e624a8a4b79e17f8b83800ee66f3bb1292618b6fd1c2f8b27ff88e0eb",
    ));
    assert_eq!(
        keys.public_bytes(),
        bytes32("de9edb7d7b7dc1b4d35b61c2ece435373f8343c85b78674dadfc7e146f882b4f")
    );
    assert_eq!(
        alice().public_bytes(),
        bytes32("f8a9535a2d2ff605e8e144d54f4ef5c62313a2055dbb21fddd3fd9c299eb015d")
    );
    assert_eq!(keys.pubkey, keys.public_bytes());
    assert_ne!(&keys.pubkey, keys.secret_bytes());
}

#[test]
fn both_sides_derive_one_session_key() {
    let a = alice();
    let b = bob();
    let ab = a.derive_session_key(&b.pubkey);
    let ba = b.derive_session_key(&a.pubkey);
    assert_eq!(ab, ba);
}

#[test]
fn session_key_of_known_keys() {
    assert_eq!(
        alice().derive_session_key(&bob().pubkey),
        bytes32("21567a8e5cbed96ecb3e0bb61a47f8c85b06318c221cd79b816b11be64515ee0")
    );
}

#[test]
fn random_keys_agree_and_differ() {
    let a = AppCrypto::new();
    let b = AppCrypto::default();
    assert_ne!(a.pubkey, b.pubkey);
    assert_eq!(a.derive_session_key(&b.pubkey), b.derive_session_key(&a.pubkey));
    let c = AppCrypto::new();
    assert_ne!(a.derive_session_key(&b.pubkey), a.derive_session_key(&c.pubkey));
}

#[test]
fn appkey_round_trip() {
    let mut secret = [0u8; 32];
    for i in 0..32 {
        secret[i] = i as u8;
    }
    let keys = AppCrypto::from_secret_bytes(&secret);
    let text = appkey_to_b64(&keys);
    assert_eq!(text, "AAECAwQFBgcICQoLDA0ODxAREhMUFRYXGBkaGxwdHh8=");
    let again = appkey_from_b64(&text).ok().unwrap();
    assert_eq!(again.secret_bytes(), &secret);
    assert_eq!(again.pubkey, keys.pubkey);
}

#[test]
fn appkey_that_does_not_restore() {
    assert!(matches!(appkey_from_b64("aGVsbG8="), Err(KeyError::Length)));
    assert!(matches!(appkey_from_b64(""), Err(KeyError::Length)));
    assert!(matches!(appkey_from_b64("***"), Err(KeyError::Base64(_))));
}

#[test]
fn sha256_of_known_texts() {
    assert_eq!(
        sha256_hex(b"abc"),
        "ba7816bf8f01cfea414140de5dae2223b00361a396177a9cb410ff61f20015ad"
    );
    assert_eq!(
        sha256_hex(b""),
        "e3b0c44298fc1c149afbf4c8996fb92427ae41e4649b934ca495991b7852b855"
    );
}

#[test]
fn sealed_with_a_known_nonce() {
    let envelope = seal(&[7u8; 32], &[1u8; 12], b"hello").unwrap();
    assert_eq!(envelope.nonce, "AQEBAQEBAQEBAQEB");
    assert_eq!(envelope.ciphertext, "FC/te/8Ii+vZTVHykY8xIZwaaNw9");
    assert_eq!(decrypt(&[7u8; 32], &envelope).unwrap(), b"hello".to_vec());
}

#[test]
fn encrypted_reads_back() {
    let key = [9u8; 32];
    for message in [&b""[..], &b"x"[..], &[0u8; 1000][..]] {
        let first = encrypt(&key, message).unwrap();
        let second = encrypt(&key, message).unwrap();
        assert_ne!(first.nonce, second.nonce);
        let whole = message.len() + 16;
        assert_eq!(first.nonce.len(), 16);
        assert_eq!(first.ciphertext.len(), (whole + 2) / 3 * 4);
        assert_eq!(decrypt(&key, &first).unwrap(), message.to_vec());
        assert_eq!(decrypt(&key, &second).unwrap(), message.to_vec());
    }
}

#[test]
fn changed_envelopes_do_not_open() {
    let key = [7u8; 32];
    let sealed = || seal(&key, &[1u8; 12], b"hello").unwrap();
    let good = sealed();
    let other_text =
        Envelope { nonce: good.nonce.clone(), ciphertext: good.ciphertext.replacen('F', "G", 1) };
    assert_eq!(decrypt(&key, &other_text), Err(CryptoError::Aead));
    let other_nonce =
        Envelope { nonce: "AgEBAQEBAQEBAQEB".to_string(), ciphertext: sealed().ciphertext };
    assert_eq!(decrypt(&key, &other_nonce), Err(CryptoError::Aead));
    assert_eq!(decrypt(&[8u8; 32], &sealed()), Err(CryptoError::Aead));
    let cut = Envelope { nonce: sealed().nonce, ciphertext: "FC/te/8I".to_string() };
    assert_eq!(decrypt(&key, &cut), Err(CryptoError::Aead));
    let short_nonce = Envelope { nonce: "AQEB".to_string(), ciphertext: sealed().ciphertext };
    assert_eq!(decrypt(&key, &short_nonce), Err(CryptoError::Aead));
}

#[test]
fn envelopes_that_are_not_base64() {
    let key = [7u8; 32];
    let bad_nonce = Envelope { nonce: "!".to_string(), ciphertext: "".to_string() };
    let error = decrypt(&key, &bad_nonce).unwrap_err();
    assert!(matches!(error, CryptoError::Base64(_)));
    assert_ne!(error.text(), "!");
    let bad_text = Envelope { nonce: "AQEBAQEBAQEBAQEB".to_string(), ciphertext: "?".to_string() };
    assert!(matches!(decrypt(&key, &bad_text), Err(CryptoError::Base64(_))));
    assert_eq!(CryptoError::Aead.text(), "aead::Error");
}
