use base64::{engine::general_purpose, Engine as _};
use rrr::cypher::{cypher, normalize_key, seal_outcome, uncypher};

#[test]
fn normalize_key_pads_short_passcode_with_zeros() {
    let key = normalize_key("abc");
    assert_eq!(key.len(), 32);
    assert_eq!(&key[..3], b"abc");
    assert!(key[3..].iter().all(|b| *b == 0));
}

#[test]
fn normalize_key_cuts_long_passcode() {
    let code = "0123456789abcdefghijklmnopqrstuvwxyzXYZ";
    let key = normalize_key(code);
    assert_eq!(key, code.as_bytes()[..32].to_vec());
}

#[test]
fn normalize_key_of_empty_passcode_is_all_zero() {
    assert_eq!(normalize_key(""), vec![0u8; 32]);
}

#[test]
fn normalize_key_uses_utf8_bytes() {
    let key = normalize_key("é");
    assert_eq!(&key[..2], &[0xc3, 0xa9]);
    assert_eq!(key[2], 0);
}

#[test]
fn cypher_then_uncypher_gives_the_text_back() {
    let txt = String::from("run\nr\njl\nc = 5\nprintln(c)");
    let sealed = cypher(&txt, "rrr").expect("sealing succeeds");
    assert_ne!(sealed, txt);
    assert_eq!(uncypher(sealed, "rrr"), Ok(txt));
}

#[test]
fn cypher_roundtrip_of_empty_text() {
    let txt = String::new();
    let sealed = cypher(&txt, "k").unwrap();
    assert_eq!(uncypher(sealed, "k"), Ok(String::new()));
}

#[test]
fn cypher_output_is_base64_of_nonce_ciphertext_and_tag() {
    let txt = String::from("hello");
    let sealed = cypher(&txt, "rrr").unwrap();
    let raw = general_purpose::STANDARD.decode(&sealed).unwrap();
    assert_eq!(raw.len(), txt.len() + 28);
    assert_eq!(general_purpose::STANDARD.encode(&raw), sealed);
}

#[test]
fn cypher_differs_from_call_to_call() {
    let txt = String::from("same text");
    let a = cypher(&txt, "rrr").unwrap();
    let b = cypher(&txt, "rrr").unwrap();
    assert_ne!(a, b);
    assert_eq!(uncypher(a, "rrr").unwrap(), txt);
    assert_eq!(uncypher(b, "rrr").unwrap(), txt);
}

#[test]
fn uncypher_rejects_bad_base64() {
    assert_eq!(
        uncypher(String::from("@@@@"), "rrr"),
        Err(String::from("Could not decode base64(@@@@): Invalid symbol 64, offset 0."))
    );
}

#[test]
fn uncypher_rejects_short_ciphertext() {
    assert_eq!(
        uncypher(String::from("AAAA"), "rrr"),
        Err(String::from("Could  not decrypt data: Encrypted data too short"))
    );
}

#[test]
fn uncypher_with_wrong_passcode_fails() {
    let sealed = cypher(&String::from("secret"), "right").unwrap();
    assert_eq!(
        uncypher(sealed, "wrong"),
        Err(String::from("Could  not decrypt data: Decryption failed: aead::Error"))
    );
}

#[test]
fn passcodes_equal_in_first_32_bytes_open_each_other() {
    let a = "0123456789abcdefghijklmnopqrstuvA";
    let b = "0123456789abcdefghijklmnopqrstuvB";
    let sealed = cypher(&String::from("x"), a).unwrap();
    assert_eq!(uncypher(sealed, b), Ok(String::from("x")));
}

#[test]
fn seal_outcome_encodes_ciphertext_or_names_the_failure() {
    assert_eq!(seal_outcome(Ok(vec![0, 1, 2, 250])), Ok(String::from("AAEC+g==")));
    assert_eq!(seal_outcome(Ok(vec![])), Ok(String::new()));
    assert_eq!(
        seal_outcome(Err(String::from("Encryption failed"))),
        Err(String::from("Could not encrypt data: Encryption failed"))
    );
}
