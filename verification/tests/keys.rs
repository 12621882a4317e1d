use drp::crypto::{PUBLICKEYBYTES, SECRETKEYBYTES};
use drp::keygen::{keygen, parse_public_key, parse_secret_key};

#[test]
fn key_files_are_lower_case_hex_of_the_right_length() {
    let k = keygen();
    assert_eq!(k.public_hex.len(), 2 * PUBLICKEYBYTES);
    assert_eq!(k.secret_hex.len(), 2 * SECRETKEYBYTES);
    assert!(k.public_hex.chars().all(|c| c.is_ascii_digit() || ('a'..='f').contains(&c)));
    assert!(k.secret_hex.chars().all(|c| c.is_ascii_digit() || ('a'..='f').contains(&c)));
}

#[test]
fn key_files_read_back() {
    let k = keygen();
    let pk = parse_public_key(&k.public_hex).unwrap();
    let sk = parse_secret_key(&k.secret_hex).unwrap();
    assert_eq!(pk.len(), PUBLICKEYBYTES);
    assert_eq!(sk.len(), SECRETKEYBYTES);
    let again: String = pk.iter().map(|x| format!("{:02x}", x)).collect();
    assert_eq!(again, k.public_hex);
}

#[test]
fn two_key_pairs_differ() {
    let a = keygen();
    let c = keygen();
    assert_ne!(a.secret_hex, c.secret_hex);
}

#[test]
fn hex_text_is_read_with_either_case_and_white_space() {
    assert_eq!(parse_public_key("00ff10Ab"), Some(vec![0x00, 0xff, 0x10, 0xab]));
    assert_eq!(parse_public_key("0 0\nf\tf\r"), Some(vec![0x00, 0xff]));
    assert_eq!(parse_public_key(""), Some(vec![]));
}

#[test]
fn bad_hex_text_is_refused() {
    assert_eq!(parse_public_key("abc"), None);
    assert_eq!(parse_public_key("zz"), None);
    assert_eq!(parse_public_key("0g"), None);
}

#[test]
fn secret_key_must_have_its_length() {
    let thirty_two = "11".repeat(32);
    assert_eq!(parse_secret_key(&thirty_two), Some(vec![0x11; 32]));
    assert_eq!(parse_secret_key("1122"), None);
    assert_eq!(parse_secret_key(&"11".repeat(33)), None);
    assert_eq!(parse_secret_key("not hex"), None);
}

#[test]
fn the_public_key_file_belongs_to_the_secret_key_file() {
    let k = keygen();
    let pk = parse_public_key(&k.public_hex).unwrap();
    let sk = parse_secret_key(&k.secret_hex).unwrap();
    let secret = sodiumoxide::crypto::box_::SecretKey::from_slice(&sk).unwrap();
    assert_eq!(secret.public_key().0.to_vec(), pk);
}
