use sirji::id52::{self, decode, encode, Id52Error, LEN};
use sirji::keys::SecretKey;

#[test]
fn round_trips_and_is_always_52_lowercase() {
    for _ in 0..64 {
        let key = SecretKey::generate().public();
        let text = encode(&key);

        assert_eq!(text.len(), LEN, "{text}");
        assert_eq!(text, text.to_lowercase(), "{text}");
        assert_eq!(decode(&text).unwrap(), key);
    }
}

#[test]
fn accepts_uppercase_but_emits_lowercase() {
    let key = SecretKey::generate().public();
    let text = encode(&key);
    assert_eq!(decode(&text.to_uppercase()).unwrap(), key);
}

#[test]
fn rejects_the_wrong_shape() {
    let key = SecretKey::generate().public();
    let good = encode(&key);

    assert!(decode("").is_err(), "empty");
    assert!(decode(&good[..LEN - 1]).is_err(), "too short");
    assert!(decode(&format!("{good}0")).is_err(), "too long");
    // 'w' is outside the base32hex alphabet (0-9, a-v).
    assert!(decode(&format!("w{}", &good[1..])).is_err(), "bad alphabet");
}

#[test]
fn is_not_iroh_hex() {
    let key = SecretKey::generate().public();
    let theirs = iroh::PublicKey::from_bytes(key.as_bytes()).unwrap();
    assert_ne!(encode(&key), theirs.to_string());
    assert_eq!(theirs.to_string().len(), 64);
}

#[test]
fn the_errors_say_what_is_wrong() {
    let wrong = decode("abc").unwrap_err();
    assert_eq!(wrong, Id52Error::WrongLength { len: 3 });
    assert_eq!(wrong.message("abc"), "an id52 is 52 characters, got 3: \"abc\"");

    let key = SecretKey::generate().public();
    let good = encode(&key);
    let bad = format!("w{}", &good[1..]);
    let err = decode(&bad).unwrap_err();
    let theirs = data_encoding::BASE32HEX_NOPAD.decode(bad.to_uppercase().as_bytes()).unwrap_err();
    assert_eq!(err.message(&bad), format!("not a valid id52: {theirs}"));
    assert_eq!(theirs.to_string(), "invalid symbol at 0");
}

#[test]
fn the_encoding_matches_iroh_bytes_in_base32hex() {
    let key = SecretKey::generate().public();
    let expected = data_encoding::BASE32HEX_NOPAD.encode(key.as_bytes()).to_lowercase();
    assert_eq!(id52::encode(&key), expected);
}

#[test]
fn thirty_two_bytes_off_the_curve_are_not_a_key() {
    let mut bytes = [0u8; 32];
    let mut found = None;
    for first in 0..=255u8 {
        for last in [0u8, 0x7f, 0x80, 0xff] {
            bytes[0] = first;
            bytes[31] = last;
            if iroh::PublicKey::from_bytes(&bytes).is_err() {
                found = Some(bytes);
                break;
            }
        }
        if found.is_some() {
            break;
        }
    }
    let bytes = found.expect("some 32 bytes are not a point");
    let text = data_encoding::BASE32HEX_NOPAD.encode(&bytes).to_lowercase();
    let err = decode(&text).unwrap_err();
    assert_eq!(err, Id52Error::NotAKey);
    assert_eq!(err.message(&text), "data is not a valid public key");
}
