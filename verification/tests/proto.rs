use sirji::proto::{Invite, InviteError};

fn invite_json() -> String {
    let value = serde_json::Value::Object(
        [
            ("addresses".to_string(), serde_json::Value::Array(vec!["a".into(), "b".into()])),
            ("dns".to_string(), serde_json::Value::Array(vec!["example.com".into()])),
            ("identity".to_string(), serde_json::Value::String("c".into())),
            ("hints".to_string(), serde_json::Value::Array(vec!["127.0.0.1:1234".into()])),
        ]
        .into_iter()
        .collect(),
    );
    serde_json::to_string(&value).unwrap()
}

#[test]
fn an_invite_survives_a_paste() {
    let json = invite_json();
    let text = Invite::encode_json(&json);
    assert!(!text.contains('\n'), "must be one line");
    let back = Invite::decode_json(&format!("  {text}  \n")).unwrap();
    let back: serde_json::Value = serde_json::from_slice(&back).unwrap();
    let sent: serde_json::Value = serde_json::from_str(&json).unwrap();
    assert_eq!(back["addresses"], sent["addresses"]);
    assert_eq!(back["identity"], sent["identity"]);
    assert_eq!(back["dns"], sent["dns"]);
    assert_eq!(back["hints"], sent["hints"]);
}

#[test]
fn nonsense_is_not_an_invite() {
    assert!(Invite::decode_json("not an invite").is_err());
}

#[test]
fn a_refused_paste_says_where() {
    let err = Invite::decode_json("not an invite").unwrap_err();
    assert!(matches!(err, InviteError::NotAnInvite { fault: Some(_) }));
    let theirs = data_encoding::BASE64URL_NOPAD.decode(b"not an invite").unwrap_err();
    assert_eq!(err.message(), format!("not an invite: {theirs}"));
}

#[test]
fn an_invite_is_base64url_of_its_json() {
    let json = invite_json();
    let text = Invite::encode_json(&json);
    assert_eq!(text, data_encoding::BASE64URL_NOPAD.encode(json.as_bytes()));
}

#[test]
fn any_surrounding_whitespace_is_ignored() {
    let json = invite_json();
    let text = Invite::encode_json(&json);
    for (before, after) in [("", ""), ("\t", "\r\n"), ("\u{a0}\u{3000}", "\u{2028}"), (" \u{85}", "\u{202f}")] {
        let back = Invite::decode_json(&format!("{before}{text}{after}")).unwrap();
        assert_eq!(back, json.as_bytes(), "{before:?} {after:?}");
    }
}
