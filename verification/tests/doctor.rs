use sirji::config::{HandshakeKey, Network};
use sirji::doctor::{
    check_daemon, check_dns, check_home, check_keys, check_relays, check_udp, closing_lines, debug_list, pad,
    relay_advice, relays_wanted, verdict_lines, Verdict,
};
use sirji::id52;
use sirji::keys::SecretKey;
use sirji::keystore::Keystore;
use sirji::proto::RelayInfo;
use sirji::settings::Settings;

#[test]
fn a_verdict_prints_in_columns() {
    let lines = verdict_lines("dns", &Verdict::Fine { detail: "resolved".into() });
    assert_eq!(lines, vec!["  ok    dns            resolved".to_string()]);
    let lines = verdict_lines("udp egress", &Verdict::Bad { detail: "no".into(), fix: "ask".into() });
    assert_eq!(
        lines,
        vec!["  FAIL  udp egress     no".to_string(), format!("        {} \u{2192} ask", " ".repeat(14))]
    );
    assert_eq!(pad("a-very-long-step-name", 14), "a-very-long-step-name");
}

#[test]
fn the_home_check_reports_what_it_found() {
    let v = check_home("/nowhere", None);
    assert!(v.is_bad());
    let net = Network::initial(id52::encode(&SecretKey::generate().public()));
    match check_home("/h", Some(Ok(net))) {
        Verdict::Fine { detail } => assert_eq!(detail, "1 address(es), 0 peer(s), 0 device(s)"),
        other => panic!("{other:?}"),
    }
    let broken = Network {
        handshake_keys: vec![HandshakeKey { alias: "x".into(), key: "bad".into(), retired: false }],
        ..Default::default()
    };
    match check_home("/h", Some(Ok(broken))) {
        Verdict::Bad { detail, fix } => {
            assert_eq!(detail, "network.toml is not usable: handshake key \"x\": an id52 is 52 characters, got 3: \"bad\"");
            assert_eq!(fix, "see `sirji net check`");
        }
        other => panic!("{other:?}"),
    }
}

#[test]
fn every_listening_key_needs_a_private_key() {
    let secret = SecretKey::generate();
    let net = Network {
        handshake_keys: vec![
            HandshakeKey { alias: "ok".into(), key: id52::encode(&secret.public()), retired: false },
            HandshakeKey { alias: "lost".into(), key: id52::encode(&SecretKey::generate().public()), retired: false },
        ],
        ..Default::default()
    };
    let store = Keystore::at("/h/keys".into());
    let contents = vec![Some(secret.to_bytes().to_vec()), None];
    match check_keys(Some(&net), &store, &contents) {
        Verdict::Bad { detail, .. } => assert_eq!(detail, "no usable private key for [\"lost\"]"),
        other => panic!("{other:?}"),
    }
    let contents = vec![Some(secret.to_bytes().to_vec()), Some(secret.to_bytes().to_vec())];
    match check_keys(Some(&net), &store, &contents) {
        Verdict::Bad { detail, .. } => assert_eq!(detail, "no usable private key for [\"lost\"]"),
        other => panic!("{other:?}"),
    }
    let net = Network { handshake_keys: vec![net.handshake_keys[0].clone()], ..Default::default() };
    match check_keys(Some(&net), &store, &vec![Some(secret.to_bytes().to_vec())]) {
        Verdict::Fine { detail } => assert_eq!(detail, "1 private key(s), all readable"),
        other => panic!("{other:?}"),
    }
    assert!(matches!(check_keys(None, &store, &vec![]), Verdict::Note { .. }));
}

#[test]
fn a_missing_daemon_is_only_a_note() {
    assert!(matches!(check_daemon(false, false), Verdict::Note { .. }));
    assert!(matches!(check_daemon(true, true), Verdict::Fine { .. }));
    assert!(matches!(check_daemon(true, false), Verdict::Note { .. }));
}

#[test]
fn network_checks_say_what_failed() {
    match check_dns(&vec!["dns.iroh.link".to_string()]) {
        Verdict::Bad { detail, .. } => assert_eq!(detail, "cannot resolve [\"dns.iroh.link\"]"),
        other => panic!("{other:?}"),
    }
    assert!(matches!(check_dns(&vec![]), Verdict::Fine { .. }));
    match check_udp(Ok(42)) {
        Verdict::Fine { detail } => assert_eq!(detail, "stun.l.google.com:19302 answered in 42ms"),
        other => panic!("{other:?}"),
    }
    assert!(check_udp(Err("timed out".into())).is_bad());
    assert_eq!(debug_list(&vec!["a".into(), "b\"c".into()]), "[\"a\", \"b\\\"c\"]");
}

#[test]
fn relay_advice_depends_on_how_it_failed() {
    assert!(relay_advice("invalid peer certificate: UnknownIssuer").starts_with("TLS was intercepted"));
    assert!(relay_advice("HTTP 403 Forbidden").starts_with("a filter is blocking"));
    assert!(relay_advice("").starts_with("if UDP works but no relay does"));
}

#[test]
fn relays_are_judged_one_by_one() {
    let none = Settings::default();
    assert!(!relays_wanted(&none, true));
    let v = check_relays(&none, true, Ok(vec![]));
    assert!(matches!(&v[..], [Verdict::Note { .. }]));

    let statuses = vec![
        RelayInfo { url: "https://a".into(), connected: true, error: None },
        RelayInfo { url: "https://b".into(), connected: false, error: Some("tls handshake".into()) },
    ];
    let v = check_relays(&none, false, Ok(statuses));
    assert_eq!(v.len(), 2);
    match &v[1] {
        Verdict::Bad { detail, fix } => {
            assert_eq!(detail, "https://b \u{2014} tls handshake");
            assert!(fix.starts_with("TLS was intercepted"));
        }
        other => panic!("{other:?}"),
    }
    match &check_relays(&none, false, Ok(vec![]))[..] {
        [Verdict::Bad { detail, .. }] => assert_eq!(detail, "no relay connected within 12s"),
        other => panic!("{other:?}"),
    }
    assert!(check_relays(&none, false, Err("no socket".into()))[0].is_bad());
}

#[test]
fn the_report_ends_with_the_verdict() {
    assert_eq!(closing_lines(false, 0), vec!["nothing wrong here.".to_string()]);
    assert_eq!(closing_lines(false, 1)[0], "1 problem above. UDP works, so this is fixable:");
    assert_eq!(closing_lines(false, 3)[0], "3 problems above. UDP works, so this is fixable:");
    assert_eq!(closing_lines(true, 3).len(), 2);
}
