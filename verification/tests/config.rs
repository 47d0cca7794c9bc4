use sirji::config::{Device, HandshakeKey, Network, Peer};
use sirji::id52;
use sirji::keys::SecretKey;

fn key() -> String {
    id52::encode(&SecretKey::generate().public())
}

fn peer(alias: &str, their: Option<String>, mine: String, reached_on: Option<&str>) -> Peer {
    Peer {
        alias: alias.into(),
        peer: their,
        mine,
        addresses: vec![],
        dns: vec![],
        reached_on: reached_on.map(|s| s.to_string()),
    }
}

#[test]
fn an_empty_file_is_a_valid_empty_net() {
    let net = Network::default();
    net.check().unwrap();
    assert!(net.current_addresses().is_empty());
}

#[test]
fn a_reused_identity_key_is_rejected() {
    let shared = key();
    let net = Network {
        peers: vec![
            peer("a", Some(key()), shared.clone(), None),
            peer("b", Some(key()), shared, None),
        ],
        ..Default::default()
    };
    let err = net.check().unwrap_err().message();
    assert!(err.contains("never be shown to two peers"), "{err}");
}

#[test]
fn a_duplicate_alias_is_rejected() {
    let net = Network {
        peers: vec![peer("same", None, key(), None), peer("same", None, key(), None)],
        ..Default::default()
    };
    assert!(net.check().unwrap_err().message().contains("share the alias"));
}

#[test]
fn reached_on_must_name_a_key_we_have() {
    let net = Network {
        peers: vec![peer("a", Some(key()), key(), Some("gone"))],
        ..Default::default()
    };
    assert!(net.check().unwrap_err().message().contains("not one of our"));
}

#[test]
fn retired_keys_drain_only_when_no_peer_names_them() {
    let mut net = Network {
        handshake_keys: vec![
            HandshakeKey { alias: "v1".into(), key: key(), retired: true },
            HandshakeKey { alias: "v2".into(), key: key(), retired: false },
        ],
        peers: vec![peer("a", Some(key()), key(), Some("v1"))],
        ..Default::default()
    };
    assert!(net.drained().is_empty(), "v1 is still in use");

    net.peers[0].reached_on = Some("v2".into());
    let drained: Vec<_> = net.drained().iter().map(|k| k.alias.clone()).collect();
    assert_eq!(drained, vec!["v1".to_string()]);
}

#[test]
fn current_addresses_exclude_retired() {
    let net = Network {
        handshake_keys: vec![
            HandshakeKey { alias: "v1".into(), key: key(), retired: true },
            HandshakeKey { alias: "v2".into(), key: key(), retired: false },
        ],
        ..Default::default()
    };
    assert_eq!(net.current_addresses(), vec![net.handshake_keys[1].key.clone()]);
}

#[test]
fn a_dialling_key_is_known_or_it_is_a_handshake() {
    let theirs = key();
    let net = Network {
        peers: vec![peer("known", Some(theirs.clone()), key(), None)],
        ..Default::default()
    };
    assert_eq!(net.peer_by_key(&theirs).unwrap().alias, "known");
    assert!(net.peer_by_key(&key()).is_none());
}

#[test]
fn a_full_net_checks_and_looks_up() {
    let device_key = key();
    let net = Network {
        dns: vec!["example.com".into()],
        handshake_keys: vec![HandshakeKey { alias: "public".into(), key: key(), retired: false }],
        peers: vec![Peer {
            alias: "kiran".into(),
            peer: Some(key()),
            mine: key(),
            addresses: vec![key()],
            dns: vec!["kiran.example".into()],
            reached_on: Some("public".into()),
        }],
        devices: vec![
            Device { name: "fs".into(), keys: vec![device_key.clone()], invite: None },
            Device { name: "cam".into(), keys: vec![], invite: Some(key()) },
        ],
    };
    net.check().unwrap();
    assert_eq!(net.device_by_name("fs").unwrap().keys, vec![device_key.clone()]);
    assert_eq!(net.device_by_key(&device_key).unwrap().name, "fs");
    assert_eq!(net.names_for_device_key(&device_key), vec!["fs"]);
    assert!(net.devices[1].is_pending());
    assert!(!net.devices[0].is_pending());
    let invite = net.devices[1].invite.clone().unwrap();
    assert_eq!(net.pending_device_by_invite(&invite).unwrap().name, "cam");
    assert!(net.handshake_key_by_alias("public").is_some());
    assert!(net.handshake_key_by_alias("private").is_none());
}

#[test]
fn a_pending_peer_is_found_by_the_identity_minted_for_it() {
    let mine = key();
    let net = Network {
        peers: vec![peer("asha", None, mine.clone(), None), peer("ravi", Some(key()), key(), None)],
        ..Default::default()
    };
    assert!(net.peers[0].is_pending());
    assert_eq!(net.pending_by_mine(&mine).unwrap().alias, "asha");
    assert!(net.pending_by_mine(&net.peers[1].mine).is_none());
}

#[test]
fn a_bad_handshake_key_is_named_in_the_error() {
    let net = Network {
        handshake_keys: vec![HandshakeKey { alias: "home".into(), key: "nope".into(), retired: false }],
        ..Default::default()
    };
    let err = net.check().unwrap_err();
    assert_eq!(err.message(), "handshake key \"home\"");
    assert_eq!(err.chain(), "handshake key \"home\": an id52 is 52 characters, got 4: \"nope\"");
}

#[test]
fn a_duplicate_device_name_is_rejected() {
    let net = Network {
        devices: vec![
            Device { name: "fs".into(), keys: vec![key()], invite: None },
            Device { name: "fs".into(), keys: vec![key()], invite: None },
        ],
        ..Default::default()
    };
    assert_eq!(net.check().unwrap_err().message(), "two devices share the name \"fs\"");
}

#[test]
fn the_network_file_lives_in_the_home() {
    assert_eq!(Network::path_in("/home/a/.sirji"), "/home/a/.sirji/network.toml");
    assert_eq!(Network::path_in("/home/a/.sirji/"), "/home/a/.sirji/network.toml");
}

#[test]
fn every_field_that_should_be_an_id52_is_checked() {
    let bad_mine = Network { peers: vec![peer("a", None, "x".into(), None)], ..Default::default() };
    assert_eq!(
        bad_mine.check().unwrap_err().chain(),
        "peer \"a\": `mine`: an id52 is 52 characters, got 1: \"x\""
    );
    let bad_peer = Network { peers: vec![peer("a", Some("y".into()), key(), None)], ..Default::default() };
    assert_eq!(bad_peer.check().unwrap_err().message(), "peer \"a\": `peer`");
    let mut with_address = peer("a", Some(key()), key(), None);
    with_address.addresses = vec![key(), "z".into()];
    let bad_address = Network { peers: vec![with_address], ..Default::default() };
    assert_eq!(
        bad_address.check().unwrap_err().chain(),
        "peer \"a\": address: an id52 is 52 characters, got 1: \"z\""
    );
    let bad_device_key = Network {
        devices: vec![Device { name: "fs".into(), keys: vec!["k".into()], invite: None }],
        ..Default::default()
    };
    assert_eq!(bad_device_key.check().unwrap_err().message(), "device \"fs\"");
    let bad_invite = Network {
        devices: vec![Device { name: "fs".into(), keys: vec![], invite: Some("i".into()) }],
        ..Default::default()
    };
    assert_eq!(bad_invite.check().unwrap_err().message(), "device \"fs\": invite");
}

#[test]
fn one_identity_key_in_two_spellings_is_rejected() {
    let shared = key();
    let net = Network {
        peers: vec![
            peer("a", Some(key()), shared.clone(), None),
            peer("b", Some(key()), shared.to_uppercase(), None),
        ],
        ..Default::default()
    };
    let err = net.check().unwrap_err().message();
    assert!(err.contains("never be shown to two peers"), "{err}");
}

#[test]
fn the_names_for_a_key_agree_with_the_device_found_by_it() {
    let k = key();
    let devices = vec![
        Device { name: "laptop".into(), keys: vec![key()], invite: None },
        Device { name: "phone".into(), keys: vec![k.clone()], invite: None },
        Device { name: "tablet".into(), keys: vec![k.clone()], invite: None },
    ];
    let net = Network { devices, ..Default::default() };
    assert_eq!(net.names_for_device_key(&k), vec!["phone", "tablet"]);
    assert_eq!(net.device_by_key(&k).unwrap().name, "phone");
    let stranger = key();
    assert!(net.names_for_device_key(&stranger).is_empty());
    assert!(net.device_by_key(&stranger).is_none());
}
