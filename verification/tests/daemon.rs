use sirji::config::{Network, Peer};
use sirji::daemon::{
    greet, is_clean_close, registering_device, sorted_unique, welcome_of, locate_plan, locate_say, merge_relays, note_reached_on, plan_answer, AnswerError,
    AnswerPlan, Asker, GreetError, LocateError, RequestError, Roster,
};
use sirji::id52;
use sirji::keys::SecretKey;
use sirji::proto::{Ask, Hello, RelayInfo, Say, Welcome};

fn key() -> String {
    id52::encode(&SecretKey::generate().public())
}

fn home_net() -> Network {
    Network::initial(key())
}

#[test]
fn a_fresh_home_has_one_default_address() {
    let k = key();
    let net = Network::initial(k.clone());
    assert_eq!(net.handshake_keys.len(), 1);
    assert_eq!(net.handshake_keys[0].alias, "default");
    assert_eq!(net.current_addresses(), vec![k]);
    net.check().unwrap();
}

#[test]
fn an_invited_peer_pairs_and_is_then_known() {
    let mut net = home_net();
    let mine = key();
    let invite = net.invite_peer("kiran".into(), mine.clone(), vec!["10.0.0.1:4000".into()]).unwrap();
    assert_eq!(invite.identity, mine);
    assert_eq!(invite.addresses, net.current_addresses());
    assert_eq!(net.peer_counts(), (0, 1));

    let caller = key();
    let their_address = key();
    let hello = Hello::Invited { invited_to: mine.clone(), addresses: vec![their_address.clone()], dns: vec![] };
    match greet(&mut net, &caller, "default", hello).unwrap() {
        Welcome::Accepted { alias, addresses, .. } => {
            assert_eq!(alias, "kiran");
            assert_eq!(addresses, net.current_addresses());
        }
        Welcome::No { reason } => panic!("{reason}"),
    }
    assert_eq!(net.peer_counts(), (1, 0));
    let p = net.peer_by_key(&caller).unwrap();
    assert_eq!(p.addresses, vec![their_address]);
    assert_eq!(p.reached_on, Some("default".to_string()));
    assert!(net.pending_by_mine(&mine).is_none());
    net.check().unwrap();

    // The same key again is an existing relationship, whatever the hello says.
    match greet(&mut net, &caller, "default", Hello::Peer).unwrap() {
        Welcome::Accepted { alias, .. } => assert_eq!(alias, "kiran"),
        Welcome::No { reason } => panic!("{reason}"),
    }
}

#[test]
fn strangers_are_refused() {
    let mut net = home_net();
    let caller = key();
    let err = greet(&mut net, &caller, "default", Hello::Peer).unwrap_err();
    assert_eq!(err.message(), format!("we have no relationship with {caller}"));
    let err = greet(&mut net, &caller, "default", Hello::Device { hints: vec![] }).unwrap_err();
    assert!(matches!(err, GreetError::NotOurDevice { .. }));
    assert_eq!(err.message(), format!("{caller} is not one of our devices"));
    let hello = Hello::Invited { invited_to: key(), addresses: vec![], dns: vec![] };
    let err = greet(&mut net, &caller, "default", hello).unwrap_err();
    assert_eq!(err.message(), "no invite outstanding for that identity");
}

#[test]
fn an_invited_device_enrols_under_its_own_key() {
    let mut net = home_net();
    let invite_key = key();
    net.invite_device("fs".into(), invite_key.clone(), vec![]).unwrap();
    assert!(net.device_by_name("fs").unwrap().is_pending());

    let device_key = key();
    let hello = Hello::Invited { invited_to: invite_key.clone(), addresses: vec![], dns: vec![] };
    match greet(&mut net, &device_key, "default", hello).unwrap() {
        Welcome::Accepted { alias, .. } => assert_eq!(alias, "fs"),
        Welcome::No { reason } => panic!("{reason}"),
    }
    let d = net.device_by_name("fs").unwrap();
    assert_eq!(d.keys, vec![device_key.clone()]);
    assert!(d.invite.is_none());
    assert_eq!(net.device_by_key(&device_key).unwrap().name, "fs");
}

#[test]
fn taken_names_are_refused() {
    let mut net = home_net();
    let err = net.new_address("default".into(), key()).unwrap_err();
    assert!(matches!(err, RequestError::AddressAliasTaken { .. }));
    assert_eq!(err.message(), "we already have a handshake key called \"default\"");
    let second = key();
    let listen = net.new_address("second".into(), second.clone()).unwrap();
    assert_eq!(listen.alias, "second");
    assert_eq!(listen.key, second);
    assert_eq!(net.current_addresses().len(), 2);

    net.invite_peer("kiran".into(), key(), vec![]).unwrap();
    let err = net.invite_peer("kiran".into(), key(), vec![]).unwrap_err();
    assert_eq!(err.message(), "we already know someone called \"kiran\"");

    net.invite_device("fs".into(), key(), vec![]).unwrap();
    let err = net.invite_device("fs".into(), key(), vec![]).unwrap_err();
    assert_eq!(err.message(), "we already have a device called \"fs\"");
}

#[test]
fn an_identity_is_never_shown_twice() {
    let mut net = home_net();
    let mine = key();
    net.invite_peer("a".into(), mine.clone(), vec![]).unwrap();
    let err = net.invite_peer("b".into(), mine, vec![]).unwrap_err();
    match &err {
        RequestError::Unusable { .. } => {}
        other => panic!("{other:?}"),
    }
    assert!(err.message().contains("never be shown to two peers"));
}

#[test]
fn accepting_records_the_relationship() {
    let mut net = home_net();
    let identity = key();
    net.accept_peer("asha".into(), identity.clone(), key(), vec![key()], vec!["asha.example".into()]).unwrap();
    let infos = net.peer_infos();
    assert_eq!(infos.len(), 1);
    assert_eq!(infos[0].alias, "asha");
    assert_eq!(infos[0].peer, Some(identity));
    assert_eq!(net.peer_counts(), (1, 0));
}

#[test]
fn who_asks_decides_what_they_may_ask() {
    let mut net = home_net();
    let mine = key();
    let addr = key();
    net.accept_peer("kiran".into(), key(), mine.clone(), vec![addr.clone()], vec![]).unwrap();

    let asked = plan_answer(&net, Ask::Resolve { name: "fs".into(), caller: "c".into() }, &Asker::Peer("kiran".into()));
    match asked.unwrap() {
        AnswerPlan::Locate { name, caller, alias } => {
            assert_eq!((name.as_str(), caller.as_str(), alias), ("fs", "c", Some("kiran".to_string())));
        }
        other => panic!("{other:?}"),
    }
    let refused = plan_answer(&net, Ask::Resolve { name: "fs".into(), caller: "c".into() }, &Asker::Device("d".into()));
    assert!(matches!(refused, Err(AnswerError::PeersOnly)));
    assert_eq!(refused.unwrap_err().message(), "only a peer may ask us to locate our devices");

    let refused = plan_answer(&net, Ask::ResolveLocal { name: "fs".into() }, &Asker::Peer("kiran".into()));
    assert_eq!(refused.unwrap_err().message(), "only our own devices may resolve a sibling");

    match plan_answer(&net, Ask::ResolveFor { name: "fs".into(), alias: "kiran".into() }, &Asker::Device("d".into())).unwrap() {
        AnswerPlan::Forward { name, caller, alias, mine: m, addresses } => {
            assert_eq!((name.as_str(), caller.as_str(), alias.as_str()), ("fs", "d", "kiran"));
            assert_eq!(m, mine);
            assert_eq!(addresses, vec![addr]);
        }
        other => panic!("{other:?}"),
    }
    let refused = plan_answer(&net, Ask::ResolveFor { name: "fs".into(), alias: "nobody".into() }, &Asker::Device("d".into()));
    assert_eq!(refused.unwrap_err().message(), "we know nobody called \"nobody\"");
    let refused = plan_answer(&net, Ask::ResolveFor { name: "fs".into(), alias: "kiran".into() }, &Asker::Peer("kiran".into()));
    assert_eq!(refused.unwrap_err().message(), "only our own devices may ask us to resolve for them");
}

#[test]
fn only_a_live_enrolled_device_is_located() {
    let issuer_secret = SecretKey::generate();
    let issuer = id52::encode(&issuer_secret.public());
    let mut net = Network::initial(issuer.clone());
    let mut roster = Roster::new();

    let err = locate_plan(&net, &roster, "fs").unwrap_err();
    assert!(matches!(err, LocateError::NoDevice { .. }));
    assert_eq!(err.message(), "we have no device called \"fs\"");

    net.invite_device("fs".into(), key(), vec![]).unwrap();
    let err = locate_plan(&net, &roster, "fs").unwrap_err();
    assert_eq!(err.message(), "\"fs\" has not enrolled yet");

    let device_key = key();
    net.devices[0].keys = vec![device_key.clone()];
    net.devices[0].invite = None;
    let err = locate_plan(&net, &roster, "fs").unwrap_err();
    assert_eq!(err.message(), "\"fs\" is not connected");

    roster.register("fs".into(), vec!["10.0.0.2:5000".into()]);
    assert!(roster.is_live("fs"));
    let plan = locate_plan(&net, &roster, "fs").unwrap();
    assert_eq!(plan.device, device_key);
    assert_eq!(plan.issuer, issuer);
    assert_eq!(plan.hints, vec!["10.0.0.2:5000".to_string()]);

    let caller = SecretKey::generate().public();
    let caller_text = id52::encode(&caller);
    match locate_say(plan.clone(), "fs".into(), caller_text.clone(), Some("kiran".into()), &issuer_secret).unwrap() {
        Say::Resolved { device, ticket, hints } => {
            assert_eq!(device, device_key);
            assert_eq!(hints, vec!["10.0.0.2:5000".to_string()]);
            assert_eq!(ticket.issuer, issuer);
            ticket.verify(&caller, &[issuer.clone()]).unwrap();
        }
        Say::No { reason } => panic!("{reason}"),
    }
    let err = locate_say(plan, "fs".into(), "bad".into(), None, &issuer_secret).unwrap_err();
    assert_eq!(err.message(), "an id52 is 52 characters, got 3: \"bad\"");

    roster.depart("fs");
    assert!(!roster.is_live("fs"));
    assert!(roster.hints_of("fs").is_none());
}

#[test]
fn device_infos_show_who_is_connected() {
    let mut net = home_net();
    net.invite_device("fs".into(), key(), vec![]).unwrap();
    net.invite_device("cam".into(), key(), vec![]).unwrap();
    let mut roster = Roster::new();
    roster.register("cam".into(), vec![]);
    let infos = net.device_infos(&roster);
    assert_eq!(infos.len(), 2);
    assert!(!infos[0].live && infos[0].pending);
    assert!(infos[1].live);
}

#[test]
fn arriving_on_an_address_is_noted() {
    let mut net = home_net();
    net.new_address("second".into(), key()).unwrap();
    net.accept_peer("kiran".into(), key(), key(), vec![], vec![]).unwrap();
    note_reached_on(&mut net, "kiran", "second");
    assert_eq!(net.peers[0].reached_on, Some("second".to_string()));
    let before: Vec<Peer> = net.peers.clone();
    note_reached_on(&mut net, "nobody", "second");
    assert_eq!(net.peers.len(), before.len());
}

#[test]
fn configured_relays_show_even_before_they_connect() {
    let reported = vec![RelayInfo { url: "https://a.example/".into(), connected: true, error: None }];
    let configured = vec!["https://a.example".to_string(), "https://b.example".to_string(), "https://b.example/".to_string()];
    let merged = merge_relays(reported, &configured);
    assert_eq!(merged.len(), 2);
    assert!(merged[0].connected);
    assert_eq!(merged[1].url, "https://b.example");
    assert!(!merged[1].connected);
    assert_eq!(merged[1].error, Some("configured, no connection yet".to_string()));
}

#[test]
fn a_closed_connection_is_clean() {
    assert!(is_clean_close("connection lost: closed by peer: done"));
    assert!(is_clean_close("connection closed"));
    assert!(!is_clean_close("timed out"));
}

#[test]
fn a_known_device_registers_by_holding_the_connection() {
    let mut net = home_net();
    let device_key = key();
    net.invite_device("fs".into(), key(), vec![]).unwrap();
    net.devices[0].keys = vec![device_key.clone()];
    net.devices[0].invite = None;
    let hello = Hello::Device { hints: vec!["127.0.0.1:9".into()] };
    assert_eq!(
        registering_device(&net, &device_key, &hello),
        Some(("fs".to_string(), vec!["127.0.0.1:9".to_string()]))
    );
    assert_eq!(registering_device(&net, &key(), &hello), None);
    assert_eq!(registering_device(&net, &device_key, &Hello::Peer), None);
}

#[test]
fn hints_are_sorted_and_each_given_once() {
    let items: Vec<String> = ["127.0.0.1:9", "10.0.0.1:5", "127.0.0.1:9", "10.0.0.1:4"].iter().map(|s| s.to_string()).collect();
    assert_eq!(sorted_unique(&items), vec!["10.0.0.1:4".to_string(), "10.0.0.1:5".to_string(), "127.0.0.1:9".to_string()]);
    assert!(sorted_unique(&vec![]).is_empty());
}

#[test]
fn a_refused_greeting_says_why() {
    match welcome_of(Err(GreetError::NoInvite)) {
        Welcome::No { reason } => assert_eq!(reason, "no invite outstanding for that identity"),
        other => panic!("{other:?}"),
    }
    match welcome_of(Ok(Welcome::No { reason: "x".into() })) {
        Welcome::No { reason } => assert_eq!(reason, "x"),
        other => panic!("{other:?}"),
    }
}

#[test]
fn a_pairing_that_breaks_the_net_is_refused() {
    let mut net = home_net();
    let mine = key();
    net.invite_peer("kiran".into(), mine.clone(), vec![]).unwrap();
    let hello = Hello::Invited { invited_to: mine, addresses: vec![], dns: vec![] };
    let err = greet(&mut net, &key(), "nowhere", hello).unwrap_err();
    assert!(matches!(err, GreetError::Unusable { .. }));
    assert_eq!(
        err.message(),
        "peer \"kiran\" was last reached on \"nowhere\", which is not one of our handshake keys"
    );
}

#[test]
fn a_ticket_needs_a_current_address_to_sign_with() {
    let mut net = home_net();
    net.handshake_keys[0].retired = true;
    net.invite_device("fs".into(), key(), vec![]).unwrap();
    net.devices[0].keys = vec![key()];
    net.devices[0].invite = None;
    let mut roster = Roster::new();
    roster.register("fs".into(), vec![]);
    let err = locate_plan(&net, &roster, "fs").unwrap_err();
    assert!(matches!(err, LocateError::NoAddress));
    assert_eq!(err.message(), "we have no current address to sign with");
}
