use sirji::id52;
use sirji::keys::SecretKey;
use sirji::ticket::{now, signed_bytes, Ticket, TicketError, LIFETIME_SECS};

fn setup() -> (SecretKey, SecretKey, Vec<String>) {
    let parent = SecretKey::generate();
    let caller = SecretKey::generate();
    let parents = vec![id52::encode(&parent.public())];
    (parent, caller, parents)
}

#[test]
fn a_good_ticket_verifies() {
    let (parent, caller, parents) = setup();
    let ticket = Ticket::mint(
        &parent,
        "fs".into(),
        id52::encode(&caller.public()),
        Some("bob".into()),
        LIFETIME_SECS,
    );
    ticket.verify(&caller.public(), &parents).unwrap();
}

#[test]
fn a_ticket_lent_to_someone_else_is_refused() {
    let (parent, caller, parents) = setup();
    let ticket = Ticket::mint(&parent, "fs".into(), id52::encode(&caller.public()), None, LIFETIME_SECS);

    let thief = SecretKey::generate();
    let err = ticket.verify(&thief.public(), &parents).unwrap_err().message();
    assert!(err.contains("presented it"), "{err}");
}

#[test]
fn a_ticket_from_a_stranger_is_refused() {
    let (_parent, caller, _parents) = setup();
    let impostor = SecretKey::generate();
    let ticket = Ticket::mint(&impostor, "fs".into(), id52::encode(&caller.public()), None, LIFETIME_SECS);

    // Signed correctly, by the wrong sirji.
    let real_parent = vec![id52::encode(&SecretKey::generate().public())];
    let err = ticket.verify(&caller.public(), &real_parent).unwrap_err().message();
    assert!(err.contains("not our parent"), "{err}");
}

#[test]
fn an_expired_ticket_is_refused() {
    let (parent, caller, parents) = setup();
    let ticket = Ticket::mint(&parent, "fs".into(), id52::encode(&caller.public()), None, 0);
    // A second and a bit later.
    let later = ticket.valid_until + 1;
    let err = ticket.verify_at(&caller.public(), &parents, later).unwrap_err().message();
    assert!(err.contains("expired"), "{err}");
}

#[test]
fn tampering_with_any_field_breaks_the_signature() {
    let (parent, caller, parents) = setup();
    let good = Ticket::mint(
        &parent,
        "fs".into(),
        id52::encode(&caller.public()),
        Some("bob".into()),
        LIFETIME_SECS,
    );

    // Escalate the name: the same ticket, aimed at a different device.
    let mut forged = good.clone();
    forged.name = "secrets".into();
    assert!(forged.verify(&caller.public(), &parents).is_err());

    // Promote yourself to a different alias.
    let mut forged = good.clone();
    forged.alias = Some("admin".into());
    assert!(forged.verify(&caller.public(), &parents).is_err());

    // Extend your own validity.
    let mut forged = good.clone();
    forged.valid_until += 86_400;
    assert!(forged.verify(&caller.public(), &parents).is_err());
}

#[test]
fn fields_cannot_be_shuffled_across_the_boundary() {
    // Length-prefixing is what stops ("ab", "c") signing the same bytes as
    // ("a", "bc"), which would let one ticket be reinterpreted as another.
    assert_ne!(
        signed_bytes("ab", "c", None, 1, "x"),
        signed_bytes("a", "bc", None, 1, "x"),
    );
}

#[test]
fn the_signed_bytes_are_framed_fields() {
    let bytes = signed_bytes("fs", "k", Some("bob"), 258, "i");
    let expected: Vec<u8> = vec![
        0, 0, 0, 2, b'f', b's', // name
        0, 0, 0, 1, b'k', // caller
        0, 0, 0, 3, b'b', b'o', b'b', // alias
        0, 0, 0, 1, b'i', // issuer
        0, 0, 0, 0, 0, 0, 1, 2, // valid until
    ];
    assert_eq!(bytes, expected);
}

#[test]
fn a_minted_ticket_is_valid_for_its_lifetime_only() {
    let (parent, caller, parents) = setup();
    let ticket = Ticket::mint_at(&parent, "fs".into(), id52::encode(&caller.public()), None, 1_000);
    assert_eq!(ticket.issuer, parents[0]);
    assert!(ticket.verify_at(&caller.public(), &parents, 1_000).is_ok());
    let err = ticket.verify_at(&caller.public(), &parents, 1_100).unwrap_err();
    assert!(matches!(err, TicketError::Expired { seconds_ago: 100 }));
    assert_eq!(err.message(), "ticket expired 100 seconds ago");
    let fresh = Ticket::mint(&parent, "fs".into(), id52::encode(&caller.public()), None, LIFETIME_SECS);
    assert!(fresh.valid_until >= now());
}

#[test]
fn a_garbled_signature_is_unreadable() {
    let (parent, caller, parents) = setup();
    let mut ticket = Ticket::mint(&parent, "fs".into(), id52::encode(&caller.public()), None, LIFETIME_SECS);
    ticket.signature = "!!".into();
    let err = ticket.verify(&caller.public(), &parents).unwrap_err();
    assert!(err.message().starts_with("unreadable signature: "), "{}", err.message());
    ticket.signature = "AAAA".into();
    let err = ticket.verify(&caller.public(), &parents).unwrap_err();
    assert_eq!(err.message(), "a signature is 64 bytes");
}

#[test]
fn an_issuer_that_is_not_an_id52_is_refused() {
    let (parent, caller, _parents) = setup();
    let mut ticket = Ticket::mint(&parent, "fs".into(), id52::encode(&caller.public()), None, LIFETIME_SECS);
    ticket.issuer = "nope".into();
    let err = ticket.verify(&caller.public(), &["nope".to_string()]).unwrap_err();
    assert!(matches!(err, TicketError::BadIssuer { .. }));
    assert_eq!(err.message(), "an id52 is 52 characters, got 4: \"nope\"");
}

#[test]
fn a_minted_ticket_passes_until_it_expires() {
    let (parent, caller, parents) = setup();
    let ticket = Ticket::mint_at(&parent, "fs".into(), id52::encode(&caller.public()), None, 1_000);
    ticket.verify_at(&caller.public(), &parents, 0).unwrap();
    ticket.verify_at(&caller.public(), &parents, 1_000).unwrap();
    let err = ticket.verify_at(&caller.public(), &parents, 1_001).unwrap_err();
    assert!(matches!(err, TicketError::Expired { seconds_ago: 1 }), "{err:?}");
}
