//! The daemon's decisions.
//!
//! `sirjid` binds the handshake keys, accepts peer connections and serves the
//! CLI over a unix socket; all of that is I/O and lives with the embedding
//! program. What it decides — how a greeting is answered, what a peer or a
//! device may ask, what a CLI request does to the known net — is here, as
//! functions from the known net and the event to the next known net and the
//! answer.

use vstd::prelude::*;

use crate::config::{
    advertised, check_error_chain, clone_opt, clone_strings, first_called, first_match, first_known, first_pending_device,
    first_pending_peer, has_alias, id52_error, is_first, lemma_check_accepts_exactly_valid, network_fault,
    peer_sound, CheckError, Device, HandshakeKey, Network, Peer,
};
use crate::proto::{Ask, DeviceInfo, Hello, Invite, PeerInfo, RelayInfo, Say, Welcome};
use crate::id52::{decode, id52_error_text, Id52Error};
use crate::codec::base64url_text;
use crate::keys::{signature_of, SecretKey};
use crate::order::{lemma_precedes_total, lemma_precedes_transitive, precedes, text_precedes};
use crate::text::{chars_of, contains, debug_of, debug_str, find, owned, str_eq, strip_trailing, without_trailing};
use crate::ticket::{clock_reading, expiry, message_of, minted_by, Ticket, LIFETIME_SECS};

verus! {

/// The control socket's name inside a sirji home.
pub const SOCKET: &'static str = "sirji.sock";

/// `after` is `before` with peer `k`'s `reached_on` set to a string reading `on`.
pub open spec fn reached_on_noted(before: Network, after: Network, k: int, on: Seq<char>) -> bool {
    &&& after.dns == before.dns
    &&& after.handshake_keys == before.handshake_keys
    &&& after.devices == before.devices
    &&& after.peers@.len() == before.peers@.len()
    &&& 0 <= k < before.peers@.len()
    &&& forall|j: int| 0 <= j < before.peers@.len() && j != k ==> after.peers@[j] == before.peers@[j]
    &&& after.peers@[k].alias == before.peers@[k].alias
    &&& after.peers@[k].peer == before.peers@[k].peer
    &&& after.peers@[k].mine == before.peers@[k].mine
    &&& after.peers@[k].addresses == before.peers@[k].addresses
    &&& after.peers@[k].dns == before.peers@[k].dns
    &&& after.peers@[k].reached_on matches Some(s) && s@ == on
}

/// Note which of our addresses a peer arrived on: the first peer called
/// `alias` is now last reached on `on`, and nothing else changes. This is what
/// makes retiring an address decidable instead of a guess.
pub fn note_reached_on(net: &mut Network, alias: &str, on: &str)
    ensures
        match old(net).peer_index_spec(alias@) {
            Some(k) => reached_on_noted(*old(net), *final(net), k, on@),
            None => *final(net) == *old(net),
        },
{
    match net.peer_index(alias) {
        Some(k) => {
            let mut p = net.peers.remove(k);
            p.reached_on = Some(owned(on));
            net.peers.insert(k, p);
            proof {
                assert(net.peers@.len() == old(net).peers@.len());
                assert forall|j: int| 0 <= j < old(net).peers@.len() && j != k implies net.peers@[j] == old(
                    net,
                ).peers@[j] by {}
            }
        },
        None => {},
    }
}


/// `found` is the first of `devices` that holds `key`, or there is none.
pub open spec fn first_holding(devices: Seq<Device>, key: Seq<char>, found: Option<Device>) -> bool {
    first_match(devices, |d: Device| d.holds(key), found)
}

/// A connection that is one of our devices registering: a device hello from
/// a key that one of our devices holds. The result is the device's name and
/// the hints it sent; the connection then stays open, and while it is open
/// the device is live.
pub fn registering_device(net: &Network, caller: &str, hello: &Hello) -> (registration: Option<(String, Vec<String>)>)
    ensures
        match *hello {
            Hello::Device { hints } => match registration {
                Some((name, h)) => h@ == hints@ && exists|d: Device| #[trigger] first_holding(net.devices@, caller@, Some(d))
                    && d.name == name,
                None => first_holding(net.devices@, caller@, None),
            },
            _ => registration is None,
        },
{
    match hello {
        Hello::Device { hints } => match net.device_by_key(caller) {
            Some(d) => {
                assert(first_holding(net.devices@, caller@, Some(*d)));
                Some((d.name.clone(), clone_strings(hints)))
            },
            None => None,
        },
        _ => None,
    }
}

/// Why a greeting was refused.
#[derive(Debug, Clone)]
pub enum GreetError {
    /// A key we do not know said it was an existing relationship.
    NoRelationship { caller: String },
    /// A key we do not know said it was one of our devices.
    NotOurDevice { caller: String },
    /// The identity presented answers no outstanding invite.
    NoInvite,
    /// Accepting it would break an invariant of the known net.
    Unusable { error: CheckError },
}

/// What a refused greeting is told.
pub open spec fn greet_error_text(e: GreetError) -> Seq<char> {
    match e {
        GreetError::NoRelationship { caller } => "we have no relationship with "@ + caller@,
        GreetError::NotOurDevice { caller } => caller@ + " is not one of our devices"@,
        GreetError::NoInvite => "no invite outstanding for that identity"@,
        GreetError::Unusable { error } => check_error_chain(error),
    }
}

impl GreetError {
    /// What the refusal says.
    pub fn message(&self) -> (m: String)
        ensures
            m@ == greet_error_text(*self),
    {
        match self {
            GreetError::NoRelationship { caller } => {
                let mut m = owned("we have no relationship with ");
                m.append(caller.as_str());
                m
            },
            GreetError::NotOurDevice { caller } => {
                let mut m = owned(caller.as_str());
                m.append(" is not one of our devices");
                m
            },
            GreetError::NoInvite => owned("no invite outstanding for that identity"),
            GreetError::Unusable { error } => error.chain(),
        }
    }
}

/// The welcome a greeting gets: what `greet` gave, or a refusal that says
/// why.
pub fn welcome_of(greeted: Result<Welcome, GreetError>) -> (welcome: Welcome)
    ensures
        greeted matches Ok(w) ==> welcome == w,
        greeted matches Err(e) ==> (welcome matches Welcome::No { reason } && reason@ == greet_error_text(e)),
{
    match greeted {
        Ok(w) => w,
        Err(e) => Welcome::No { reason: e.message() },
    }
}

/// `after` is `before` with device `m` enrolled under the key `caller`: its
/// keys are exactly that key, its invite is gone, and nothing else changes.
pub open spec fn enrolled(before: Network, after: Network, m: int, caller: Seq<char>) -> bool {
    &&& after.dns == before.dns
    &&& after.handshake_keys == before.handshake_keys
    &&& after.peers == before.peers
    &&& after.devices@.len() == before.devices@.len()
    &&& 0 <= m < before.devices@.len()
    &&& forall|j: int| 0 <= j < before.devices@.len() && j != m ==> after.devices@[j] == before.devices@[j]
    &&& after.devices@[m].name == before.devices@[m].name
    &&& after.devices@[m].keys@.len() == 1
    &&& after.devices@[m].keys@[0]@ == caller
    &&& after.devices@[m].invite is None
}

/// `after` is `before` with peer `m` paired: its key is `caller`, its
/// addresses and domains are what it sent, it was reached on `on`, and
/// nothing else changes.
pub open spec fn paired(
    before: Network,
    after: Network,
    m: int,
    caller: Seq<char>,
    addresses: Vec<String>,
    dns: Vec<String>,
    on: Seq<char>,
) -> bool {
    &&& after.dns == before.dns
    &&& after.handshake_keys == before.handshake_keys
    &&& after.devices == before.devices
    &&& after.peers@.len() == before.peers@.len()
    &&& 0 <= m < before.peers@.len()
    &&& forall|j: int| 0 <= j < before.peers@.len() && j != m ==> after.peers@[j] == before.peers@[j]
    &&& after.peers@[m].alias == before.peers@[m].alias
    &&& after.peers@[m].mine == before.peers@[m].mine
    &&& after.peers@[m].peer matches Some(s) && s@ == caller
    &&& after.peers@[m].addresses == addresses
    &&& after.peers@[m].dns == dns
    &&& after.peers@[m].reached_on matches Some(s) && s@ == on
}

/// Some peer of `peers` is still waiting on the identity `mine`.
pub open spec fn awaits(peers: Seq<Peer>, mine: Seq<char>) -> bool {
    exists|j: int| 0 <= j < peers.len() && (#[trigger] peers[j]).pending() && peers[j].mine@ == mine
}

/// `result` welcomes the greeting as `alias`, with the current addresses and
/// the domains of `net`.
pub open spec fn welcomes(result: Result<Welcome, GreetError>, net: Network, alias: String) -> bool {
    result matches Ok(Welcome::Accepted { alias: a, addresses, dns }) && a == alias && addresses@ == advertised(
        net.handshake_keys@,
    ) && dns@ == net.dns@
}

/// Answer a greeting from the key `caller`, arriving on our handshake key
/// called `on`. Who it is was settled by the transport: look the key up, and
/// the answer decides everything.
///
/// - A known peer key is an existing relationship, whatever the hello says:
///   we note the address it came in on and welcome it by its alias.
/// - Otherwise a plain hello or a device hello from a stranger is refused.
/// - An invited hello presents the identity we minted and sent out of band.
///   A pending device with that invite enrols under the caller's key; else a
///   pending peer we minted that identity for pairs with the caller. The net
///   is then checked; a net that would break an invariant is refused (the
///   change stays in memory, as it does for the caller of `check`).
///
/// Every accepted greeting leaves a valid net valid (given `on` is one of our
/// handshake keys), and a pairing leaves no peer waiting on that identity.
pub fn greet(net: &mut Network, caller: &str, on: &str, hello: Hello) -> (result: Result<Welcome, GreetError>)
    ensures
        ({
            let before = *old(net);
            let after = *final(net);
            if exists|k: int| #[trigger] first_known(before.peers@, caller@, k) {
                let k = choose|k: int| #[trigger] first_known(before.peers@, caller@, k);
                let alias = before.peers@[k].alias;
                &&& reached_on_noted(before, after, before.peer_index_spec(alias@)->0, on@)
                &&& welcomes(result, before, alias)
            } else {
                match hello {
                    Hello::Peer => after == before && (result matches Err(GreetError::NoRelationship { caller: c })
                        && c@ == caller@),
                    Hello::Device { .. } => after == before && (result matches Err(GreetError::NotOurDevice { caller: c })
                        && c@ == caller@),
                    Hello::Invited { invited_to, addresses, dns } => {
                        if exists|i: int| #[trigger] first_pending_device(before.devices@, invited_to@, i) {
                            let i = choose|i: int| #[trigger] first_pending_device(before.devices@, invited_to@, i);
                            let name = before.devices@[i].name;
                            &&& enrolled(before, after, before.device_index_spec(name@)->0, caller@)
                            &&& match network_fault(after) {
                                None => welcomes(result, after, name),
                                Some(e) => result == Err::<Welcome, GreetError>(GreetError::Unusable { error: e }),
                            }
                        } else if exists|i: int| #[trigger] first_pending_peer(before.peers@, invited_to@, i) {
                            let i = choose|i: int| #[trigger] first_pending_peer(before.peers@, invited_to@, i);
                            let alias = before.peers@[i].alias;
                            &&& paired(before, after, before.peer_index_spec(alias@)->0, caller@, addresses, dns, on@)
                            &&& match network_fault(after) {
                                None => welcomes(result, after, alias),
                                Some(e) => result == Err::<Welcome, GreetError>(GreetError::Unusable { error: e }),
                            }
                            &&& (result is Ok ==> !awaits(after.peers@, invited_to@))
                        } else {
                            after == before && result == Err::<Welcome, GreetError>(GreetError::NoInvite)
                        }
                    },
                }
            }
        }),
        old(net).valid() && has_alias(old(net).handshake_keys@, on@) && result is Ok ==> final(net).valid(),
{
    let known = match net.peer_by_key(caller) {
        Some(p) => Some(p.alias.clone()),
        None => None,
    };
    let ghost before = *net;
    if let Some(alias) = known {
        proof {
            let k = choose|k: int| #[trigger] first_known(before.peers@, caller@, k);
            assert(first_known(before.peers@, caller@, k));
        }
        note_reached_on(net, alias.as_str(), on);
        let addresses = net.current_addresses();
        let dns = clone_strings(&net.dns);
        proof {
            let k = choose|k: int| #[trigger] first_known(before.peers@, caller@, k);
            let m = before.peer_index_spec(alias@);
            assert(before.peers@[k].alias@ == alias@);
            crate::config::lemma_first_called_exists(before.peers@, alias@, k);
            if before.valid() && has_alias(before.handshake_keys@, on@) {
                lemma_noting_keeps_valid(before, *net, m->0, on@);
            }
        }
        return Ok(Welcome::Accepted { alias, addresses, dns });
    }
    assert(!exists|k: int| #[trigger] first_known(before.peers@, caller@, k));
    match hello {
        Hello::Peer => Err(GreetError::NoRelationship { caller: owned(caller) }),
        Hello::Device { .. } => Err(GreetError::NotOurDevice { caller: owned(caller) }),
        Hello::Invited { invited_to, addresses, dns } => {
            let device = match net.pending_device_by_invite(invited_to.as_str()) {
                Some(d) => Some(d.name.clone()),
                None => None,
            };
            if let Some(name) = device {
                proof {
                    let i = choose|i: int| #[trigger] first_pending_device(before.devices@, invited_to@, i);
                    assert(first_pending_device(before.devices@, invited_to@, i));
                    assert(before.devices@[i].name@ == name@);
                    crate::config::lemma_first_named_exists(before.devices@, name@, i);
                }
                let m = net.device_index(name.as_str()).unwrap();
                return enrol(net, m, name, caller);
            }
            assert(!exists|i: int| #[trigger] first_pending_device(before.devices@, invited_to@, i));
            let peer = match net.pending_by_mine(invited_to.as_str()) {
                Some(p) => Some(p.alias.clone()),
                None => None,
            };
            match peer {
                None => {
                    assert(!exists|i: int| #[trigger] first_pending_peer(before.peers@, invited_to@, i));
                    Err(GreetError::NoInvite)
                },
                Some(alias) => {
                    let ghost i = choose|i: int| #[trigger] first_pending_peer(before.peers@, invited_to@, i);
                    proof {
                        assert(first_pending_peer(before.peers@, invited_to@, i));
                        assert(before.peers@[i].alias@ == alias@);
                        crate::config::lemma_first_called_exists(before.peers@, alias@, i);
                    }
                    let m = net.peer_index(alias.as_str()).unwrap();
                    pair(net, m, alias, caller, addresses, dns, on, Ghost(i), Ghost(invited_to@))
                },
            }
        },
    }
}

/// Enrol device `m` under the key `caller`, then check the net.
fn enrol(net: &mut Network, m: usize, name: String, caller: &str) -> (result: Result<Welcome, GreetError>)
    requires
        m < old(net).devices@.len(),
    ensures
        enrolled(*old(net), *final(net), m as int, caller@),
        match network_fault(*final(net)) {
            None => welcomes(result, *final(net), name),
            Some(e) => result == Err::<Welcome, GreetError>(GreetError::Unusable { error: e }),
        },
        result is Ok ==> final(net).valid(),
{
    let mut d = net.devices.remove(m);
    d.keys = vec![owned(caller)];
    d.invite = None;
    net.devices.insert(m, d);
    proof {
        assert forall|j: int| 0 <= j < old(net).devices@.len() && j != m implies net.devices@[j] == old(
            net,
        ).devices@[j] by {}
    }
    match net.check() {
        Err(e) => {
            return Err(GreetError::Unusable { error: e });
        },
        Ok(()) => {},
    }
    proof {
        lemma_check_accepts_exactly_valid(*net);
    }
    let addresses = net.current_addresses();
    let dns = clone_strings(&net.dns);
    Ok(Welcome::Accepted { alias: name, addresses, dns })
}

/// Pair peer `m` with the key `caller`, then check the net. Peer `i` is the
/// pending peer the identity `invited_to` was minted for, and shares `m`'s alias.
fn pair(
    net: &mut Network,
    m: usize,
    alias: String,
    caller: &str,
    addresses: Vec<String>,
    dns: Vec<String>,
    on: &str,
    Ghost(i): Ghost<int>,
    Ghost(invited_to): Ghost<Seq<char>>,
) -> (result: Result<Welcome, GreetError>)
    requires
        m < old(net).peers@.len(),
        0 <= i < old(net).peers@.len(),
        old(net).peers@[i].mine@ == invited_to,
        old(net).peers@[i].alias@ == old(net).peers@[m as int].alias@,
    ensures
        paired(*old(net), *final(net), m as int, caller@, addresses, dns, on@),
        match network_fault(*final(net)) {
            None => welcomes(result, *final(net), alias),
            Some(e) => result == Err::<Welcome, GreetError>(GreetError::Unusable { error: e }),
        },
        result is Ok ==> final(net).valid() && !awaits(final(net).peers@, invited_to),
{
    let ghost addresses_in = addresses;
    let ghost dns_in = dns;
    let mut p = net.peers.remove(m);
    p.peer = Some(owned(caller));
    p.addresses = addresses;
    p.dns = dns;
    p.reached_on = Some(owned(on));
    net.peers.insert(m, p);
    proof {
        assert forall|j: int| 0 <= j < old(net).peers@.len() && j != m implies net.peers@[j] == old(
            net,
        ).peers@[j] by {}
    }
    match net.check() {
        Err(e) => {
            return Err(GreetError::Unusable { error: e });
        },
        Ok(()) => {},
    }
    proof {
        lemma_check_accepts_exactly_valid(*net);
        let peers = net.peers@;
        if i != m {
            if i < m {
                assert(peers[i].alias@ != peers[m as int].alias@);
            } else {
                assert(peers[m as int].alias@ != peers[i].alias@);
            }
        }
        assert(peers[m as int].mine@ == invited_to);
        assert(!awaits(peers, invited_to)) by {
            if awaits(peers, invited_to) {
                let j = choose|j: int| 0 <= j < peers.len() && (#[trigger] peers[j]).pending() && peers[j].mine@ == invited_to;
                if j < m {
                    assert(peers[j].mine@ != peers[m as int].mine@);
                } else if j > m {
                    assert(peers[m as int].mine@ != peers[j].mine@);
                }
            }
        }
    }
    let addresses = net.current_addresses();
    let dns = clone_strings(&net.dns);
    Ok(Welcome::Accepted { alias, addresses, dns })
}

/// Noting that a peer came in on one of our own handshake keys keeps a valid
/// known net valid.
pub proof fn lemma_noting_keeps_valid(before: Network, after: Network, k: int, on: Seq<char>)
    requires
        before.valid(),
        has_alias(before.handshake_keys@, on),
        reached_on_noted(before, after, k, on),
    ensures
        after.valid(),
{
    let peers = after.peers@;
    assert forall|i: int| 0 <= i < peers.len() implies peer_sound(#[trigger] peers[i], after.handshake_keys@) by {
        assert(peer_sound(before.peers@[i], before.handshake_keys@));
    }
    assert forall|i: int, j: int| 0 <= i < j < peers.len() implies #[trigger] peers[i].alias@ != #[trigger] peers[j].alias@ by {
        assert(before.peers@[i].alias@ != before.peers@[j].alias@);
    }
    assert forall|i: int, j: int| 0 <= i < j < peers.len() implies #[trigger] peers[i].mine@ != #[trigger] peers[j].mine@ by {
        assert(before.peers@[i].mine@ != before.peers@[j].mine@);
    }
}

/// Who is on the other end of a connection we have already greeted.
#[derive(Debug, Clone)]
pub enum Asker {
    /// Another person's sirji, known to us by this alias.
    Peer(String),
    /// One of our own devices, by its key.
    Device(String),
}

/// What to do about an `Ask`.
#[derive(Debug, Clone)]
pub enum AnswerPlan {
    /// Locate our device `name` and mint a ticket admitting `caller`, naming
    /// the person asking when there is one.
    Locate { name: String, caller: String, alias: Option<String> },
    /// Dial the peer we know as `alias` — from the identity `mine`, at one of
    /// `addresses` — and ask them to resolve `name` for `caller`.
    Forward { name: String, caller: String, alias: String, mine: String, addresses: Vec<String> },
}

/// Why an `Ask` was refused before anything was looked up.
#[derive(Debug, Clone)]
pub enum AnswerError {
    /// A device asked us to locate a device, which only a peer may.
    PeersOnly,
    /// A peer asked to resolve a sibling, which only our devices may.
    SiblingsOnly,
    /// A peer asked us to resolve on its behalf, which only our devices may.
    ForwardingOnly,
    /// A device asked us to resolve at a peer we do not know.
    UnknownPeer { alias: String },
}

/// What a refused `Ask` is told.
pub open spec fn answer_error_text(e: AnswerError) -> Seq<char> {
    match e {
        AnswerError::PeersOnly => "only a peer may ask us to locate our devices"@,
        AnswerError::SiblingsOnly => "only our own devices may resolve a sibling"@,
        AnswerError::ForwardingOnly => "only our own devices may ask us to resolve for them"@,
        AnswerError::UnknownPeer { alias } => "we know nobody called "@ + debug_of(alias@),
    }
}

impl AnswerError {
    /// What the refusal says.
    pub fn message(&self) -> (m: String)
        ensures
            m@ == answer_error_text(*self),
    {
        match self {
            AnswerError::PeersOnly => owned("only a peer may ask us to locate our devices"),
            AnswerError::SiblingsOnly => owned("only our own devices may resolve a sibling"),
            AnswerError::ForwardingOnly => owned("only our own devices may ask us to resolve for them"),
            AnswerError::UnknownPeer { alias } => {
                let mut m = owned("we know nobody called ");
                m.append(debug_str(alias.as_str()).as_str());
                m
            },
        }
    }
}

/// Who is asking decides what they may ask for: a peer wants one of our
/// devices located (and is named in the ticket); one of our own devices wants
/// a sibling located (and nobody is named) or wants us to ask a peer of ours
/// on its behalf, with the ticket bound to the device's own key.
pub fn plan_answer(net: &Network, ask: Ask, asker: &Asker) -> (result: Result<AnswerPlan, AnswerError>)
    ensures
        match (ask, *asker) {
            (Ask::Resolve { name, caller }, Asker::Peer(alias)) => result matches Ok(
                AnswerPlan::Locate { name: n, caller: c, alias: Some(a) },
            ) && n == name && c == caller && a == alias,
            (Ask::Resolve { .. }, Asker::Device(_)) => result matches Err(AnswerError::PeersOnly),
            (Ask::ResolveLocal { name }, Asker::Device(key)) => result matches Ok(
                AnswerPlan::Locate { name: n, caller: c, alias: None },
            ) && n == name && c == key,
            (Ask::ResolveLocal { .. }, Asker::Peer(_)) => result matches Err(AnswerError::SiblingsOnly),
            (Ask::ResolveFor { name, alias }, Asker::Device(key)) => match net.peer_index_spec(alias@) {
                Some(k) => result matches Ok(AnswerPlan::Forward { name: n, caller: c, alias: a, mine, addresses })
                    && n == name && c == key && a == alias && mine == net.peers@[k].mine
                    && addresses@ == net.peers@[k].addresses@,
                None => result matches Err(AnswerError::UnknownPeer { alias: a }) && a == alias,
            },
            (Ask::ResolveFor { .. }, Asker::Peer(_)) => result matches Err(AnswerError::ForwardingOnly),
        },
{
    match ask {
        Ask::Resolve { name, caller } => match asker {
            Asker::Peer(alias) => Ok(AnswerPlan::Locate { name, caller, alias: Some(alias.clone()) }),
            Asker::Device(_) => Err(AnswerError::PeersOnly),
        },
        Ask::ResolveLocal { name } => match asker {
            Asker::Device(key) => Ok(AnswerPlan::Locate { name, caller: key.clone(), alias: None }),
            Asker::Peer(_) => Err(AnswerError::SiblingsOnly),
        },
        Ask::ResolveFor { name, alias } => match asker {
            Asker::Device(key) => match net.peer_index(alias.as_str()) {
                Some(k) => {
                    let mine = net.peers[k].mine.clone();
                    let addresses = clone_strings(&net.peers[k].addresses);
                    Ok(AnswerPlan::Forward { name, caller: key.clone(), alias, mine, addresses })
                },
                None => Err(AnswerError::UnknownPeer { alias }),
            },
            Asker::Peer(_) => Err(AnswerError::ForwardingOnly),
        },
    }
}

/// The hints registered for `name` among `entries`, by the first entry with
/// that name.
pub open spec fn roster_lookup(entries: Seq<(String, Vec<String>)>, name: Seq<char>) -> Option<Seq<String>>
    decreases entries.len(),
{
    if entries.len() == 0 {
        None
    } else if entries[0].0@ == name {
        Some(entries[0].1@)
    } else {
        roster_lookup(entries.drop_first(), name)
    }
}

/// The devices holding a connection to us right now, with where each said it
/// listens. Liveness is the connection: an entry lives and dies with it.
#[derive(Debug)]
pub struct Roster {
    entries: Vec<(String, Vec<String>)>,
}

proof fn lemma_lookup_split(entries: Seq<(String, Vec<String>)>, k: int, name: Seq<char>)
    requires
        0 <= k <= entries.len(),
        forall|j: int| 0 <= j < k ==> #[trigger] entries[j].0@ != name,
    ensures
        roster_lookup(entries, name) == roster_lookup(entries.skip(k), name),
    decreases k,
{
    if k == 0 {
        assert(entries.skip(0) =~= entries);
    } else {
        assert(entries[0].0@ != name);
        let rest = entries.drop_first();
        assert(rest.skip(k - 1) =~= entries.skip(k));
        assert forall|j: int| 0 <= j < k - 1 implies #[trigger] rest[j].0@ != name by {
            assert(rest[j] == entries[j + 1]);
        }
        lemma_lookup_split(rest, k - 1, name);
    }
}

/// No entry is called `name` past index `k`... and the first from `k` on decides.
proof fn lemma_lookup_update(entries: Seq<(String, Vec<String>)>, k: int, e: (String, Vec<String>), n: Seq<char>)
    requires
        0 <= k < entries.len(),
        e.0 == entries[k].0,
    ensures
        roster_lookup(entries.update(k, e), n) == if entries[k].0@ == n && (forall|j: int|
            0 <= j < k ==> #[trigger] entries[j].0@ != n) {
            Some(e.1@)
        } else {
            roster_lookup(entries, n)
        },
    decreases k,
{
    let up = entries.update(k, e);
    if k == 0 {
        assert(up.drop_first() =~= entries.drop_first());
        assert(up[0] == e);
    } else {
        let rest = entries.drop_first();
        assert(up.drop_first() =~= rest.update(k - 1, e));
        assert(up[0] == entries[0]);
        assert(rest[k - 1] == entries[k]);
        lemma_lookup_update(rest, k - 1, e, n);
        if entries[0].0@ != n {
            let all_before = forall|j: int| 0 <= j < k ==> #[trigger] entries[j].0@ != n;
            let rest_before = forall|j: int| 0 <= j < k - 1 ==> #[trigger] rest[j].0@ != n;
            assert(all_before <==> rest_before) by {
                if rest_before {
                    assert forall|j: int| 0 <= j < k implies #[trigger] entries[j].0@ != n by {
                        if j > 0 {
                            assert(entries[j] == rest[j - 1]);
                        }
                    }
                }
                if all_before {
                    assert forall|j: int| 0 <= j < k - 1 implies #[trigger] rest[j].0@ != n by {
                        assert(rest[j] == entries[j + 1]);
                    }
                }
            }
        } else {
            assert(!(forall|j: int| 0 <= j < k ==> #[trigger] entries[j].0@ != n)) by {
                assert(entries[0].0@ == n);
            }
        }
    }
}

proof fn lemma_lookup_push(entries: Seq<(String, Vec<String>)>, e: (String, Vec<String>), n: Seq<char>)
    ensures
        roster_lookup(entries.push(e), n) == match roster_lookup(entries, n) {
            Some(h) => Some(h),
            None => if e.0@ == n {
                Some(e.1@)
            } else {
                None
            },
        },
    decreases entries.len(),
{
    let pushed = entries.push(e);
    if entries.len() == 0 {
        assert(pushed[0] == e);
        assert(pushed.drop_first().len() == 0);
        assert(roster_lookup(pushed.drop_first(), n) is None);
        assert(roster_lookup(entries, n) is None);
    } else {
        assert(pushed[0] == entries[0]);
        assert(pushed.drop_first() =~= entries.drop_first().push(e));
        lemma_lookup_push(entries.drop_first(), e, n);
    }
}

proof fn lemma_lookup_remove(entries: Seq<(String, Vec<String>)>, k: int, n: Seq<char>)
    requires
        0 <= k < entries.len(),
        entries[k].0@ != n,
    ensures
        roster_lookup(entries.remove(k), n) == roster_lookup(entries, n),
    decreases k,
{
    let removed = entries.remove(k);
    if k == 0 {
        assert(removed =~= entries.drop_first());
    } else {
        assert(removed[0] == entries[0]);
        assert(removed.drop_first() =~= entries.drop_first().remove(k - 1));
        assert(entries.drop_first()[k - 1] == entries[k]);
        lemma_lookup_remove(entries.drop_first(), k - 1, n);
    }
}

impl Roster {
    /// The hints registered under `name`, if it is live.
    pub closed spec fn lookup(&self, name: Seq<char>) -> Option<Seq<String>> {
        roster_lookup(self.entries@, name)
    }

    /// Nobody connected.
    pub fn new() -> (roster: Roster)
        ensures
            forall|n: Seq<char>| roster.lookup(n) is None,
    {
        Roster { entries: Vec::new() }
    }

    /// The device `name` holds a connection now, listening at `hints`; a
    /// previous registration under the same name is replaced.
    pub fn register(&mut self, name: String, hints: Vec<String>)
        ensures
            final(self).lookup(name@) == Some(hints@),
            forall|n: Seq<char>| n != name@ ==> final(self).lookup(n) == old(self).lookup(n),
    {
        let ghost hv = hints@;
        let ghost nv = name@;
        let mut k: usize = 0;
        while k < self.entries.len()
            invariant
                hv == hints@,
                nv == name@,
                self.entries@ == old(self).entries@,
                k <= self.entries@.len(),
                forall|j: int| 0 <= j < k ==> #[trigger] self.entries@[j].0@ != name@,
            decreases self.entries@.len() - k,
        {
            if str_eq(self.entries[k].0.as_str(), name.as_str()) {
                let ghost before = self.entries@;
                let (old_name, _) = self.entries.remove(k);
                self.entries.insert(k, (old_name, hints));
                proof {
                    let e = self.entries@[k as int];
                    assert(e.0 == before[k as int].0);
                    assert(e.1@ == hv);
                    assert(self.entries@ =~= before.update(k as int, e));
                    lemma_lookup_update(before, k as int, e, nv);
                    assert(before[k as int].0@ == nv);
                    assert(forall|j: int| 0 <= j < k ==> #[trigger] before[j].0@ != nv);
                    assert(roster_lookup(self.entries@, nv) == Some(hv));
                    assert forall|n: Seq<char>| n != nv implies roster_lookup(self.entries@, n) == roster_lookup(before, n) by {
                        lemma_lookup_update(before, k as int, e, n);
                    }
                }
                return;
            }
            k = k + 1;
        }
        let ghost before = self.entries@;
        proof {
            lemma_lookup_split(before, before.len() as int, nv);
            assert(before.skip(before.len() as int).len() == 0);
        }
        self.entries.push((name, hints));
        proof {
            let e = self.entries@.last();
            assert(before.push(e) =~= self.entries@);
            lemma_lookup_push(before, e, nv);
            assert forall|n: Seq<char>| n != nv implies roster_lookup(self.entries@, n) == roster_lookup(before, n) by {
                lemma_lookup_push(before, e, n);
            }
        }
    }

    /// The device `name` dropped its connection: it is no longer live.
    pub fn depart(&mut self, name: &str)
        ensures
            final(self).lookup(name@) is None,
            forall|n: Seq<char>| n != name@ ==> final(self).lookup(n) == old(self).lookup(n),
    {
        let mut k: usize = 0;
        while k < self.entries.len()
            invariant
                k <= self.entries@.len(),
                forall|j: int| 0 <= j < k ==> #[trigger] self.entries@[j].0@ != name@,
                forall|n: Seq<char>| n != name@ ==> roster_lookup(self.entries@, n) == roster_lookup(old(self).entries@, n),
            decreases self.entries@.len() - k,
        {
            if str_eq(self.entries[k].0.as_str(), name) {
                let ghost before = self.entries@;
                self.entries.remove(k);
                proof {
                    assert forall|n: Seq<char>| n != name@ implies roster_lookup(self.entries@, n) == roster_lookup(
                        old(self).entries@,
                        n,
                    ) by {
                        lemma_lookup_remove(before, k as int, n);
                    }
                    assert forall|j: int| 0 <= j < k implies #[trigger] self.entries@[j].0@ != name@ by {
                        assert(self.entries@[j] == before[j]);
                    }
                }
                assert(forall|j: int| 0 <= j < k ==> #[trigger] self.entries@[j].0@ != name@);
            } else {
                assert(self.entries@[k as int].0@ != name@);
                k = k + 1;
                assert(forall|j: int| 0 <= j < k ==> #[trigger] self.entries@[j].0@ != name@);
            }
        }
        proof {
            lemma_lookup_split(self.entries@, k as int, name@);
            assert(self.entries@.skip(k as int).len() == 0);
        }
    }

    /// Where the device `name` said it listens, if it is live.
    pub fn hints_of(&self, name: &str) -> (hints: Option<Vec<String>>)
        ensures
            match hints {
                Some(h) => self.lookup(name@) == Some(h@),
                None => self.lookup(name@) is None,
            },
    {
        let mut k: usize = 0;
        while k < self.entries.len()
            invariant
                k <= self.entries@.len(),
                forall|j: int| 0 <= j < k ==> #[trigger] self.entries@[j].0@ != name@,
            decreases self.entries@.len() - k,
        {
            if str_eq(self.entries[k].0.as_str(), name) {
                proof {
                    lemma_lookup_split(self.entries@, k as int, name@);
                }
                return Some(clone_strings(&self.entries[k].1));
            }
            k = k + 1;
        }
        proof {
            lemma_lookup_split(self.entries@, k as int, name@);
        }
        None
    }

    /// Whether the device `name` holds a connection to us right now.
    pub fn is_live(&self, name: &str) -> (live: bool)
        ensures
            live == self.lookup(name@) is Some,
    {
        self.hints_of(name).is_some()
    }
}

/// Why one of our devices cannot be handed out.
#[derive(Debug, Clone)]
pub enum LocateError {
    /// No device of ours has that name.
    NoDevice { name: String },
    /// It was invited but has not enrolled.
    NotEnrolled { name: String },
    /// It is not holding a connection to us.
    NotConnected { name: String },
    /// We advertise no address to sign the ticket with.
    NoAddress,
    /// The key the ticket would be bound to is not an id52.
    BadCaller { caller: String, error: Id52Error },
}

/// What a refused lookup is told.
pub open spec fn locate_error_text(e: LocateError) -> Seq<char> {
    match e {
        LocateError::NoDevice { name } => "we have no device called "@ + debug_of(name@),
        LocateError::NotEnrolled { name } => debug_of(name@) + " has not enrolled yet"@,
        LocateError::NotConnected { name } => debug_of(name@) + " is not connected"@,
        LocateError::NoAddress => "we have no current address to sign with"@,
        LocateError::BadCaller { caller, error } => id52_error_text(error, caller@),
    }
}

impl LocateError {
    /// What the refusal says.
    pub fn message(&self) -> (m: String)
        ensures
            m@ == locate_error_text(*self),
    {
        match self {
            LocateError::NoDevice { name } => {
                let mut m = owned("we have no device called ");
                m.append(debug_str(name.as_str()).as_str());
                m
            },
            LocateError::NotEnrolled { name } => {
                let mut m = debug_str(name.as_str());
                m.append(" has not enrolled yet");
                m
            },
            LocateError::NotConnected { name } => {
                let mut m = debug_str(name.as_str());
                m.append(" is not connected");
                m
            },
            LocateError::NoAddress => owned("we have no current address to sign with"),
            LocateError::BadCaller { caller, error } => error.message(caller.as_str()),
        }
    }
}

/// Where a device is, and which of our addresses signs its ticket.
#[derive(Debug, Clone)]
pub struct LocatePlan {
    /// The device's first key.
    pub device: String,
    /// Where the device said it listens.
    pub hints: Vec<String>,
    /// The first address we advertise, as an id52.
    pub issuer: String,
}

/// Locate our device `name`: it must exist, have enrolled and be holding a
/// connection to us (handing back an address nobody listens on would turn one
/// clear failure into a dial timeout), and we must advertise an address to
/// sign with.
pub fn locate_plan(net: &Network, roster: &Roster, name: &str) -> (result: Result<LocatePlan, LocateError>)
    ensures
        match net.device_index_spec(name@) {
            None => result matches Err(LocateError::NoDevice { name: n }) && n@ == name@,
            Some(i) => if net.devices@[i].keys@.len() == 0 {
                result matches Err(LocateError::NotEnrolled { name: n }) && n@ == name@
            } else {
                match roster.lookup(name@) {
                    None => result matches Err(LocateError::NotConnected { name: n }) && n@ == name@,
                    Some(h) => if advertised(net.handshake_keys@).len() == 0 {
                        result matches Err(LocateError::NoAddress)
                    } else {
                        result matches Ok(plan) && plan.device == net.devices@[i].keys@[0] && plan.hints@ == h
                            && plan.issuer == advertised(net.handshake_keys@)[0]
                    },
                }
            },
        },
{
    let i = match net.device_index(name) {
        Some(i) => i,
        None => {
            return Err(LocateError::NoDevice { name: owned(name) });
        },
    };
    if net.devices[i].keys.len() == 0 {
        return Err(LocateError::NotEnrolled { name: owned(name) });
    }
    let device = net.devices[i].keys[0].clone();
    let hints = match roster.hints_of(name) {
        Some(h) => h,
        None => {
            return Err(LocateError::NotConnected { name: owned(name) });
        },
    };
    let current = net.current_addresses();
    if current.len() == 0 {
        return Err(LocateError::NoAddress);
    }
    let issuer = current[0].clone();
    Ok(LocatePlan { device, hints, issuer })
}

/// Answer a located device with a ticket admitting `caller` to `name`,
/// signed by `issuer` and good for the standard lifetime; `caller` must be an
/// id52, since that is the key the ticket is bound to.
pub fn locate_say(plan: LocatePlan, name: String, caller: String, alias: Option<String>, issuer: &SecretKey) -> (result: Result<Say, LocateError>)
    ensures
        match crate::config::id52_error(caller@) {
            Some(e) => result matches Err(LocateError::BadCaller { caller: c, error }) && c == caller && error == e,
            None => result matches Ok(Say::Resolved { device, ticket, hints }) && device == plan.device
                && hints == plan.hints && ticket.name == name && ticket.caller == caller && ticket.alias == alias
                && ticket.issuer@ == crate::id52::id52_text(crate::keys::public_of(issuer@))
                && ticket.valid_until >= LIFETIME_SECS
                && (exists|at: u64| #![trigger clock_reading(at)]
                    clock_reading(at) && ticket.valid_until == expiry(at, LIFETIME_SECS))
                && ticket.signature@ == base64url_text(signature_of(issuer@, message_of(ticket)))
                && minted_by(ticket, issuer@),
        },
{
    match decode(caller.as_str()) {
        Err(error) => {
            return Err(LocateError::BadCaller { caller, error });
        },
        Ok(_) => {},
    }
    let ticket = Ticket::mint(issuer, name, caller, alias, LIFETIME_SECS);
    Ok(Say::Resolved { device: plan.device, ticket, hints: plan.hints })
}

/// Why a CLI request was refused.
#[derive(Debug, Clone)]
pub enum RequestError {
    /// We already have a handshake key with that alias.
    AddressAliasTaken { alias: String },
    /// We already know someone by that alias.
    PeerAliasTaken { alias: String },
    /// We already have a device with that name.
    DeviceNameTaken { name: String },
    /// The change would break an invariant of the known net.
    Unusable { error: CheckError },
}

/// What a refused CLI request is told.
pub open spec fn request_error_text(e: RequestError) -> Seq<char> {
    match e {
        RequestError::AddressAliasTaken { alias } => "we already have a handshake key called "@ + debug_of(alias@),
        RequestError::PeerAliasTaken { alias } => "we already know someone called "@ + debug_of(alias@),
        RequestError::DeviceNameTaken { name } => "we already have a device called "@ + debug_of(name@),
        RequestError::Unusable { error } => check_error_chain(error),
    }
}

impl RequestError {
    /// What the refusal says.
    pub fn message(&self) -> (m: String)
        ensures
            m@ == request_error_text(*self),
    {
        match self {
            RequestError::AddressAliasTaken { alias } => {
                let mut m = owned("we already have a handshake key called ");
                m.append(debug_str(alias.as_str()).as_str());
                m
            },
            RequestError::PeerAliasTaken { alias } => {
                let mut m = owned("we already know someone called ");
                m.append(debug_str(alias.as_str()).as_str());
                m
            },
            RequestError::DeviceNameTaken { name } => {
                let mut m = owned("we already have a device called ");
                m.append(debug_str(name.as_str()).as_str());
                m
            },
            RequestError::Unusable { error } => error.chain(),
        }
    }
}

/// Whether some peer is called `alias`.
pub open spec fn has_peer(peers: Seq<Peer>, alias: Seq<char>) -> bool {
    exists|k: int| 0 <= k < peers.len() && #[trigger] peers[k].alias@ == alias
}

/// Whether some device is called `name`.
pub open spec fn has_device(devices: Seq<Device>, name: Seq<char>) -> bool {
    exists|k: int| 0 <= k < devices.len() && #[trigger] devices[k].name@ == name
}

/// How many of `peers` are established (not pending).
pub open spec fn established_count(peers: Seq<Peer>) -> nat
    decreases peers.len(),
{
    if peers.len() == 0 {
        0
    } else {
        established_count(peers.drop_last()) + if peers.last().pending() { 0nat } else { 1nat }
    }
}

/// How many of `peers` are pending.
pub open spec fn pending_count(peers: Seq<Peer>) -> nat
    decreases peers.len(),
{
    if peers.len() == 0 {
        0
    } else {
        pending_count(peers.drop_last()) + if peers.last().pending() { 1nat } else { 0nat }
    }
}

proof fn lemma_counts_bounded(peers: Seq<Peer>)
    ensures
        established_count(peers) + pending_count(peers) == peers.len(),
    decreases peers.len(),
{
    if peers.len() > 0 {
        lemma_counts_bounded(peers.drop_last());
    }
}

/// `r` is the verdict of checking the net: `Ok` exactly when `check` finds
/// nothing wrong, else its fault.
pub open spec fn checked<T>(r: Result<T, RequestError>, net: Network) -> bool {
    match network_fault(net) {
        None => r is Ok,
        Some(e) => r matches Err(RequestError::Unusable { error }) && error == e,
    }
}

/// A new address to start listening on: bind an endpoint with the secret of
/// `key` and accept peers on it under `alias`.
#[derive(Debug, Clone)]
pub struct Listen {
    pub alias: String,
    pub key: String,
}

impl Network {
    /// A fresh known net: one handshake key, called `default`, and nothing else.
    pub fn initial(key: String) -> (net: Network)
        ensures
            net.handshake_keys@.len() == 1,
            net.handshake_keys@[0].alias@ == "default"@,
            net.handshake_keys@[0].key == key,
            !net.handshake_keys@[0].retired,
            net.dns@.len() == 0,
            net.peers@.len() == 0,
            net.devices@.len() == 0,
    {
        let mut handshake_keys: Vec<HandshakeKey> = Vec::new();
        handshake_keys.push(HandshakeKey { alias: owned("default"), key, retired: false });
        Network { dns: Vec::new(), handshake_keys, peers: Vec::new(), devices: Vec::new() }
    }

    /// Add a handshake key called `alias`, unless one already has that alias,
    /// and say to start listening on it.
    pub fn new_address(&mut self, alias: String, key: String) -> (result: Result<Listen, RequestError>)
        ensures
            has_alias(old(self).handshake_keys@, alias@) ==> *final(self) == *old(self) && (result matches Err(
                RequestError::AddressAliasTaken { alias: a },
            ) && a == alias),
            !has_alias(old(self).handshake_keys@, alias@) ==> (result matches Ok(listen) && listen.alias == alias
                && listen.key == key) && final(self).dns == old(self).dns
                && final(self).peers == old(self).peers && final(self).devices == old(self).devices
                && final(self).handshake_keys@ == old(self).handshake_keys@.push(
                HandshakeKey { alias, key, retired: false },
            ),
            old(self).valid() && id52_error(key@) is None && result is Ok ==> final(self).valid(),
    {
        if self.handshake_key_by_alias(alias.as_str()).is_some() {
            return Err(RequestError::AddressAliasTaken { alias });
        }
        let listen = Listen { alias: alias.clone(), key: key.clone() };
        self.handshake_keys.push(HandshakeKey { alias, key, retired: false });
        proof {
            let before = *old(self);
            let after = *self;
            if before.valid() && id52_error(key@) is None {
                assert forall|i: int| 0 <= i < after.peers@.len() implies peer_sound(
                    #[trigger] after.peers@[i],
                    after.handshake_keys@,
                ) by {
                    let p = after.peers@[i];
                    assert(peer_sound(p, before.handshake_keys@));
                    if p.reached_on is Some {
                        let on = p.reached_on->0@;
                        let k = choose|k: int| 0 <= k < before.handshake_keys@.len() && #[trigger] before.handshake_keys@[k].alias@ == on;
                        assert(after.handshake_keys@[k] == before.handshake_keys@[k]);
                    }
                }
                assert forall|i: int| 0 <= i < after.handshake_keys@.len() implies id52_error(
                    #[trigger] after.handshake_keys@[i].key@,
                ) is None by {
                    if i < before.handshake_keys@.len() {
                        assert(after.handshake_keys@[i] == before.handshake_keys@[i]);
                    }
                }
            }
        }
        Ok(listen)
    }

    /// Record a pending peer called `alias`, for whom we minted `mine`, and
    /// hand back the invite: our current addresses, our domains, the identity,
    /// and where we can be reached right now.
    pub fn invite_peer(&mut self, alias: String, mine: String, hints: Vec<String>) -> (result: Result<Invite, RequestError>)
        ensures
            has_peer(old(self).peers@, alias@) ==> *final(self) == *old(self) && (result matches Err(
                RequestError::PeerAliasTaken { alias: a },
            ) && a == alias),
            !has_peer(old(self).peers@, alias@) ==> {
                &&& final(self).dns == old(self).dns
                &&& final(self).handshake_keys == old(self).handshake_keys
                &&& final(self).devices == old(self).devices
                &&& final(self).peers@.len() == old(self).peers@.len() + 1
                &&& final(self).peers@.drop_last() == old(self).peers@
                &&& final(self).peers@.last().alias == alias
                &&& final(self).peers@.last().peer is None
                &&& final(self).peers@.last().mine == mine
                &&& final(self).peers@.last().addresses@.len() == 0
                &&& final(self).peers@.last().dns@.len() == 0
                &&& final(self).peers@.last().reached_on is None
                &&& checked(result, *final(self))
                &&& result matches Ok(invite) ==> invite.addresses@ == advertised(final(self).handshake_keys@)
                    && invite.dns@ == final(self).dns@ && invite.identity == mine && invite.hints == hints
            },
            result is Ok ==> final(self).valid(),
    {
        if self.peer_by_alias(alias.as_str()).is_some() {
            return Err(RequestError::PeerAliasTaken { alias });
        }
        let identity = mine.clone();
        self.peers.push(Peer { alias, peer: None, mine, addresses: Vec::new(), dns: Vec::new(), reached_on: None });
        assert(self.peers@.drop_last() =~= old(self).peers@);
        match self.check() {
            Err(error) => {
                return Err(RequestError::Unusable { error });
            },
            Ok(()) => {},
        }
        proof {
            lemma_check_accepts_exactly_valid(*self);
        }
        let addresses = self.current_addresses();
        let dns = clone_strings(&self.dns);
        Ok(Invite { addresses, dns, identity, hints })
    }

    /// Record a device called `name`, invited with the enrolment identity
    /// `invite`, and hand back its invite.
    pub fn invite_device(&mut self, name: String, invite: String, hints: Vec<String>) -> (result: Result<Invite, RequestError>)
        ensures
            has_device(old(self).devices@, name@) ==> *final(self) == *old(self) && (result matches Err(
                RequestError::DeviceNameTaken { name: n },
            ) && n == name),
            !has_device(old(self).devices@, name@) ==> {
                &&& final(self).dns == old(self).dns
                &&& final(self).handshake_keys == old(self).handshake_keys
                &&& final(self).peers == old(self).peers
                &&& final(self).devices@.len() == old(self).devices@.len() + 1
                &&& final(self).devices@.drop_last() == old(self).devices@
                &&& final(self).devices@.last().name == name
                &&& final(self).devices@.last().keys@.len() == 0
                &&& final(self).devices@.last().invite == Some(invite)
                &&& checked(result, *final(self))
                &&& result matches Ok(inv) ==> inv.addresses@ == advertised(final(self).handshake_keys@)
                    && inv.dns@ == final(self).dns@ && inv.identity == invite && inv.hints == hints
            },
            result is Ok ==> final(self).valid(),
    {
        if self.device_by_name(name.as_str()).is_some() {
            return Err(RequestError::DeviceNameTaken { name });
        }
        let identity = invite.clone();
        self.devices.push(Device { name, keys: Vec::new(), invite: Some(invite) });
        assert(self.devices@.drop_last() =~= old(self).devices@);
        match self.check() {
            Err(error) => {
                return Err(RequestError::Unusable { error });
            },
            Ok(()) => {},
        }
        proof {
            lemma_check_accepts_exactly_valid(*self);
        }
        let addresses = self.current_addresses();
        let dns = clone_strings(&self.dns);
        Ok(Invite { addresses, dns, identity, hints })
    }

    /// Record the relationship an accepted invite established: they are
    /// `identity`, we are `mine` to them, and they gave us `addresses` and
    /// `dns`. The net is then checked.
    pub fn accept_peer(
        &mut self,
        alias: String,
        identity: String,
        mine: String,
        addresses: Vec<String>,
        dns: Vec<String>,
    ) -> (result: Result<(), RequestError>)
        ensures
            final(self).dns == old(self).dns,
            final(self).handshake_keys == old(self).handshake_keys,
            final(self).devices == old(self).devices,
            final(self).peers@ == old(self).peers@.push(
                Peer { alias, peer: Some(identity), mine, addresses, dns, reached_on: None },
            ),
            checked(result, *final(self)),
            result is Ok ==> final(self).valid(),
    {
        self.peers.push(Peer { alias, peer: Some(identity), mine, addresses, dns, reached_on: None });
        match self.check() {
            Err(error) => {
                return Err(RequestError::Unusable { error });
            },
            Ok(()) => {},
        }
        proof {
            lemma_check_accepts_exactly_valid(*self);
        }
        Ok(())
    }

    /// How many relationships are established, and how many invites are
    /// outstanding.
    pub fn peer_counts(&self) -> (counts: (usize, usize))
        ensures
            counts.0 == established_count(self.peers@),
            counts.1 == pending_count(self.peers@),
    {
        let mut established: usize = 0;
        let mut pending: usize = 0;
        let mut i: usize = 0;
        while i < self.peers.len()
            invariant
                i <= self.peers@.len(),
                established == established_count(self.peers@.take(i as int)),
                pending == pending_count(self.peers@.take(i as int)),
            decreases self.peers@.len() - i,
        {
            proof {
                assert(self.peers@.take(i + 1).drop_last() =~= self.peers@.take(i as int));
                lemma_counts_bounded(self.peers@.take(i as int));
            }
            if self.peers[i].is_pending() {
                pending = pending + 1;
            } else {
                established = established + 1;
            }
            i = i + 1;
        }
        assert(self.peers@.take(i as int) =~= self.peers@);
        (established, pending)
    }

    /// Every relationship, pending or established, as the CLI shows it.
    pub fn peer_infos(&self) -> (infos: Vec<PeerInfo>)
        ensures
            infos@.len() == self.peers@.len(),
            forall|i: int| 0 <= i < infos@.len() ==> {
                let p = #[trigger] self.peers@[i];
                &&& infos@[i].alias == p.alias
                &&& infos@[i].peer == p.peer
                &&& infos@[i].mine == p.mine
                &&& infos@[i].addresses@ == p.addresses@
                &&& infos@[i].reached_on == p.reached_on
            },
    {
        let mut infos: Vec<PeerInfo> = Vec::new();
        let mut i: usize = 0;
        while i < self.peers.len()
            invariant
                i <= self.peers@.len(),
                infos@.len() == i,
                forall|j: int| 0 <= j < i ==> {
                    let p = #[trigger] self.peers@[j];
                    &&& infos@[j].alias == p.alias
                    &&& infos@[j].peer == p.peer
                    &&& infos@[j].mine == p.mine
                    &&& infos@[j].addresses@ == p.addresses@
                    &&& infos@[j].reached_on == p.reached_on
                },
            decreases self.peers@.len() - i,
        {
            let p = &self.peers[i];
            infos.push(
                PeerInfo {
                    alias: p.alias.clone(),
                    peer: clone_opt(&p.peer),
                    mine: p.mine.clone(),
                    addresses: clone_strings(&p.addresses),
                    reached_on: clone_opt(&p.reached_on),
                },
            );
            i = i + 1;
        }
        infos
    }

    /// Our own fleet, and which of them are connected right now.
    pub fn device_infos(&self, roster: &Roster) -> (infos: Vec<DeviceInfo>)
        ensures
            infos@.len() == self.devices@.len(),
            forall|i: int| 0 <= i < infos@.len() ==> {
                let d = #[trigger] self.devices@[i];
                &&& infos@[i].name == d.name
                &&& infos@[i].keys@ == d.keys@
                &&& infos@[i].pending == d.pending()
                &&& infos@[i].live == roster.lookup(d.name@) is Some
            },
    {
        let mut infos: Vec<DeviceInfo> = Vec::new();
        let mut i: usize = 0;
        while i < self.devices.len()
            invariant
                i <= self.devices@.len(),
                infos@.len() == i,
                forall|j: int| 0 <= j < i ==> {
                    let d = #[trigger] self.devices@[j];
                    &&& infos@[j].name == d.name
                    &&& infos@[j].keys@ == d.keys@
                    &&& infos@[j].pending == d.pending()
                    &&& infos@[j].live == roster.lookup(d.name@) is Some
                },
            decreases self.devices@.len() - i,
        {
            let d = &self.devices[i];
            infos.push(
                DeviceInfo {
                    name: d.name.clone(),
                    keys: clone_strings(&d.keys),
                    pending: d.is_pending(),
                    live: roster.is_live(d.name.as_str()),
                },
            );
            i = i + 1;
        }
        infos
    }
}

/// `ts` are in strictly increasing order: sorted, and each once.
pub open spec fn strictly_increasing(ts: Seq<Seq<char>>) -> bool {
    forall|a: int, b: int| 0 <= a < b < ts.len() ==> precedes(#[trigger] ts[a], #[trigger] ts[b])
}

/// The texts of some strings, as a set.
pub open spec fn text_set(v: Seq<String>) -> Set<Seq<char>> {
    Set::new(|t: Seq<char>| exists|k: int| 0 <= k < v.len() && #[trigger] v[k]@ == t)
}

/// The texts of `items`, each once, in order: where we are reachable, across
/// every address we listen on.
pub fn sorted_unique(items: &Vec<String>) -> (all: Vec<String>)
    ensures
        strictly_increasing(all@.map_values(|s: String| s@)),
        text_set(all@) == text_set(items@),
{
    let mut all: Vec<String> = Vec::new();
    let mut texts: Vec<Vec<char>> = Vec::new();
    let mut j: usize = 0;
    assert(text_set(all@) =~= text_set(items@.take(0)));
    while j < items.len()
        invariant
            j <= items@.len(),
            all@.len() == texts@.len(),
            forall|k: int| 0 <= k < all@.len() ==> #[trigger] texts@[k]@ == all@[k]@,
            strictly_increasing(all@.map_values(|s: String| s@)),
            text_set(all@) == text_set(items@.take(j as int)),
        decreases items@.len() - j,
    {
        let text = chars_of(items[j].as_str());
        let mut k: usize = 0;
        while k < texts.len() && text_precedes(&texts[k], &text)
            invariant
                k <= texts@.len(),
                all@.len() == texts@.len(),
                forall|m: int| 0 <= m < all@.len() ==> #[trigger] texts@[m]@ == all@[m]@,
                forall|m: int| 0 <= m < k ==> precedes(#[trigger] all@[m]@, text@),
            decreases texts@.len() - k,
        {
            k = k + 1;
        }
        let present = k < texts.len() && same_text(&texts[k], &text);
        let ghost before = all@;
        proof {
            assert(items@.take(j + 1) =~= items@.take(j as int).push(items@[j as int]));
        }
        if !present {
            proof {
                let ts = before.map_values(|s: String| s@);
                assert forall|m: int| 0 <= m < k implies precedes(#[trigger] ts[m], text@) by {
                    assert(ts[m] == before[m]@);
                }
                if k < texts@.len() {
                    assert(ts[k as int] == texts@[k as int]@);
                }
                lemma_insert_strict(ts, k as int, text@);
                before.insert_ensures(k as int, items@[j as int]);
                assert(before.insert(k as int, items@[j as int]).map_values(|s: String| s@) =~= ts.insert(
                    k as int,
                    text@,
                ));
            }
            all.insert(k, items[j].clone());
            texts.insert(k, text);
            proof {
                assert forall|m: int| 0 <= m < all@.len() implies #[trigger] texts@[m]@ == all@[m]@ by {
                    if m < k {
                        assert(all@[m] == before[m]);
                    } else if m > k {
                        assert(all@[m] == before[m - 1]);
                    }
                }
                assert forall|t: Seq<char>| text_set(all@).contains(t) <==> text_set(items@.take(j + 1)).contains(t) by {
                    let prefix = items@.take(j as int);
                    let next = items@.take(j + 1);
                    if text_set(all@).contains(t) {
                        let m = choose|m: int| 0 <= m < all@.len() && #[trigger] all@[m]@ == t;
                        if m < k {
                            assert(all@[m] == before[m]);
                            assert(text_set(before).contains(t));
                        } else if m > k {
                            assert(all@[m] == before[m - 1]);
                            assert(text_set(before).contains(t));
                        } else {
                            assert(next[j as int]@ == t);
                        }
                        if text_set(before).contains(t) {
                            assert(text_set(prefix).contains(t));
                            let q = choose|q: int| 0 <= q < prefix.len() && #[trigger] prefix[q]@ == t;
                            assert(next[q]@ == t);
                        }
                    }
                    if text_set(next).contains(t) {
                        let q = choose|q: int| 0 <= q < next.len() && #[trigger] next[q]@ == t;
                        if q < j {
                            assert(prefix[q]@ == t);
                            assert(text_set(prefix).contains(t));
                            assert(text_set(before).contains(t));
                            let m = choose|m: int| 0 <= m < before.len() && #[trigger] before[m]@ == t;
                            if m < k {
                                assert(all@[m] == before[m]);
                            } else {
                                assert(all@[m + 1] == before[m]);
                            }
                        } else {
                            assert(all@[k as int]@ == t);
                        }
                    }
                }
                assert(text_set(all@) =~= text_set(items@.take(j + 1)));
            }
        } else {
            proof {
                assert(all@[k as int]@ == items@[j as int]@);
                assert forall|t: Seq<char>| text_set(all@).contains(t) <==> text_set(items@.take(j + 1)).contains(t) by {
                    let prefix = items@.take(j as int);
                    let next = items@.take(j + 1);
                    if text_set(all@).contains(t) {
                        assert(text_set(prefix).contains(t));
                        let q = choose|q: int| 0 <= q < prefix.len() && #[trigger] prefix[q]@ == t;
                        assert(next[q]@ == t);
                    }
                    if text_set(next).contains(t) {
                        let q = choose|q: int| 0 <= q < next.len() && #[trigger] next[q]@ == t;
                        if q < j {
                            assert(prefix[q]@ == t);
                            assert(text_set(prefix).contains(t));
                        } else {
                            assert(all@[k as int]@ == t);
                        }
                    }
                }
                assert(text_set(all@) =~= text_set(items@.take(j + 1)));
            }
        }
        j = j + 1;
    }
    assert(items@.take(items@.len() as int) =~= items@);
    all
}

/// Whether two character sequences are equal.
fn same_text(a: &Vec<char>, b: &Vec<char>) -> (same: bool)
    ensures
        same == (a@ == b@),
{
    if a.len() != b.len() {
        return false;
    }
    let mut i: usize = 0;
    while i < a.len()
        invariant
            i <= a@.len(),
            a@.len() == b@.len(),
            forall|k: int| 0 <= k < i ==> a@[k] == b@[k],
        decreases a@.len() - i,
    {
        if a[i] != b[i] {
            return false;
        }
        i = i + 1;
    }
    assert(a@ =~= b@);
    true
}

/// Putting `t` where the texts before it precede it and the one after does
/// not equal it keeps the texts strictly increasing.
proof fn lemma_insert_strict(ts: Seq<Seq<char>>, k: int, t: Seq<char>)
    requires
        strictly_increasing(ts),
        0 <= k <= ts.len(),
        forall|m: int| 0 <= m < k ==> precedes(#[trigger] ts[m], t),
        k < ts.len() ==> !precedes(ts[k], t) && ts[k] != t,
    ensures
        strictly_increasing(ts.insert(k, t)),
{
    ts.insert_ensures(k, t);
    let s = ts.insert(k, t);
    if k < ts.len() {
        lemma_precedes_total(ts[k], t);
    }
    assert forall|a: int, b: int| 0 <= a < b < s.len() implies precedes(#[trigger] s[a], #[trigger] s[b]) by {
        if b < k {
        } else if b == k {
            assert(s[a] == ts[a]);
        } else if a < k {
            assert(s[b] == ts[b - 1]);
            assert(s[a] == ts[a]);
            if a < b - 1 {
            } else {
            }
            lemma_precedes_transitive(ts[a], t, ts[k]);
            if k < b - 1 {
                lemma_precedes_transitive(ts[a], ts[k], ts[b - 1]);
            }
        } else if a == k {
            assert(s[b] == ts[b - 1]);
            if k < b - 1 {
                lemma_precedes_transitive(t, ts[k], ts[b - 1]);
            }
        } else {
            assert(s[b] == ts[b - 1]);
            assert(s[a] == ts[a - 1]);
        }
    }
}

/// Two relay URLs name the same relay when they agree up to trailing slashes.
pub open spec fn same_relay(a: Seq<char>, b: Seq<char>) -> bool {
    without_trailing(a, '/') == without_trailing(b, '/')
}

/// Some relay among `relays` is the one at `url`.
pub open spec fn relay_listed(relays: Seq<RelayInfo>, url: Seq<char>) -> bool {
    exists|i: int| 0 <= i < relays.len() && same_relay(#[trigger] relays[i].url@, url)
}

/// The configured relays iroh reported nothing about, in order, each once.
pub open spec fn unreported(reported: Seq<RelayInfo>, configured: Seq<String>) -> Seq<String>
    decreases configured.len(),
{
    if configured.len() == 0 {
        Seq::empty()
    } else {
        let before = unreported(reported, configured.drop_last());
        let c = configured.last();
        if relay_listed(reported, c@) || exists|j: int| 0 <= j < before.len() && same_relay(#[trigger] before[j]@, c@) {
            before
        } else {
            before.push(c)
        }
    }
}

fn relay_url_listed(relays: &Vec<RelayInfo>, url: &[char]) -> (listed: bool)
    ensures
        listed == relay_listed(relays@, url@),
{
    let want = strip_trailing(url, '/');
    let mut i: usize = 0;
    while i < relays.len()
        invariant
            i <= relays@.len(),
            want@ == without_trailing(url@, '/'),
            forall|j: int| 0 <= j < i ==> !same_relay(#[trigger] relays@[j].url@, url@),
        decreases relays@.len() - i,
    {
        let have_chars = chars_of(relays[i].url.as_str());
        let have = strip_trailing(have_chars.as_slice(), '/');
        if have.len() == want.len() {
            let mut k: usize = 0;
            let mut same = true;
            while k < have.len()
                invariant
                    k <= have@.len(),
                    have@.len() == want@.len(),
                    same == forall|m: int| 0 <= m < k ==> have@[m] == want@[m],
                decreases have@.len() - k,
            {
                if have[k] != want[k] {
                    same = false;
                }
                k = k + 1;
            }
            if same {
                assert(have@ =~= want@);
                assert(same_relay(relays@[i as int].url@, url@));
                return true;
            }
            assert(have@ != want@) by {
                let m = choose|m: int| 0 <= m < k && have@[m] != want@[m];
            }
        }
        i = i + 1;
    }
    false
}

/// Home relay state for one address: what iroh reported, followed by every
/// configured relay it reported nothing about, marked as not connected.
///
/// A configured relay that has not connected reports nothing through iroh, so
/// showing only what iroh reports would make a mistyped URL and a working
/// default look identical.
pub fn merge_relays(reported: Vec<RelayInfo>, configured: &Vec<String>) -> (relays: Vec<RelayInfo>)
    ensures
        relays@.len() == reported@.len() + unreported(reported@, configured@).len(),
        relays@.take(reported@.len() as int) == reported@,
        forall|j: int| 0 <= j < unreported(reported@, configured@).len() ==> {
            let r = #[trigger] relays@[reported@.len() + j];
            &&& r.url == unreported(reported@, configured@)[j]
            &&& !r.connected
            &&& r.error matches Some(e) && e@ == "configured, no connection yet"@
        },
{
    let ghost rep = reported@;
    let mut relays = reported;
    let mut i: usize = 0;
    while i < configured.len()
        invariant
            i <= configured@.len(),
            relays@.len() == rep.len() + unreported(rep, configured@.take(i as int)).len(),
            relays@.take(rep.len() as int) == rep,
            forall|j: int| 0 <= j < unreported(rep, configured@.take(i as int)).len() ==> {
                let r = #[trigger] relays@[rep.len() + j];
                &&& r.url == unreported(rep, configured@.take(i as int))[j]
                &&& !r.connected
                &&& r.error matches Some(e) && e@ == "configured, no connection yet"@
            },
        decreases configured@.len() - i,
    {
        let ghost before = unreported(rep, configured@.take(i as int));
        let ghost prev = relays@;
        proof {
            assert(configured@.take(i + 1).drop_last() =~= configured@.take(i as int));
            assert(configured@.take(i + 1).last() == configured@[i as int]);
        }
        let url = chars_of(configured[i].as_str());
        let known = relay_url_listed(&relays, url.as_slice());
        proof {
            let c = configured@[i as int];
            // Listed in what we hold now means listed in the report or among those already added.
            assert(relay_listed(prev, c@) <==> (relay_listed(rep, c@) || exists|j: int|
                0 <= j < before.len() && same_relay(#[trigger] before[j]@, c@))) by {
                if relay_listed(prev, c@) {
                    let x = choose|x: int| 0 <= x < prev.len() && same_relay(#[trigger] prev[x].url@, c@);
                    if x < rep.len() {
                        assert(prev.take(rep.len() as int)[x] == prev[x]);
                        assert(same_relay(rep[x].url@, c@));
                    } else {
                        let j = x - rep.len();
                        assert(prev[rep.len() + j].url == before[j]);
                        assert(same_relay(before[j]@, c@));
                    }
                }
                if relay_listed(rep, c@) {
                    let x = choose|x: int| 0 <= x < rep.len() && same_relay(#[trigger] rep[x].url@, c@);
                    assert(prev.take(rep.len() as int)[x] == prev[x]);
                    assert(same_relay(prev[x].url@, c@));
                }
                if exists|j: int| 0 <= j < before.len() && same_relay(#[trigger] before[j]@, c@) {
                    let j = choose|j: int| 0 <= j < before.len() && same_relay(#[trigger] before[j]@, c@);
                    assert(prev[rep.len() + j].url == before[j]);
                    assert(same_relay(prev[rep.len() + j].url@, c@));
                }
            }
        }
        if !known {
            relays.push(
                RelayInfo {
                    url: configured[i].clone(),
                    connected: false,
                    error: Some(owned("configured, no connection yet")),
                },
            );
            proof {
                assert(relays@.take(rep.len() as int) =~= prev.take(rep.len() as int));
            }
        }
        i = i + 1;
    }
    proof {
        assert(configured@.take(i as int) =~= configured@);
    }
    relays
}

/// Did this connection simply end, rather than break? `text` is the whole
/// error chain, as it would be printed.
pub fn is_clean_close(text: &str) -> (clean: bool)
    ensures
        clean == (contains(text@, "closed by peer"@) || contains(text@, "connection closed"@)),
{
    let t = chars_of(text);
    let a = chars_of("closed by peer");
    let b = chars_of("connection closed");
    find(t.as_slice(), a.as_slice()) || find(t.as_slice(), b.as_slice())
}

} // verus!
