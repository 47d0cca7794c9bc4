//! `network.toml` — the known net.
//!
//! Public halves only. Nothing here is secret, which is what makes the file safe
//! to keep in version control. Reading and writing the file is the caller's
//! business; this module is what the file means.

use vstd::prelude::*;

use crate::id52::{decode, decoding, id52_error_text, Id52Error};
use crate::text::{debug_of, debug_str, join, owned, str_eq};

verus! {

/// The file's name inside a sirji home.
pub const FILE: &'static str = "network.toml";

/// The whole file.
#[derive(Debug, Clone)]
pub struct Network {
    /// Our domains.
    pub dns: Vec<String>,
    /// What we listen on. All functionally identical.
    pub handshake_keys: Vec<HandshakeKey>,
    /// One entry per relationship.
    pub peers: Vec<Peer>,
    /// Our own fleet: a name, and the keys allowed to answer to it.
    pub devices: Vec<Device>,
}

/// An address: a key we listen on and hand out.
#[derive(Debug, Clone)]
pub struct HandshakeKey {
    /// So it can be talked about and rotated.
    pub alias: String,
    /// The id52.
    pub key: String,
    /// No longer advertised, but still bound until every peer has moved off it.
    pub retired: bool,
}

/// A relationship: a pair of keys, plus where to reach them.
#[derive(Debug, Clone)]
pub struct Peer {
    /// What we call them.
    pub alias: String,
    /// Their peer key; absent while an invite is outstanding.
    pub peer: Option<String>,
    /// Our peer key for them — what we dial from. Shown to exactly one peer.
    pub mine: String,
    /// Their handshake keys: everywhere we may dial them.
    pub addresses: Vec<String>,
    /// Their domains, if any.
    pub dns: Vec<String>,
    /// Which of *our* handshake keys they last arrived on, by alias.
    pub reached_on: Option<String>,
}

/// One of our own devices: a name, and the keys authorised to answer to it.
#[derive(Debug, Clone)]
pub struct Device {
    /// What it answers to.
    pub name: String,
    /// The device's own keys; empty while enrolment is outstanding.
    pub keys: Vec<String>,
    /// The identity minted for its enrolment; cleared once enrolled.
    pub invite: Option<String>,
}

impl Default for Network {
    fn default() -> (net: Network)
        ensures
            net.dns@.len() == 0,
            net.handshake_keys@.len() == 0,
            net.peers@.len() == 0,
            net.devices@.len() == 0,
    {
        Network { dns: Vec::new(), handshake_keys: Vec::new(), peers: Vec::new(), devices: Vec::new() }
    }
}

impl Device {
    /// Invited but not yet arrived.
    pub open spec fn pending(self) -> bool {
        self.keys@.len() == 0
    }

    /// Invited but not yet arrived: it holds no keys.
    pub fn is_pending(&self) -> (pending: bool)
        ensures
            pending == self.pending(),
    {
        self.keys.len() == 0
    }

    /// Whether `key` is one of this device's keys.
    pub open spec fn holds(self, key: Seq<char>) -> bool {
        exists|k: int| 0 <= k < self.keys@.len() && #[trigger] self.keys@[k]@ == key
    }

    fn holds_key(&self, key: &str) -> (held: bool)
        ensures
            held == self.holds(key@),
    {
        let mut k: usize = 0;
        while k < self.keys.len()
            invariant
                k <= self.keys@.len(),
                forall|j: int| 0 <= j < k ==> #[trigger] self.keys@[j]@ != key@,
            decreases self.keys@.len() - k,
        {
            if str_eq(self.keys[k].as_str(), key) {
                return true;
            }
            k = k + 1;
        }
        false
    }
}

impl Peer {
    /// An invite that has been sent and not yet accepted.
    pub open spec fn pending(self) -> bool {
        self.peer is None
    }

    /// An invite that has been sent and not yet accepted: we do not know their key.
    pub fn is_pending(&self) -> (pending: bool)
        ensures
            pending == self.pending(),
    {
        self.peer.is_none()
    }

    /// Their peer key is `key`.
    pub open spec fn known_as(self, key: Seq<char>) -> bool {
        self.peer matches Some(p) && p@ == key
    }

    /// They were last reached on our handshake key called `alias`.
    pub open spec fn reached_on_alias(self, alias: Seq<char>) -> bool {
        self.reached_on matches Some(on) && on@ == alias
    }
}

/// The keys we advertise among `keys`: every one not retired, in order.
pub open spec fn advertised(keys: Seq<HandshakeKey>) -> Seq<String>
    decreases keys.len(),
{
    if keys.len() == 0 {
        Seq::empty()
    } else {
        let rest = advertised(keys.drop_last());
        if keys.last().retired {
            rest
        } else {
            rest.push(keys.last().key)
        }
    }
}

/// Whether any of `peers` was last reached on our key called `alias`.
pub open spec fn named_by_some_peer(peers: Seq<Peer>, alias: Seq<char>) -> bool {
    exists|p: int| 0 <= p < peers.len() && #[trigger] peers[p].reached_on_alias(alias)
}

/// The handshake keys among `keys` that can be unbound: retired, and named by
/// none of `peers`.
pub open spec fn drainable(keys: Seq<HandshakeKey>, peers: Seq<Peer>) -> Seq<HandshakeKey>
    decreases keys.len(),
{
    if keys.len() == 0 {
        Seq::empty()
    } else {
        let rest = drainable(keys.drop_last(), peers);
        let k = keys.last();
        if k.retired && !named_by_some_peer(peers, k.alias@) {
            rest.push(k)
        } else {
            rest
        }
    }
}

/// A handshake key can be unbound exactly when it is retired and no peer, at
/// any position, was last reached on it: `drainable` keeps just those keys,
/// in their order.
pub proof fn lemma_drainable_is_retired_and_unnamed(keys: Seq<HandshakeKey>, peers: Seq<Peer>)
    ensures
        drainable(keys, peers) == keys.filter(
            |k: HandshakeKey|
                k.retired && forall|p: int|
                    0 <= p < peers.len() ==> !(#[trigger] peers[p].reached_on matches Some(on) && on@ == k.alias@),
        ),
    decreases keys.len(),
{
    let pred = |k: HandshakeKey|
        k.retired && forall|p: int| 0 <= p < peers.len() ==> !(#[trigger] peers[p].reached_on matches Some(on) && on@ == k.alias@);
    reveal_with_fuel(Seq::filter, 1);
    if keys.len() > 0 {
        lemma_drainable_is_retired_and_unnamed(keys.drop_last(), peers);
        let k = keys.last();
        if named_by_some_peer(peers, k.alias@) {
            let w = choose|p: int| 0 <= p < peers.len() && #[trigger] peers[p].reached_on_alias(k.alias@);
            assert(peers[w].reached_on_alias(k.alias@));
            assert(!pred(k));
        } else {
            assert forall|p: int| 0 <= p < peers.len() implies !(#[trigger] peers[p].reached_on matches Some(on) && on@
                == k.alias@) by {
                assert(!peers[p].reached_on_alias(k.alias@));
            }
        }
    } else {
        assert(keys.filter(pred) =~= keys);
    }
}

/// The names, in order, of the devices among `devices` that hold `key`.
pub open spec fn names_holding(devices: Seq<Device>, key: Seq<char>) -> Seq<Seq<char>>
    decreases devices.len(),
{
    if devices.len() == 0 {
        Seq::empty()
    } else {
        let rest = names_holding(devices.drop_last(), key);
        if devices.last().holds(key) {
            rest.push(devices.last().name@)
        } else {
            rest
        }
    }
}

proof fn lemma_names_none(devices: Seq<Device>, key: Seq<char>)
    ensures
        names_holding(devices, key).len() == 0 <==> forall|i: int| 0 <= i < devices.len() ==> !(#[trigger] devices[i]).holds(key),
    decreases devices.len(),
{
    if devices.len() > 0 {
        let init = devices.drop_last();
        lemma_names_none(init, key);
        if !devices.last().holds(key) {
            if names_holding(devices, key).len() == 0 {
                assert forall|i: int| 0 <= i < devices.len() implies !(#[trigger] devices[i]).holds(key) by {
                    if i < init.len() {
                        assert(init[i] == devices[i]);
                    }
                }
            } else {
                let w = choose|i: int| 0 <= i < init.len() && (#[trigger] init[i]).holds(key);
                assert(init[w] == devices[w]);
            }
        }
    }
}

proof fn lemma_names_first(devices: Seq<Device>, key: Seq<char>, i: int)
    requires
        0 <= i < devices.len(),
        devices[i].holds(key),
        forall|j: int| 0 <= j < i ==> !(#[trigger] devices[j]).holds(key),
    ensures
        names_holding(devices, key).len() > 0,
        names_holding(devices, key)[0] == devices[i].name@,
    decreases devices.len(),
{
    let init = devices.drop_last();
    if i == devices.len() - 1 {
        lemma_names_none(init, key);
        assert forall|j: int| 0 <= j < init.len() implies !(#[trigger] init[j]).holds(key) by {
            assert(init[j] == devices[j]);
        }
    } else {
        assert(init[i] == devices[i]);
        assert forall|j: int| 0 <= j < i implies !(#[trigger] init[j]).holds(key) by {
            assert(init[j] == devices[j]);
        }
        lemma_names_first(init, key, i);
    }
}

/// The names a key answers to and the device found by that key agree: there
/// are none exactly when no device holds the key, and otherwise the first name
/// is that of the first device holding it, the one `device_by_key` finds.
pub proof fn lemma_key_names_match_lookup(devices: Seq<Device>, key: Seq<char>, found: Option<Device>)
    requires
        first_match(devices, |d: Device| d.holds(key), found),
    ensures
        names_holding(devices, key).len() == 0 <==> found is None,
        found matches Some(d) ==> names_holding(devices, key)[0] == d.name@,
{
    lemma_names_none(devices, key);
    match found {
        Some(d) => {
            let i = choose|i: int|
                0 <= i < devices.len() && devices[i] == d && (|d: Device| d.holds(key))(devices[i]) && forall|j: int|
                    0 <= j < i ==> !(|d: Device| d.holds(key))(#[trigger] devices[j]);
            assert forall|j: int| 0 <= j < i implies !(#[trigger] devices[j]).holds(key) by {
                assert(!(|d: Device| d.holds(key))(devices[j]));
            }
            lemma_names_first(devices, key, i);
        },
        None => {
            assert forall|i: int| 0 <= i < devices.len() implies !(#[trigger] devices[i]).holds(key) by {
                assert(!(|d: Device| d.holds(key))(devices[i]));
            }
        },
    }
}

/// `found` is the first element of `s` satisfying `p`, or there is none.
pub open spec fn first_match<T>(s: Seq<T>, p: spec_fn(T) -> bool, found: Option<T>) -> bool {
    match found {
        Some(x) => exists|i: int|
            0 <= i < s.len() && s[i] == x && p(s[i]) && forall|j: int| 0 <= j < i ==> !p(#[trigger] s[j]),
        None => forall|i: int| 0 <= i < s.len() ==> !p(#[trigger] s[i]),
    }
}

/// A copy of a list of strings.
pub fn clone_strings(v: &Vec<String>) -> (out: Vec<String>)
    ensures
        out@ == v@,
{
    let mut out: Vec<String> = Vec::new();
    let mut i: usize = 0;
    while i < v.len()
        invariant
            i <= v@.len(),
            out@ == v@.take(i as int),
        decreases v@.len() - i,
    {
        out.push(v[i].clone());
        i = i + 1;
        assert(out@ =~= v@.take(i as int));
    }
    assert(v@.take(i as int) =~= v@);
    out
}

/// A copy of an optional string.
pub fn clone_opt(o: &Option<String>) -> (out: Option<String>)
    ensures
        out == *o,
{
    match o {
        Some(s) => Some(s.clone()),
        None => None,
    }
}

/// `k` is the first index of `s` whose element satisfies `p`.
pub open spec fn is_first<T>(s: Seq<T>, p: spec_fn(T) -> bool, k: int) -> bool {
    0 <= k < s.len() && p(s[k]) && forall|j: int| 0 <= j < k ==> !p(#[trigger] s[j])
}

/// `k` is the first of `peers` called `alias`.
pub open spec fn first_called(peers: Seq<Peer>, alias: Seq<char>, k: int) -> bool {
    0 <= k < peers.len() && peers[k].alias@ == alias && forall|j: int| 0 <= j < k ==> #[trigger] peers[j].alias@ != alias
}

/// `k` is the first of `devices` called `name`.
pub open spec fn first_named(devices: Seq<Device>, name: Seq<char>, k: int) -> bool {
    0 <= k < devices.len() && devices[k].name@ == name && forall|j: int| 0 <= j < k ==> #[trigger] devices[j].name@ != name
}

/// If some peer is called `alias`, there is a first one.
pub proof fn lemma_first_called_exists(peers: Seq<Peer>, alias: Seq<char>, k: int)
    requires
        0 <= k < peers.len(),
        peers[k].alias@ == alias,
    ensures
        exists|m: int| #[trigger] first_called(peers, alias, m),
    decreases k,
{
    if forall|j: int| 0 <= j < k ==> #[trigger] peers[j].alias@ != alias {
        assert(first_called(peers, alias, k));
    } else {
        let j = choose|j: int| 0 <= j < k && #[trigger] peers[j].alias@ == alias;
        lemma_first_called_exists(peers, alias, j);
    }
}

/// If some device is called `name`, there is a first one.
pub proof fn lemma_first_named_exists(devices: Seq<Device>, name: Seq<char>, k: int)
    requires
        0 <= k < devices.len(),
        devices[k].name@ == name,
    ensures
        exists|m: int| #[trigger] first_named(devices, name, m),
    decreases k,
{
    if forall|j: int| 0 <= j < k ==> #[trigger] devices[j].name@ != name {
        assert(first_named(devices, name, k));
    } else {
        let j = choose|j: int| 0 <= j < k && #[trigger] devices[j].name@ == name;
        lemma_first_named_exists(devices, name, j);
    }
}

/// `k` is the first peer whose key is `caller`.
pub open spec fn first_known(peers: Seq<Peer>, caller: Seq<char>, k: int) -> bool {
    0 <= k < peers.len() && peers[k].known_as(caller) && forall|j: int| 0 <= j < k ==> !(#[trigger] peers[j]).known_as(caller)
}

/// `k` is the first pending device whose invite is `invite`.
pub open spec fn first_pending_device(devices: Seq<Device>, invite: Seq<char>, k: int) -> bool {
    &&& 0 <= k < devices.len()
    &&& devices[k].pending() && (devices[k].invite matches Some(i) && i@ == invite)
    &&& forall|j: int| 0 <= j < k ==> !((#[trigger] devices[j]).pending() && (devices[j].invite matches Some(i) && i@ == invite))
}

/// `k` is the first pending peer we minted `mine` for.
pub open spec fn first_pending_peer(peers: Seq<Peer>, mine: Seq<char>, k: int) -> bool {
    &&& 0 <= k < peers.len()
    &&& peers[k].pending() && peers[k].mine@ == mine
    &&& forall|j: int| 0 <= j < k ==> !((#[trigger] peers[j]).pending() && peers[j].mine@ == mine)
}

/// The value behind an optional reference.
pub open spec fn deref_opt<T>(o: Option<&T>) -> Option<T> {
    match o {
        Some(x) => Some(*x),
        None => None,
    }
}

/// Why `decode` refuses a text, if it does.
pub open spec fn id52_error(text: Seq<char>) -> Option<Id52Error> {
    match decoding(text) {
        Ok(_) => None,
        Err(e) => Some(e),
    }
}

/// The first text among `keys` that is not an id52, with its refusal.
pub open spec fn first_key_error(keys: Seq<String>) -> Option<(Id52Error, String)>
    decreases keys.len(),
{
    if keys.len() == 0 {
        None
    } else if id52_error(keys[0]@) is Some {
        Some((id52_error(keys[0]@)->0, keys[0]))
    } else {
        first_key_error(keys.drop_first())
    }
}

/// Something that would quietly break an invariant of the known net.
#[derive(Debug, Clone)]
pub enum CheckError {
    /// A handshake key (`text`) is not an id52.
    HandshakeKey { alias: String, error: Id52Error, text: String },
    /// Two peers have the same alias.
    DuplicatePeerAlias { alias: String },
    /// A peer's `mine` (`text`) is not an id52.
    PeerMine { alias: String, error: Id52Error, text: String },
    /// Two peers were shown the same identity key.
    SharedIdentity { first: String, second: String, key: String },
    /// A peer's own key (`text`) is not an id52.
    PeerKey { alias: String, error: Id52Error, text: String },
    /// One of a peer's addresses (`text`, the first such) is not an id52.
    PeerAddress { alias: String, error: Id52Error, text: String },
    /// A peer was last reached on a handshake key we do not have.
    UnknownReachedOn { alias: String, on: String },
    /// Two devices have the same name.
    DuplicateDeviceName { name: String },
    /// One of a device's keys (`text`, the first such) is not an id52.
    DeviceKey { name: String, error: Id52Error, text: String },
    /// A device's enrolment identity (`text`) is not an id52.
    DeviceInvite { name: String, error: Id52Error, text: String },
}

/// What `check` says when it refuses the net with `e`: which entry is at
/// fault, and for the invariants that are not about one key, what is wrong.
pub open spec fn check_error_text(e: CheckError) -> Seq<char> {
    match e {
        CheckError::HandshakeKey { alias, .. } => "handshake key "@ + debug_of(alias@),
        CheckError::DuplicatePeerAlias { alias } => "two peers share the alias "@ + debug_of(alias@),
        CheckError::PeerMine { alias, .. } => "peer "@ + debug_of(alias@) + ": `mine`"@,
        CheckError::SharedIdentity { first, second, key } => "peers "@ + debug_of(first@) + " and "@ + debug_of(
            second@,
        ) + " share the identity key "@ + key@ + " \u{2014} a peer key must never be shown to two peers"@,
        CheckError::PeerKey { alias, .. } => "peer "@ + debug_of(alias@) + ": `peer`"@,
        CheckError::PeerAddress { alias, .. } => "peer "@ + debug_of(alias@) + ": address"@,
        CheckError::UnknownReachedOn { alias, on } => "peer "@ + debug_of(alias@) + " was last reached on "@
            + debug_of(on@) + ", which is not one of our handshake keys"@,
        CheckError::DuplicateDeviceName { name } => "two devices share the name "@ + debug_of(name@),
        CheckError::DeviceKey { name, .. } => "device "@ + debug_of(name@),
        CheckError::DeviceInvite { name, .. } => "device "@ + debug_of(name@) + ": invite"@,
    }
}

impl CheckError {
    /// What the refusal says.
    pub fn message(&self) -> (m: String)
        ensures
            m@ == check_error_text(*self),
    {
        match self {
            CheckError::HandshakeKey { alias, .. } => {
                let mut m = owned("handshake key ");
                m.append(debug_str(alias.as_str()).as_str());
                m
            },
            CheckError::DuplicatePeerAlias { alias } => {
                let mut m = owned("two peers share the alias ");
                m.append(debug_str(alias.as_str()).as_str());
                m
            },
            CheckError::PeerMine { alias, .. } => {
                let mut m = owned("peer ");
                m.append(debug_str(alias.as_str()).as_str());
                m.append(": `mine`");
                m
            },
            CheckError::SharedIdentity { first, second, key } => {
                let mut m = owned("peers ");
                m.append(debug_str(first.as_str()).as_str());
                m.append(" and ");
                m.append(debug_str(second.as_str()).as_str());
                m.append(" share the identity key ");
                m.append(key.as_str());
                m.append(" \u{2014} a peer key must never be shown to two peers");
                m
            },
            CheckError::PeerKey { alias, .. } => {
                let mut m = owned("peer ");
                m.append(debug_str(alias.as_str()).as_str());
                m.append(": `peer`");
                m
            },
            CheckError::PeerAddress { alias, .. } => {
                let mut m = owned("peer ");
                m.append(debug_str(alias.as_str()).as_str());
                m.append(": address");
                m
            },
            CheckError::UnknownReachedOn { alias, on } => {
                let mut m = owned("peer ");
                m.append(debug_str(alias.as_str()).as_str());
                m.append(" was last reached on ");
                m.append(debug_str(on.as_str()).as_str());
                m.append(", which is not one of our handshake keys");
                m
            },
            CheckError::DuplicateDeviceName { name } => {
                let mut m = owned("two devices share the name ");
                m.append(debug_str(name.as_str()).as_str());
                m
            },
            CheckError::DeviceKey { name, .. } => {
                let mut m = owned("device ");
                m.append(debug_str(name.as_str()).as_str());
                m
            },
            CheckError::DeviceInvite { name, .. } => {
                let mut m = owned("device ");
                m.append(debug_str(name.as_str()).as_str());
                m.append(": invite");
                m
            },
        }
    }
}

/// The refusal with what lies under it, as `{:#}` shows an error and its
/// cause: for a text that is not an id52, the id52 refusal follows.
pub open spec fn check_error_chain(e: CheckError) -> Seq<char> {
    match e {
        CheckError::HandshakeKey { error, text, .. } => check_error_text(e) + ": "@ + id52_error_text(error, text@),
        CheckError::PeerMine { error, text, .. } => check_error_text(e) + ": "@ + id52_error_text(error, text@),
        CheckError::PeerKey { error, text, .. } => check_error_text(e) + ": "@ + id52_error_text(error, text@),
        CheckError::PeerAddress { error, text, .. } => check_error_text(e) + ": "@ + id52_error_text(error, text@),
        CheckError::DeviceKey { error, text, .. } => check_error_text(e) + ": "@ + id52_error_text(error, text@),
        CheckError::DeviceInvite { error, text, .. } => check_error_text(e) + ": "@ + id52_error_text(error, text@),
        _ => check_error_text(e),
    }
}

impl CheckError {
    /// What the refusal says, followed by its cause where it has one.
    pub fn chain(&self) -> (m: String)
        ensures
            m@ == check_error_chain(*self),
    {
        let mut m = self.message();
        match self {
            CheckError::HandshakeKey { error, text, .. } | CheckError::PeerMine { error, text, .. }
            | CheckError::PeerKey { error, text, .. } | CheckError::PeerAddress { error, text, .. }
            | CheckError::DeviceKey { error, text, .. } | CheckError::DeviceInvite { error, text, .. } => {
                m.append(": ");
                m.append(error.message(text.as_str()).as_str());
            },
            _ => {},
        }
        m
    }
}

/// Whether one of `keys` is called `alias`.
pub open spec fn has_alias(keys: Seq<HandshakeKey>, alias: Seq<char>) -> bool {
    exists|k: int| 0 <= k < keys.len() && #[trigger] keys[k].alias@ == alias
}

/// What is wrong with handshake key `k`, if anything.
pub open spec fn handshake_fault(k: HandshakeKey) -> Option<CheckError> {
    match id52_error(k.key@) {
        Some(e) => Some(CheckError::HandshakeKey { alias: k.alias, error: e, text: k.key }),
        None => None,
    }
}

/// An earlier peer has the alias of peer `i`.
pub open spec fn alias_taken_before(peers: Seq<Peer>, i: int) -> bool {
    exists|j: int| 0 <= j < i && #[trigger] peers[j].alias@ == peers[i].alias@
}

/// Two identity texts name the same key: they decode alike (so one key in
/// lower and in upper case is one identity).
pub open spec fn same_identity(a: Seq<char>, b: Seq<char>) -> bool {
    decoding(a) == decoding(b)
}

/// An earlier peer was shown the identity of peer `i`: its `mine` is the
/// same key, however it is spelled.
pub open spec fn mine_shared_before(peers: Seq<Peer>, i: int) -> bool {
    exists|j: int| 0 <= j < i && same_identity(#[trigger] peers[j].mine@, peers[i].mine@)
}

/// What is wrong with peer `i`, checking its fields in order, if anything.
pub open spec fn peer_fault(net: Network, i: int) -> Option<CheckError> {
    let peers = net.peers@;
    let p = peers[i];
    if alias_taken_before(peers, i) {
        Some(CheckError::DuplicatePeerAlias { alias: p.alias })
    } else if id52_error(p.mine@) is Some {
        Some(CheckError::PeerMine { alias: p.alias, error: id52_error(p.mine@)->0, text: p.mine })
    } else if mine_shared_before(peers, i) {
        let j = choose|j: int| 0 <= j < i && same_identity(#[trigger] peers[j].mine@, p.mine@);
        Some(CheckError::SharedIdentity { first: peers[j].alias, second: p.alias, key: p.mine })
    } else if p.peer is Some && id52_error(p.peer->0@) is Some {
        Some(CheckError::PeerKey { alias: p.alias, error: id52_error(p.peer->0@)->0, text: p.peer->0 })
    } else if first_key_error(p.addresses@) is Some {
        let (error, text) = first_key_error(p.addresses@)->0;
        Some(CheckError::PeerAddress { alias: p.alias, error, text })
    } else if p.reached_on is Some && !has_alias(net.handshake_keys@, p.reached_on->0@) {
        Some(CheckError::UnknownReachedOn { alias: p.alias, on: p.reached_on->0 })
    } else {
        None
    }
}

/// An earlier device has the name of device `i`.
pub open spec fn name_taken_before(devices: Seq<Device>, i: int) -> bool {
    exists|j: int| 0 <= j < i && #[trigger] devices[j].name@ == devices[i].name@
}

/// What is wrong with device `i`, checking its fields in order, if anything.
pub open spec fn device_fault(net: Network, i: int) -> Option<CheckError> {
    let devices = net.devices@;
    let d = devices[i];
    if name_taken_before(devices, i) {
        Some(CheckError::DuplicateDeviceName { name: d.name })
    } else if first_key_error(d.keys@) is Some {
        let (error, text) = first_key_error(d.keys@)->0;
        Some(CheckError::DeviceKey { name: d.name, error, text })
    } else if d.invite is Some && id52_error(d.invite->0@) is Some {
        Some(CheckError::DeviceInvite { name: d.name, error: id52_error(d.invite->0@)->0, text: d.invite->0 })
    } else {
        None
    }
}

/// The first faulty handshake key from index `from` on.
pub open spec fn first_handshake_fault(net: Network, from: int) -> Option<CheckError>
    decreases net.handshake_keys@.len() - from,
{
    if from < 0 || from >= net.handshake_keys@.len() {
        None
    } else if handshake_fault(net.handshake_keys@[from]) is Some {
        handshake_fault(net.handshake_keys@[from])
    } else {
        first_handshake_fault(net, from + 1)
    }
}

/// The first faulty peer from index `from` on.
pub open spec fn first_peer_fault(net: Network, from: int) -> Option<CheckError>
    decreases net.peers@.len() - from,
{
    if from < 0 || from >= net.peers@.len() {
        None
    } else if peer_fault(net, from) is Some {
        peer_fault(net, from)
    } else {
        first_peer_fault(net, from + 1)
    }
}

/// The first faulty device from index `from` on.
pub open spec fn first_device_fault(net: Network, from: int) -> Option<CheckError>
    decreases net.devices@.len() - from,
{
    if from < 0 || from >= net.devices@.len() {
        None
    } else if device_fault(net, from) is Some {
        device_fault(net, from)
    } else {
        first_device_fault(net, from + 1)
    }
}

/// The first thing wrong with the known net, in the order `check` looks:
/// handshake keys, then peers, then devices, each in file order.
pub open spec fn network_fault(net: Network) -> Option<CheckError> {
    if first_handshake_fault(net, 0) is Some {
        first_handshake_fault(net, 0)
    } else if first_peer_fault(net, 0) is Some {
        first_peer_fault(net, 0)
    } else {
        first_device_fault(net, 0)
    }
}

/// Every one of `keys` is an id52.
pub open spec fn all_id52(keys: Seq<String>) -> bool {
    forall|k: int| 0 <= k < keys.len() ==> #[trigger] id52_error(keys[k]@) is None
}

/// Peer `p`'s own fields are sound: its keys are id52s and it was last reached
/// on one of `ours`.
pub open spec fn peer_sound(p: Peer, ours: Seq<HandshakeKey>) -> bool {
    &&& id52_error(p.mine@) is None
    &&& (p.peer matches Some(k) ==> id52_error(k@) is None)
    &&& all_id52(p.addresses@)
    &&& (p.reached_on matches Some(on) ==> has_alias(ours, on@))
}

/// Device `d`'s own fields are sound: its keys and its invite are id52s.
pub open spec fn device_sound(d: Device) -> bool {
    &&& all_id52(d.keys@)
    &&& (d.invite matches Some(k) ==> id52_error(k@) is None)
}

impl Network {
    /// The index of the first peer called `alias`, if any.
    pub open spec fn peer_index_spec(self, alias: Seq<char>) -> Option<int> {
        if exists|k: int| #[trigger] first_called(self.peers@, alias, k) {
            Some(choose|k: int| #[trigger] first_called(self.peers@, alias, k))
        } else {
            None
        }
    }

    /// The index of the first device called `name`, if any.
    pub open spec fn device_index_spec(self, name: Seq<char>) -> Option<int> {
        if exists|k: int| #[trigger] first_named(self.devices@, name, k) {
            Some(choose|k: int| #[trigger] first_named(self.devices@, name, k))
        } else {
            None
        }
    }

    /// The invariants of the known net: every key is an id52; no two peers share
    /// an alias; no identity key is shown to two peers; every `reached_on` names
    /// one of our handshake keys; no two devices share a name.
    pub open spec fn valid(self) -> bool {
        let keys = self.handshake_keys@;
        let peers = self.peers@;
        let devices = self.devices@;
        &&& forall|i: int| 0 <= i < keys.len() ==> id52_error(#[trigger] keys[i].key@) is None
        &&& forall|i: int, j: int|
            0 <= i < j < peers.len() ==> #[trigger] peers[i].alias@ != #[trigger] peers[j].alias@
        &&& forall|i: int, j: int|
            0 <= i < j < peers.len() ==> !same_identity(#[trigger] peers[i].mine@, #[trigger] peers[j].mine@)
        &&& forall|i: int| 0 <= i < peers.len() ==> peer_sound(#[trigger] peers[i], keys)
        &&& forall|i: int, j: int|
            0 <= i < j < devices.len() ==> #[trigger] devices[i].name@ != #[trigger] devices[j].name@
        &&& forall|i: int| 0 <= i < devices.len() ==> device_sound(#[trigger] devices[i])
    }
}

proof fn lemma_first_key_error(keys: Seq<String>)
    ensures
        first_key_error(keys) is None <==> all_id52(keys),
    decreases keys.len(),
{
    if keys.len() > 0 {
        lemma_first_key_error(keys.drop_first());
        if all_id52(keys) {
            assert forall|k: int| 0 <= k < keys.drop_first().len() implies #[trigger] id52_error(
                keys.drop_first()[k]@,
            ) is None by {
                assert(keys.drop_first()[k] == keys[k + 1]);
            }
        }
        if first_key_error(keys) is None {
            assert forall|k: int| 0 <= k < keys.len() implies #[trigger] id52_error(keys[k]@) is None by {
                if k > 0 {
                    assert(keys[k] == keys.drop_first()[k - 1]);
                }
            }
        }
    }
}

proof fn lemma_first_handshake_fault(net: Network, from: int)
    requires
        0 <= from <= net.handshake_keys@.len(),
    ensures
        first_handshake_fault(net, from) is None <==> forall|i: int|
            from <= i < net.handshake_keys@.len() ==> handshake_fault(#[trigger] net.handshake_keys@[i]) is None,
    decreases net.handshake_keys@.len() - from,
{
    if from < net.handshake_keys@.len() {
        lemma_first_handshake_fault(net, from + 1);
    }
}

proof fn lemma_first_peer_fault(net: Network, from: int)
    requires
        0 <= from <= net.peers@.len(),
    ensures
        first_peer_fault(net, from) is None <==> forall|i: int|
            from <= i < net.peers@.len() ==> #[trigger] peer_fault(net, i) is None,
    decreases net.peers@.len() - from,
{
    if from < net.peers@.len() {
        lemma_first_peer_fault(net, from + 1);
    }
}

proof fn lemma_first_device_fault(net: Network, from: int)
    requires
        0 <= from <= net.devices@.len(),
    ensures
        first_device_fault(net, from) is None <==> forall|i: int|
            from <= i < net.devices@.len() ==> #[trigger] device_fault(net, i) is None,
    decreases net.devices@.len() - from,
{
    if from < net.devices@.len() {
        lemma_first_device_fault(net, from + 1);
    }
}

/// `check` accepts exactly the valid known nets: it finds a fault if and only
/// if one of the invariants is broken.
pub proof fn lemma_check_accepts_exactly_valid(net: Network)
    ensures
        network_fault(net) is None <==> net.valid(),
{
    let keys = net.handshake_keys@;
    let peers = net.peers@;
    let devices = net.devices@;
    lemma_first_handshake_fault(net, 0);
    lemma_first_peer_fault(net, 0);
    lemma_first_device_fault(net, 0);
    assert forall|i: int| 0 <= i < peers.len() implies (first_key_error(#[trigger] peers[i].addresses@) is None
        <==> all_id52(peers[i].addresses@)) by {
        lemma_first_key_error(peers[i].addresses@);
    }
    assert forall|i: int| 0 <= i < devices.len() implies (first_key_error(#[trigger] devices[i].keys@) is None
        <==> all_id52(devices[i].keys@)) by {
        lemma_first_key_error(devices[i].keys@);
    }
    if network_fault(net) is None {
        assert forall|i: int| 0 <= i < keys.len() implies id52_error(#[trigger] keys[i].key@) is None by {
            assert(handshake_fault(keys[i]) is None);
        }
        assert forall|i: int, j: int| 0 <= i < j < peers.len() implies #[trigger] peers[i].alias@
            != #[trigger] peers[j].alias@ by {
            assert(peer_fault(net, j) is None);
            if peers[i].alias@ == peers[j].alias@ {
                assert(alias_taken_before(peers, j));
            }
        }
        assert forall|i: int, j: int| 0 <= i < j < peers.len() implies !same_identity(
            #[trigger] peers[i].mine@,
            #[trigger] peers[j].mine@,
        ) by {
            assert(peer_fault(net, j) is None);
            if same_identity(peers[i].mine@, peers[j].mine@) {
                assert(mine_shared_before(peers, j));
            }
        }
        assert forall|i: int| 0 <= i < peers.len() implies peer_sound(#[trigger] peers[i], keys) by {
            assert(peer_fault(net, i) is None);
        }
        assert forall|i: int, j: int| 0 <= i < j < devices.len() implies #[trigger] devices[i].name@
            != #[trigger] devices[j].name@ by {
            assert(device_fault(net, j) is None);
            if devices[i].name@ == devices[j].name@ {
                assert(name_taken_before(devices, j));
            }
        }
        assert forall|i: int| 0 <= i < devices.len() implies device_sound(#[trigger] devices[i]) by {
            assert(device_fault(net, i) is None);
        }
    }
    if net.valid() {
        assert forall|i: int| 0 <= i < keys.len() implies handshake_fault(#[trigger] keys[i]) is None by {
            assert(id52_error(keys[i].key@) is None);
        }
        assert forall|i: int| 0 <= i < peers.len() implies #[trigger] peer_fault(net, i) is None by {
            assert(peer_sound(peers[i], keys));
            assert(!alias_taken_before(peers, i)) by {
                if alias_taken_before(peers, i) {
                    let j = choose|j: int| 0 <= j < i && #[trigger] peers[j].alias@ == peers[i].alias@;
                    assert(peers[j].alias@ != peers[i].alias@);
                }
            }
            assert(!mine_shared_before(peers, i)) by {
                if mine_shared_before(peers, i) {
                    let j = choose|j: int| 0 <= j < i && same_identity(#[trigger] peers[j].mine@, peers[i].mine@);
                    assert(!same_identity(peers[j].mine@, peers[i].mine@));
                }
            }
        }
        assert forall|i: int| 0 <= i < devices.len() implies #[trigger] device_fault(net, i) is None by {
            assert(device_sound(devices[i]));
            assert(!name_taken_before(devices, i)) by {
                if name_taken_before(devices, i) {
                    let j = choose|j: int| 0 <= j < i && #[trigger] devices[j].name@ == devices[i].name@;
                    assert(devices[j].name@ != devices[i].name@);
                }
            }
        }
    }
}

/// The first of `keys` that is not an id52, with its refusal, if any.
fn first_bad_key(keys: &Vec<String>) -> (error: Option<(Id52Error, String)>)
    ensures
        error == first_key_error(keys@),
{
    let mut i: usize = 0;
    assert(keys@.skip(0) =~= keys@);
    while i < keys.len()
        invariant
            i <= keys@.len(),
            first_key_error(keys@) == first_key_error(keys@.skip(i as int)),
        decreases keys@.len() - i,
    {
        let ghost rest = keys@.skip(i as int);
        assert(rest.drop_first() =~= keys@.skip(i + 1));
        match decode(keys[i].as_str()) {
            Err(e) => {
                return Some((e, keys[i].clone()));
            },
            Ok(_) => {},
        }
        i = i + 1;
    }
    assert(keys@.skip(i as int).len() == 0);
    None
}

impl Network {
    /// Where the file lives in a sirji home.
    pub fn path_in(home: &str) -> (path: String)
        ensures
            path@ == crate::text::joined(home@, FILE@),
    {
        join(home, FILE)
    }

    /// The addresses we currently advertise: every handshake key not retired.
    pub fn current_addresses(&self) -> (addresses: Vec<String>)
        ensures
            addresses@ == advertised(self.handshake_keys@),
    {
        let mut out: Vec<String> = Vec::new();
        let mut i: usize = 0;
        while i < self.handshake_keys.len()
            invariant
                i <= self.handshake_keys@.len(),
                out@ == advertised(self.handshake_keys@.take(i as int)),
            decreases self.handshake_keys@.len() - i,
        {
            assert(self.handshake_keys@.take(i + 1).drop_last() =~= self.handshake_keys@.take(i as int));
            if !self.handshake_keys[i].retired {
                out.push(self.handshake_keys[i].key.clone());
            }
            i = i + 1;
        }
        assert(self.handshake_keys@.take(i as int) =~= self.handshake_keys@);
        out
    }

    /// The handshake key whose id52 is `key`.
    pub fn handshake_key(&self, key: &str) -> (found: Option<&HandshakeKey>)
        ensures
            first_match(self.handshake_keys@, |k: HandshakeKey| k.key@ == key@, deref_opt(found)),
    {
        let mut i: usize = 0;
        while i < self.handshake_keys.len()
            invariant
                i <= self.handshake_keys@.len(),
                forall|j: int| 0 <= j < i ==> #[trigger] self.handshake_keys@[j].key@ != key@,
            decreases self.handshake_keys@.len() - i,
        {
            if str_eq(self.handshake_keys[i].key.as_str(), key) {
                return Some(&self.handshake_keys[i]);
            }
            i = i + 1;
        }
        None
    }

    /// The handshake key called `alias`.
    pub fn handshake_key_by_alias(&self, alias: &str) -> (found: Option<&HandshakeKey>)
        ensures
            first_match(self.handshake_keys@, |k: HandshakeKey| k.alias@ == alias@, deref_opt(found)),
            found is Some <==> has_alias(self.handshake_keys@, alias@),
    {
        let mut i: usize = 0;
        while i < self.handshake_keys.len()
            invariant
                i <= self.handshake_keys@.len(),
                forall|j: int| 0 <= j < i ==> #[trigger] self.handshake_keys@[j].alias@ != alias@,
            decreases self.handshake_keys@.len() - i,
        {
            if str_eq(self.handshake_keys[i].alias.as_str(), alias) {
                return Some(&self.handshake_keys[i]);
            }
            i = i + 1;
        }
        None
    }

    /// Look a dialling key up. This is the known/unknown split: `Some` is an
    /// existing relationship, `None` means a handshake.
    pub fn peer_by_key(&self, key: &str) -> (found: Option<&Peer>)
        ensures
            first_match(self.peers@, |p: Peer| p.known_as(key@), deref_opt(found)),
            match found {
                Some(q) => exists|k: int| #[trigger] first_known(self.peers@, key@, k) && self.peers@[k] == *q,
                None => !exists|k: int| #[trigger] first_known(self.peers@, key@, k),
            },
    {
        let mut i: usize = 0;
        while i < self.peers.len()
            invariant
                i <= self.peers@.len(),
                forall|j: int| 0 <= j < i ==> !(#[trigger] self.peers@[j]).known_as(key@),
            decreases self.peers@.len() - i,
        {
            let hit = match &self.peers[i].peer {
                Some(theirs) => str_eq(theirs.as_str(), key),
                None => false,
            };
            if hit {
                assert(first_known(self.peers@, key@, i as int));
                return Some(&self.peers[i]);
            }
            i = i + 1;
        }
        None
    }

    /// The peer we call `alias`.
    pub fn peer_by_alias(&self, alias: &str) -> (found: Option<&Peer>)
        ensures
            first_match(self.peers@, |p: Peer| p.alias@ == alias@, deref_opt(found)),
    {
        let mut i: usize = 0;
        while i < self.peers.len()
            invariant
                i <= self.peers@.len(),
                forall|j: int| 0 <= j < i ==> #[trigger] self.peers@[j].alias@ != alias@,
            decreases self.peers@.len() - i,
        {
            if str_eq(self.peers[i].alias.as_str(), alias) {
                return Some(&self.peers[i]);
            }
            i = i + 1;
        }
        None
    }

    /// A peer we minted `mine` for and are still waiting on.
    pub fn pending_by_mine(&self, mine: &str) -> (found: Option<&Peer>)
        ensures
            first_match(self.peers@, |p: Peer| p.pending() && p.mine@ == mine@, deref_opt(found)),
            match found {
                Some(q) => exists|k: int| #[trigger] first_pending_peer(self.peers@, mine@, k) && self.peers@[k] == *q,
                None => !exists|k: int| #[trigger] first_pending_peer(self.peers@, mine@, k),
            },
    {
        let mut i: usize = 0;
        while i < self.peers.len()
            invariant
                i <= self.peers@.len(),
                forall|j: int| 0 <= j < i ==> !((#[trigger] self.peers@[j]).pending() && self.peers@[j].mine@ == mine@),
            decreases self.peers@.len() - i,
        {
            if self.peers[i].is_pending() && str_eq(self.peers[i].mine.as_str(), mine) {
                assert(first_pending_peer(self.peers@, mine@, i as int));
                return Some(&self.peers[i]);
            }
            i = i + 1;
        }
        None
    }

    /// The device called `name`.
    pub fn device_by_name(&self, name: &str) -> (found: Option<&Device>)
        ensures
            first_match(self.devices@, |d: Device| d.name@ == name@, deref_opt(found)),
    {
        let mut i: usize = 0;
        while i < self.devices.len()
            invariant
                i <= self.devices@.len(),
                forall|j: int| 0 <= j < i ==> #[trigger] self.devices@[j].name@ != name@,
            decreases self.devices@.len() - i,
        {
            if str_eq(self.devices[i].name.as_str(), name) {
                return Some(&self.devices[i]);
            }
            i = i + 1;
        }
        None
    }

    /// A device we minted an enrolment identity for and are still waiting on.
    pub fn pending_device_by_invite(&self, invite: &str) -> (found: Option<&Device>)
        ensures
            first_match(
                self.devices@,
                |d: Device| d.pending() && (d.invite matches Some(i) && i@ == invite@),
                deref_opt(found),
            ),
            match found {
                Some(q) => exists|k: int| #[trigger] first_pending_device(self.devices@, invite@, k) && self.devices@[k] == *q,
                None => !exists|k: int| #[trigger] first_pending_device(self.devices@, invite@, k),
            },
    {
        let mut i: usize = 0;
        while i < self.devices.len()
            invariant
                i <= self.devices@.len(),
                forall|j: int|
                    0 <= j < i ==> !((#[trigger] self.devices@[j]).pending() && (self.devices@[j].invite matches Some(x)
                        && x@ == invite@)),
            decreases self.devices@.len() - i,
        {
            let hit = match &self.devices[i].invite {
                Some(x) => self.devices[i].is_pending() && str_eq(x.as_str(), invite),
                None => false,
            };
            if hit {
                assert(first_pending_device(self.devices@, invite@, i as int));
                return Some(&self.devices[i]);
            }
            i = i + 1;
        }
        None
    }

    /// Which of our devices holds this key, if any.
    pub fn device_by_key(&self, key: &str) -> (found: Option<&Device>)
        ensures
            first_match(self.devices@, |d: Device| d.holds(key@), deref_opt(found)),
    {
        let mut i: usize = 0;
        while i < self.devices.len()
            invariant
                i <= self.devices@.len(),
                forall|j: int| 0 <= j < i ==> !(#[trigger] self.devices@[j]).holds(key@),
            decreases self.devices@.len() - i,
        {
            if self.devices[i].holds_key(key) {
                return Some(&self.devices[i]);
            }
            i = i + 1;
        }
        None
    }

    /// The names a device key may answer to, in file order.
    pub fn names_for_device_key(&self, key: &str) -> (names: Vec<&str>)
        ensures
            names@.map_values(|n: &str| n@) == names_holding(self.devices@, key@),
    {
        let mut out: Vec<&str> = Vec::new();
        let mut i: usize = 0;
        while i < self.devices.len()
            invariant
                i <= self.devices@.len(),
                out@.map_values(|n: &str| n@) == names_holding(self.devices@.take(i as int), key@),
            decreases self.devices@.len() - i,
        {
            let ghost before = out@;
            assert(self.devices@.take(i + 1).drop_last() =~= self.devices@.take(i as int));
            if self.devices[i].holds_key(key) {
                out.push(self.devices[i].name.as_str());
                assert(out@.map_values(|n: &str| n@) =~= before.map_values(|n: &str| n@).push(
                    self.devices@[i as int].name@,
                ));
            }
            i = i + 1;
        }
        assert(self.devices@.take(i as int) =~= self.devices@);
        out
    }

    /// Handshake keys that can be unbound: retired, and named by no peer.
    pub fn drained(&self) -> (keys: Vec<&HandshakeKey>)
        ensures
            keys@.map_values(|k: &HandshakeKey| *k) == drainable(self.handshake_keys@, self.peers@),
            keys@.map_values(|k: &HandshakeKey| *k) == self.handshake_keys@.filter(
                |k: HandshakeKey|
                    k.retired && forall|p: int|
                        0 <= p < self.peers@.len() ==> !(#[trigger] self.peers@[p].reached_on matches Some(on) && on@
                            == k.alias@),
            ),
    {
        proof {
            lemma_drainable_is_retired_and_unnamed(self.handshake_keys@, self.peers@);
        }
        let mut out: Vec<&HandshakeKey> = Vec::new();
        let mut i: usize = 0;
        while i < self.handshake_keys.len()
            invariant
                i <= self.handshake_keys@.len(),
                out@.map_values(|k: &HandshakeKey| *k) == drainable(
                    self.handshake_keys@.take(i as int),
                    self.peers@,
                ),
            decreases self.handshake_keys@.len() - i,
        {
            let ghost before = out@;
            assert(self.handshake_keys@.take(i + 1).drop_last() =~= self.handshake_keys@.take(i as int));
            let k = &self.handshake_keys[i];
            if k.retired && !self.names_on(k.alias.as_str()) {
                out.push(k);
                assert(out@.map_values(|k: &HandshakeKey| *k) =~= before.map_values(
                    |k: &HandshakeKey| *k,
                ).push(self.handshake_keys@[i as int]));
            }
            i = i + 1;
        }
        assert(self.handshake_keys@.take(i as int) =~= self.handshake_keys@);
        out
    }

    /// What is wrong with handshake key `i`, if anything.
    fn handshake_key_check(&self, i: usize) -> (fault: Option<CheckError>)
        requires
            i < self.handshake_keys@.len(),
        ensures
            fault == handshake_fault(self.handshake_keys@[i as int]),
    {
        let k = &self.handshake_keys[i];
        match decode(k.key.as_str()) {
            Err(e) => Some(CheckError::HandshakeKey { alias: k.alias.clone(), error: e, text: k.key.clone() }),
            Ok(_) => None,
        }
    }

    /// A peer whose identity is shared with an earlier one is itself faulty.
    proof fn lemma_shared_is_fault(net: Network, b: int)
        requires
            0 <= b < net.peers@.len(),
            mine_shared_before(net.peers@, b),
        ensures
            peer_fault(net, b) is Some,
    {
    }

    /// What is wrong with peer `i`, if anything, given that no earlier peer is faulty.
    fn peer_check(&self, i: usize) -> (fault: Option<CheckError>)
        requires
            i < self.peers@.len(),
            forall|j: int| 0 <= j < i ==> peer_fault(*self, j) is None,
        ensures
            fault == peer_fault(*self, i as int),
    {
        let p = &self.peers[i];
        let mut j: usize = 0;
        while j < i
            invariant
                i < self.peers@.len(),
                j <= i,
                p == self.peers@[i as int],
                forall|k: int| 0 <= k < j ==> #[trigger] self.peers@[k].alias@ != p.alias@,
            decreases i - j,
        {
            if str_eq(self.peers[j].alias.as_str(), p.alias.as_str()) {
                assert(alias_taken_before(self.peers@, i as int)) by {
                    assert(self.peers@[j as int].alias@ == self.peers@[i as int].alias@);
                }
                return Some(CheckError::DuplicatePeerAlias { alias: p.alias.clone() });
            }
            j = j + 1;
        }
        assert(!alias_taken_before(self.peers@, i as int));
        let key = match decode(p.mine.as_str()) {
            Err(e) => {
                return Some(CheckError::PeerMine { alias: p.alias.clone(), error: e, text: p.mine.clone() });
            },
            Ok(k) => k,
        };
        let mut j: usize = 0;
        while j < i
            invariant
                i < self.peers@.len(),
                j <= i,
                p == self.peers@[i as int],
                decoding(p.mine@) == Ok::<Seq<u8>, Id52Error>(key@),
                forall|k: int| 0 <= k < j ==> !same_identity(#[trigger] self.peers@[k].mine@, p.mine@),
                forall|k: int| 0 <= k < i ==> peer_fault(*self, k) is None,
                !alias_taken_before(self.peers@, i as int),
                id52_error(p.mine@) is None,
            decreases i - j,
        {
            let same = match decode(self.peers[j].mine.as_str()) {
                Ok(other) => other == key,
                Err(_) => false,
            };
            assert(same == same_identity(self.peers@[j as int].mine@, p.mine@));
            if same {
                let ghost peers = self.peers@;
                assert(same_identity(peers[j as int].mine@, peers[i as int].mine@));
                assert(mine_shared_before(peers, i as int));
                let ghost c = choose|c: int| 0 <= c < i && same_identity(#[trigger] peers[c].mine@, p.mine@);
                assert(c == j) by {
                    if c != j {
                        assert(c > j);
                        assert(mine_shared_before(peers, c)) by {
                            assert(same_identity(peers[j as int].mine@, peers[c].mine@));
                        }
                        Self::lemma_shared_is_fault(*self, c);
                    }
                }
                return Some(
                    CheckError::SharedIdentity {
                        first: self.peers[j].alias.clone(),
                        second: p.alias.clone(),
                        key: p.mine.clone(),
                    },
                );
            }
            j = j + 1;
        }
        if let Some(theirs) = &p.peer {
            match decode(theirs.as_str()) {
                Err(e) => {
                    return Some(CheckError::PeerKey { alias: p.alias.clone(), error: e, text: theirs.clone() });
                },
                Ok(_) => {},
            }
        }
        match first_bad_key(&p.addresses) {
            Some((e, text)) => {
                return Some(CheckError::PeerAddress { alias: p.alias.clone(), error: e, text });
            },
            None => {},
        }
        if let Some(on) = &p.reached_on {
            if self.handshake_key_by_alias(on.as_str()).is_none() {
                return Some(CheckError::UnknownReachedOn { alias: p.alias.clone(), on: on.clone() });
            }
        }
        None
    }

    /// What is wrong with device `i`, if anything.
    fn device_check(&self, i: usize) -> (fault: Option<CheckError>)
        requires
            i < self.devices@.len(),
        ensures
            fault == device_fault(*self, i as int),
    {
        let d = &self.devices[i];
        let mut j: usize = 0;
        while j < i
            invariant
                i < self.devices@.len(),
                j <= i,
                d == self.devices@[i as int],
                forall|k: int| 0 <= k < j ==> #[trigger] self.devices@[k].name@ != d.name@,
            decreases i - j,
        {
            if str_eq(self.devices[j].name.as_str(), d.name.as_str()) {
                assert(name_taken_before(self.devices@, i as int)) by {
                    assert(self.devices@[j as int].name@ == self.devices@[i as int].name@);
                }
                return Some(CheckError::DuplicateDeviceName { name: d.name.clone() });
            }
            j = j + 1;
        }
        match first_bad_key(&d.keys) {
            Some((e, text)) => {
                return Some(CheckError::DeviceKey { name: d.name.clone(), error: e, text });
            },
            None => {},
        }
        if let Some(invite) = &d.invite {
            match decode(invite.as_str()) {
                Err(e) => {
                    return Some(CheckError::DeviceInvite { name: d.name.clone(), error: e, text: invite.clone() });
                },
                Ok(_) => {},
            }
        }
        None
    }

    /// Reject anything that would quietly break an invariant: every key is an
    /// id52, no two peers share an alias or an identity key, every `reached_on`
    /// names one of our handshake keys, and no two devices share a name. The
    /// error is the first such fault, looking at handshake keys, then peers,
    /// then devices, each field in order.
    pub fn check(&self) -> (result: Result<(), CheckError>)
        ensures
            match result {
                Ok(()) => network_fault(*self) is None,
                Err(e) => network_fault(*self) == Some(e),
            },
    {
        let mut i: usize = 0;
        while i < self.handshake_keys.len()
            invariant
                i <= self.handshake_keys@.len(),
                first_handshake_fault(*self, 0) == first_handshake_fault(*self, i as int),
            decreases self.handshake_keys@.len() - i,
        {
            match self.handshake_key_check(i) {
                Some(e) => {
                    return Err(e);
                },
                None => {},
            }
            i = i + 1;
        }
        let mut i: usize = 0;
        while i < self.peers.len()
            invariant
                i <= self.peers@.len(),
                first_handshake_fault(*self, 0) is None,
                first_peer_fault(*self, 0) == first_peer_fault(*self, i as int),
                forall|j: int| 0 <= j < i ==> peer_fault(*self, j) is None,
            decreases self.peers@.len() - i,
        {
            match self.peer_check(i) {
                Some(e) => {
                    return Err(e);
                },
                None => {},
            }
            i = i + 1;
        }
        let mut i: usize = 0;
        while i < self.devices.len()
            invariant
                i <= self.devices@.len(),
                first_handshake_fault(*self, 0) is None,
                first_peer_fault(*self, 0) is None,
                first_device_fault(*self, 0) == first_device_fault(*self, i as int),
            decreases self.devices@.len() - i,
        {
            match self.device_check(i) {
                Some(e) => {
                    return Err(e);
                },
                None => {},
            }
            i = i + 1;
        }
        Ok(())
    }

    /// The index of the first peer called `alias`.
    pub fn peer_index(&self, alias: &str) -> (index: Option<usize>)
        ensures
            index == match self.peer_index_spec(alias@) { Some(k) => Some(k as usize), None => None },
            match index {
                Some(k) => first_called(self.peers@, alias@, k as int),
                None => forall|j: int| 0 <= j < self.peers@.len() ==> #[trigger] self.peers@[j].alias@ != alias@,
            },
    {
        let mut i: usize = 0;
        while i < self.peers.len()
            invariant
                i <= self.peers@.len(),
                forall|j: int| 0 <= j < i ==> #[trigger] self.peers@[j].alias@ != alias@,
            decreases self.peers@.len() - i,
        {
            if str_eq(self.peers[i].alias.as_str(), alias) {
                proof {
                    assert(first_called(self.peers@, alias@, i as int));
                    let c = choose|c: int| #[trigger] first_called(self.peers@, alias@, c);
                    assert(c == i) by {
                        if c < i {
                            assert(self.peers@[c].alias@ != alias@);
                        }
                        if c > i {
                            assert(self.peers@[i as int].alias@ != alias@);
                        }
                    }
                }
                return Some(i);
            }
            i = i + 1;
        }
        None
    }

    /// The index of the first device called `name`.
    pub fn device_index(&self, name: &str) -> (index: Option<usize>)
        ensures
            index == match self.device_index_spec(name@) { Some(k) => Some(k as usize), None => None },
            match index {
                Some(k) => first_named(self.devices@, name@, k as int),
                None => forall|j: int| 0 <= j < self.devices@.len() ==> #[trigger] self.devices@[j].name@ != name@,
            },
    {
        let mut i: usize = 0;
        while i < self.devices.len()
            invariant
                i <= self.devices@.len(),
                forall|j: int| 0 <= j < i ==> #[trigger] self.devices@[j].name@ != name@,
            decreases self.devices@.len() - i,
        {
            if str_eq(self.devices[i].name.as_str(), name) {
                proof {
                    assert(first_named(self.devices@, name@, i as int));
                    let c = choose|c: int| #[trigger] first_named(self.devices@, name@, c);
                    assert(c == i) by {
                        if c < i {
                            assert(self.devices@[c].name@ != name@);
                        }
                        if c > i {
                            assert(self.devices@[i as int].name@ != name@);
                        }
                    }
                }
                return Some(i);
            }
            i = i + 1;
        }
        None
    }

    /// Whether some peer was last reached on our key called `alias`.
    fn names_on(&self, alias: &str) -> (named: bool)
        ensures
            named == named_by_some_peer(self.peers@, alias@),
    {
        let mut p: usize = 0;
        while p < self.peers.len()
            invariant
                p <= self.peers@.len(),
                forall|j: int| 0 <= j < p ==> !(#[trigger] self.peers@[j]).reached_on_alias(alias@),
            decreases self.peers@.len() - p,
        {
            let hit = match &self.peers[p].reached_on {
                Some(on) => str_eq(on.as_str(), alias),
                None => false,
            };
            if hit {
                assert(self.peers@[p as int].reached_on_alias(alias@));
                return true;
            }
            p = p + 1;
        }
        false
    }
}

} // verus!
