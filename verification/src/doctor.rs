//! `sirji doctor` — why isn't this working?
//!
//! Each check answers a question that leads somewhere different: the home,
//! network and keys are local; a missing daemon means start it; DNS failing
//! means the network resolves nothing or blocks these names; no UDP egress
//! means QUIC cannot work here at all (the one fatal verdict); relays failing
//! means coordination is blocked.
//!
//! The probes themselves — the filesystem, sockets, DNS, a STUN round trip, a
//! throwaway endpoint — are the caller's. This module turns what they found
//! into verdicts, advice, and the report's lines.

use vstd::prelude::*;

use crate::config::{network_fault, Network};
use crate::codec::to_lowercase;
use crate::id52::decode;
use crate::keys::public_of;
use crate::keystore::Keystore;
use crate::proto::RelayInfo;
use crate::settings::Settings;
use crate::text::{chars_of, contains, debug_of, debug_str, decimal, decimal_string, find, owned};
use crate::codec::lowercase_of;

verus! {

/// The public STUN server used only to prove packets get out and back.
pub const STUN_SERVER: &'static str = "stun.l.google.com:19302";

/// How long a relay gets to connect, in seconds.
pub const RELAY_PATIENCE_SECS: u64 = 12;

/// The column the step names are padded to.
pub const STEP_WIDTH: usize = 14;

/// What one check concluded.
#[derive(Debug, Clone)]
pub enum Verdict {
    /// Working.
    Fine { detail: String },
    /// Worth knowing, but not broken.
    Note { detail: String },
    /// Broken, and what to do about it.
    Bad { detail: String, fix: String },
}

impl Verdict {
    /// Whether the verdict is that something is broken.
    pub fn is_bad(&self) -> (bad: bool)
        ensures
            bad == (*self is Bad),
    {
        match self {
            Verdict::Bad { .. } => true,
            _ => false,
        }
    }
}

/// `s` padded with spaces on the right to `width` characters, as `{:<width}`
/// pads; a longer text is left whole.
pub open spec fn padded(s: Seq<char>, width: nat) -> Seq<char> {
    if s.len() >= width {
        s
    } else {
        s + Seq::new((width - s.len()) as nat, |i: int| ' ')
    }
}

/// `s` padded to `width` characters.
pub fn pad(s: &str, width: usize) -> (p: String)
    ensures
        p@ == padded(s@, width as nat),
{
    let mut p = owned(s);
    let n = chars_of(s).len();
    let mut k: usize = n;
    while k < width
        invariant
            n == s@.len(),
            n <= k <= width || (n > width && k == n),
            p@ == s@ + Seq::new((k - n) as nat, |i: int| ' '),
        decreases width - k,
    {
        crate::text::push_char(&mut p, ' ');
        k = k + 1;
        assert(p@ =~= s@ + Seq::new((k - n) as nat, |i: int| ' '));
    }
    proof {
        if n >= width {
            assert(p@ =~= s@);
        }
    }
    p
}

/// The lines `doctor` prints for one check.
pub open spec fn verdict_text(step: Seq<char>, verdict: Verdict) -> Seq<Seq<char>> {
    match verdict {
        Verdict::Fine { detail } => seq!["  ok    "@ + padded(step, 14) + " "@ + detail@],
        Verdict::Note { detail } => seq!["  --    "@ + padded(step, 14) + " "@ + detail@],
        Verdict::Bad { detail, fix } => seq![
            "  FAIL  "@ + padded(step, 14) + " "@ + detail@,
            "        "@ + padded(Seq::empty(), 14) + " \u{2192} "@ + fix@,
        ],
    }
}

/// The texts of some strings.
pub open spec fn texts_of(lines: Seq<String>) -> Seq<Seq<char>> {
    lines.map_values(|l: String| l@)
}

/// The lines `doctor` prints for the check called `step`.
pub fn verdict_lines(step: &str, verdict: &Verdict) -> (lines: Vec<String>)
    ensures
        texts_of(lines@) == verdict_text(step@, *verdict),
{
    let mut lines: Vec<String> = Vec::new();
    match verdict {
        Verdict::Fine { detail } => {
            let mut l = owned("  ok    ");
            l.append(pad(step, STEP_WIDTH).as_str());
            l.append(" ");
            l.append(detail.as_str());
            lines.push(l);
        },
        Verdict::Note { detail } => {
            let mut l = owned("  --    ");
            l.append(pad(step, STEP_WIDTH).as_str());
            l.append(" ");
            l.append(detail.as_str());
            lines.push(l);
        },
        Verdict::Bad { detail, fix } => {
            let mut l = owned("  FAIL  ");
            l.append(pad(step, STEP_WIDTH).as_str());
            l.append(" ");
            l.append(detail.as_str());
            lines.push(l);
            let mut f = owned("        ");
            f.append(pad("", STEP_WIDTH).as_str());
            f.append(" \u{2192} ");
            f.append(fix.as_str());
            lines.push(f);
        },
    }
    proof {
        reveal_strlit("");
        assert(texts_of(lines@) =~= verdict_text(step@, *verdict));
    }
    lines
}

/// The comma-separated debug forms of `items`.
pub open spec fn debug_items(items: Seq<String>) -> Seq<char>
    decreases items.len(),
{
    if items.len() == 0 {
        Seq::empty()
    } else if items.len() == 1 {
        debug_of(items[0]@)
    } else {
        debug_items(items.drop_last()) + ", "@ + debug_of(items.last()@)
    }
}

/// `{:?}` of a list of texts: their debug forms, between brackets.
pub open spec fn debug_list_text(items: Seq<String>) -> Seq<char> {
    "["@ + debug_items(items) + "]"@
}

/// `{:?}` of a list of texts.
pub fn debug_list(items: &Vec<String>) -> (d: String)
    ensures
        d@ == debug_list_text(items@),
{
    let mut body = String::new();
    let mut i: usize = 0;
    while i < items.len()
        invariant
            i <= items@.len(),
            body@ == debug_items(items@.take(i as int)),
        decreases items@.len() - i,
    {
        proof {
            assert(items@.take(i + 1).drop_last() =~= items@.take(i as int));
            assert(items@.take(i + 1).last() == items@[i as int]);
        }
        if i > 0 {
            body.append(", ");
        } else {
            assert(items@.take(1)[0] == items@[0]);
        }
        body.append(debug_str(items[i].as_str()).as_str());
        proof {
            if i == 0 {
                assert(body@ =~= debug_items(items@.take(1)));
            }
        }
        i = i + 1;
    }
    assert(items@.take(items@.len() as int) =~= items@);
    let mut d = owned("[");
    d.append(body.as_str());
    d.append("]");
    d
}

/// The home check: `loaded` is what reading `network.toml` gave (its error's
/// text on failure), or `None` when the home directory does not exist.
pub open spec fn home_verdict_spec(home: Seq<char>, loaded: Option<Result<Network, String>>, v: Verdict) -> bool {
    match loaded {
        None => v matches Verdict::Bad { detail, fix } && detail@ == home + " does not exist"@ && fix@
            == "run `sirji init`"@,
        Some(Err(e)) => v matches Verdict::Bad { detail, fix } && detail@ == e@ && fix@
            == "run `sirji init`, or fix network.toml by hand"@,
        Some(Ok(net)) => match network_fault(net) {
            Some(f) => v matches Verdict::Bad { detail, fix } && detail@ == "network.toml is not usable: "@
                + crate::config::check_error_chain(f) && fix@ == "see `sirji net check`"@,
            None => v matches Verdict::Fine { detail } && detail@ == decimal(net.handshake_keys@.len())
                + " address(es), "@ + decimal(net.peers@.len()) + " peer(s), "@ + decimal(net.devices@.len())
                + " device(s)"@,
        },
    }
}

/// Is the home there, and does its `network.toml` load and check?
pub fn check_home(home: &str, loaded: Option<Result<Network, String>>) -> (v: Verdict)
    ensures
        home_verdict_spec(home@, loaded, v),
{
    match loaded {
        None => {
            let mut detail = owned(home);
            detail.append(" does not exist");
            Verdict::Bad { detail, fix: owned("run `sirji init`") }
        },
        Some(Err(e)) => Verdict::Bad { detail: e, fix: owned("run `sirji init`, or fix network.toml by hand") },
        Some(Ok(net)) => match net.check() {
            Err(f) => {
                let mut detail = owned("network.toml is not usable: ");
                detail.append(f.chain().as_str());
                Verdict::Bad { detail, fix: owned("see `sirji net check`") }
            },
            Ok(()) => {
                let mut detail = decimal_string(net.handshake_keys.len() as u64);
                detail.append(" address(es), ");
                detail.append(decimal_string(net.peers.len() as u64).as_str());
                detail.append(" peer(s), ");
                detail.append(decimal_string(net.devices.len() as u64).as_str());
                detail.append(" device(s)");
                Verdict::Fine { detail }
            },
        },
    }
}


/// The handshake key at `i` has a usable private key: it is an id52, and what
/// its file held (`contents[i]`) is 32 bytes whose public half is that key.
pub open spec fn key_usable(net: Network, contents: Seq<Option<Vec<u8>>>, i: int) -> bool {
    &&& i < contents.len()
    &&& crate::id52::decoding(net.handshake_keys@[i].key@) matches Ok(key)
    &&& contents[i] matches Some(c)
    &&& c@.len() == 32
    &&& public_of(c@) == key
}

/// The aliases of the handshake keys without a usable private key, in order.
pub open spec fn unusable_aliases(net: Network, contents: Seq<Option<Vec<u8>>>, n: int) -> Seq<String>
    decreases n,
{
    if n <= 0 {
        Seq::empty()
    } else if key_usable(net, contents, n - 1) {
        unusable_aliases(net, contents, n - 1)
    } else {
        unusable_aliases(net, contents, n - 1).push(net.handshake_keys@[n - 1].alias)
    }
}

/// Every key `network.toml` says we listen on must be one we can use: a
/// missing private key is silent otherwise (the address is advertised, peers
/// dial it, and nothing answers). `net` is the loaded network, if it loaded;
/// `contents[i]` is what the file of handshake key `i` held, read from the
/// store's path for it (`None`, or no entry: not readable, or the key is not
/// an id52).
pub fn check_keys(net: Option<&Network>, store: &Keystore, contents: &Vec<Option<Vec<u8>>>) -> (v: Verdict)
    ensures
        net is None ==> (v matches Verdict::Note { detail } && detail@ == "skipped: no readable network.toml"@),
        net matches Some(n) ==> {
            let missing = unusable_aliases(*n, contents@, n.handshake_keys@.len() as int);
            if missing.len() == 0 {
                v matches Verdict::Fine { detail } && detail@ == decimal(n.handshake_keys@.len())
                    + " private key(s), all readable"@
            } else {
                v matches Verdict::Bad { detail, fix } && detail@ == "no usable private key for "@ + debug_list_text(
                    missing,
                ) && fix@ == "restore the keys/ directory, or `sirji address new` and re-share"@
            }
        },
{
    let net = match net {
        None => {
            return Verdict::Note { detail: owned("skipped: no readable network.toml") };
        },
        Some(n) => n,
    };
    let mut missing: Vec<String> = Vec::new();
    let mut i: usize = 0;
    while i < net.handshake_keys.len()
        invariant
            i <= net.handshake_keys@.len(),
            missing@ == unusable_aliases(*net, contents@, i as int),
        decreases net.handshake_keys@.len() - i,
    {
        let usable = match decode(net.handshake_keys[i].key.as_str()) {
            Err(_) => false,
            Ok(key) => if i < contents.len() {
                match &contents[i] {
                    None => false,
                    Some(c) => store.secret(&key, Some(c.as_slice())).is_ok(),
                }
            } else {
                false
            },
        };
        assert(usable == key_usable(*net, contents@, i as int));
        if !usable {
            missing.push(net.handshake_keys[i].alias.clone());
        }
        i = i + 1;
    }
    if missing.len() == 0 {
        let mut detail = decimal_string(net.handshake_keys.len() as u64);
        detail.append(" private key(s), all readable");
        Verdict::Fine { detail }
    } else {
        let mut detail = owned("no usable private key for ");
        detail.append(debug_list(&missing).as_str());
        Verdict::Bad { detail, fix: owned("restore the keys/ directory, or `sirji address new` and re-share") }
    }
}

/// Is a daemon up? Not running is a note, not a failure: doctor exists for
/// when nothing is running. A socket left from a killed daemon is a note too,
/// since the daemon clears it before binding.
pub fn check_daemon(socket_exists: bool, connects: bool) -> (v: Verdict)
    ensures
        !socket_exists ==> (v matches Verdict::Note { detail } && detail@ == "not running (`sirji daemon` starts it)"@),
        socket_exists && connects ==> (v matches Verdict::Fine { detail } && detail@ == "running"@),
        socket_exists && !connects ==> (v matches Verdict::Note { detail } && detail@
            == "not running \u{2014} a socket is left over from last time, which `sirji daemon` clears"@),
{
    if !socket_exists {
        Verdict::Note { detail: owned("not running (`sirji daemon` starts it)") }
    } else if connects {
        Verdict::Fine { detail: owned("running") }
    } else {
        Verdict::Note {
            detail: owned("not running \u{2014} a socket is left over from last time, which `sirji daemon` clears"),
        }
    }
}

/// The DNS check, given the probe names that did not resolve, in order.
pub fn check_dns(failed: &Vec<String>) -> (v: Verdict)
    ensures
        failed@.len() == 0 ==> (v matches Verdict::Fine { detail } && detail@
            == "resolved dns.iroh.link, stun.l.google.com"@),
        failed@.len() > 0 ==> (v matches Verdict::Bad { detail, fix } && detail@ == "cannot resolve "@
            + debug_list_text(failed@) && fix@
            == "a network that resolves nothing usually wants a proxy; sirji needs real DNS and real UDP"@),
{
    if failed.len() == 0 {
        Verdict::Fine { detail: owned("resolved dns.iroh.link, stun.l.google.com") }
    } else {
        let mut detail = owned("cannot resolve ");
        detail.append(debug_list(failed).as_str());
        Verdict::Bad {
            detail,
            fix: owned("a network that resolves nothing usually wants a proxy; sirji needs real DNS and real UDP"),
        }
    }
}

/// The UDP check, given how the STUN probe went: the round trip in
/// milliseconds, or what went wrong.
pub fn check_udp(probe: Result<u64, String>) -> (v: Verdict)
    ensures
        probe matches Ok(ms) ==> (v matches Verdict::Fine { detail } && detail@ == STUN_SERVER@ + " answered in "@
            + decimal(ms as nat) + "ms"@),
        probe matches Err(e) ==> (v matches Verdict::Bad { detail, fix } && detail@ == "no answer from "@
            + STUN_SERVER@ + ": "@ + e@ && fix@
            == "QUIC needs outbound UDP. If this is a corporate network, this is the thing to ask for \u{2014} not a proxy exception"@),
{
    match probe {
        Ok(ms) => {
            let mut detail = owned(STUN_SERVER);
            detail.append(" answered in ");
            detail.append(decimal_string(ms).as_str());
            detail.append("ms");
            Verdict::Fine { detail }
        },
        Err(e) => {
            let mut detail = owned("no answer from ");
            detail.append(STUN_SERVER);
            detail.append(": ");
            detail.append(e.as_str());
            Verdict::Bad {
                detail,
                fix: owned(
                    "QUIC needs outbound UDP. If this is a corporate network, this is the thing to ask for \u{2014} not a proxy exception",
                ),
            }
        },
    }
}

/// The advice for a relay that failed with `error`: the fixes are unrelated,
/// so it depends on how it failed.
pub open spec fn relay_advice_text(error: Seq<char>) -> Seq<char> {
    let lower = lowercase_of(error);
    if contains(lower, "certificate"@) || contains(lower, "unknownissuer"@) || contains(lower, "tls"@) {
        "TLS was intercepted and the interceptor's CA is not trusted here. Add it to the system store, or point SIRJI_EXTRA_CA at the PEM."@
    } else if contains(lower, "403"@) || contains(lower, "forbidden"@) || contains(lower, "blocked"@) {
        "a filter is blocking this hostname by category, whatever the certificate says. Run a relay on a domain your network already trusts and set SIRJI_RELAY to it."@
    } else {
        "if UDP works but no relay does, coordination is what is blocked. Run your own relay and set SIRJI_RELAY \u{2014} peers still connect directly."@
    }
}

/// The advice for a relay that failed with `error`.
pub fn relay_advice(error: &str) -> (advice: String)
    ensures
        advice@ == relay_advice_text(error@),
{
    let lower = chars_of(to_lowercase(error).as_str());
    if find(&lower, &chars_of("certificate")) || find(&lower, &chars_of("unknownissuer")) || find(
        &lower,
        &chars_of("tls"),
    ) {
        owned(
            "TLS was intercepted and the interceptor's CA is not trusted here. Add it to the system store, or point SIRJI_EXTRA_CA at the PEM.",
        )
    } else if find(&lower, &chars_of("403")) || find(&lower, &chars_of("forbidden")) || find(
        &lower,
        &chars_of("blocked"),
    ) {
        owned(
            "a filter is blocking this hostname by category, whatever the certificate says. Run a relay on a domain your network already trusts and set SIRJI_RELAY to it.",
        )
    } else {
        owned(
            "if UDP works but no relay does, coordination is what is blocked. Run your own relay and set SIRJI_RELAY \u{2014} peers still connect directly.",
        )
    }
}

/// The relays are skipped, by choice: `SIRJI_RELAY` was set to nothing.
pub open spec fn relays_skipped(settings: Settings, relay_env_set: bool) -> bool {
    (settings.relay@.len() > 0 || relay_env_set) && settings.relay@.len() == 0
}

/// Relays go unprobed only by choice: exactly when `SIRJI_RELAY` was set and
/// the relay list it gave is empty. A non-empty relay list is always probed,
/// and so are the defaults when nothing was set.
pub proof fn lemma_relays_skipped_only_by_choice(settings: Settings, relay_env_set: bool)
    ensures
        relays_skipped(settings, relay_env_set) <==> (relay_env_set && settings.relay@.len() == 0),
        settings.relay@.len() > 0 ==> !relays_skipped(settings, relay_env_set),
        !relay_env_set ==> !relays_skipped(settings, relay_env_set),
{
}

/// The verdict on one relay status iroh reported.
pub open spec fn relay_status_verdict(r: RelayInfo, v: Verdict) -> bool {
    if r.connected {
        v matches Verdict::Fine { detail } && detail@ == r.url@ + " connected"@
    } else {
        let why = match r.error {
            Some(e) => e@,
            None => "no answer"@,
        };
        v matches Verdict::Bad { detail, fix } && detail@ == r.url@ + " \u{2014} "@ + why && fix@
            == relay_advice_text(why)
    }
}

/// Whether relays should be probed at all, given the settings and whether
/// `SIRJI_RELAY` was set.
pub fn relays_wanted(settings: &Settings, relay_env_set: bool) -> (wanted: bool)
    ensures
        wanted == !relays_skipped(*settings, relay_env_set),
        wanted == (settings.relay@.len() > 0 || !relay_env_set),
{
    !(settings.relays_configured(relay_env_set) && settings.relay.len() == 0)
}

/// The relay check. When relays are wanted, `probe` is what a throwaway
/// endpoint made of them: the home relay statuses iroh reported within the
/// patience, or why the endpoint could not be bound.
pub fn check_relays(settings: &Settings, relay_env_set: bool, probe: Result<Vec<RelayInfo>, String>) -> (verdicts: Vec<Verdict>)
    ensures
        relays_skipped(*settings, relay_env_set) <==> (relay_env_set && settings.relay@.len() == 0),
        relays_skipped(*settings, relay_env_set) ==> verdicts@.len() == 1 && (verdicts@[0] matches Verdict::Note {
            detail,
        } && detail@ == "none configured \u{2014} direct connectivity only, by choice"@),
        !relays_skipped(*settings, relay_env_set) ==> match probe {
            Err(e) => verdicts@.len() == 1 && (verdicts@[0] matches Verdict::Bad { detail, fix } && detail@
                == "cannot bind an endpoint at all: "@ + e@ && fix@
                == "this is local \u{2014} check whether anything can open a UDP socket"@),
            Ok(statuses) => if statuses@.len() == 0 {
                verdicts@.len() == 1 && (verdicts@[0] matches Verdict::Bad { detail, fix } && detail@
                    == "no relay connected within 12s"@ && fix@ == relay_advice_text(Seq::empty()))
            } else {
                verdicts@.len() == statuses@.len() && forall|i: int|
                    0 <= i < statuses@.len() ==> relay_status_verdict(#[trigger] statuses@[i], verdicts@[i])
            },
        },
{
    let mut verdicts: Vec<Verdict> = Vec::new();
    if !relays_wanted(settings, relay_env_set) {
        verdicts.push(Verdict::Note { detail: owned("none configured \u{2014} direct connectivity only, by choice") });
        return verdicts;
    }
    let statuses = match probe {
        Err(e) => {
            let mut detail = owned("cannot bind an endpoint at all: ");
            detail.append(e.as_str());
            verdicts.push(
                Verdict::Bad {
                    detail,
                    fix: owned("this is local \u{2014} check whether anything can open a UDP socket"),
                },
            );
            return verdicts;
        },
        Ok(s) => s,
    };
    let mut i: usize = 0;
    while i < statuses.len()
        invariant
            i <= statuses@.len(),
            verdicts@.len() == i,
            forall|k: int| 0 <= k < i ==> relay_status_verdict(#[trigger] statuses@[k], verdicts@[k]),
        decreases statuses@.len() - i,
    {
        let r = &statuses[i];
        let mut detail = owned(r.url.as_str());
        if r.connected {
            detail.append(" connected");
            verdicts.push(Verdict::Fine { detail });
        } else {
            let why = match &r.error {
                Some(e) => owned(e.as_str()),
                None => owned("no answer"),
            };
            detail.append(" \u{2014} ");
            detail.append(why.as_str());
            let fix = relay_advice(why.as_str());
            verdicts.push(Verdict::Bad { detail, fix });
        }
        i = i + 1;
    }
    if statuses.len() == 0 {
        let mut detail = owned("no relay connected within ");
        detail.append(decimal_string(RELAY_PATIENCE_SECS).as_str());
        detail.append("s");
        proof {
            reveal_strlit("no relay connected within ");
            reveal_strlit("s");
            reveal_strlit("no relay connected within 12s");
            assert(decimal(12) =~= seq!['1', '2']) by {
                reveal_with_fuel(decimal, 2);
            }
            assert(detail@ =~= "no relay connected within 12s"@);
        }
        let fix = relay_advice("");
        proof {
            reveal_strlit("");
            assert(""@ =~= Seq::<char>::empty());
            assert(fix@ == relay_advice_text(Seq::empty()));
        }
        verdicts.push(Verdict::Bad { detail, fix });
    }
    verdicts
}

/// The closing lines of the report, after every check: no UDP is its own
/// verdict (nothing else matters until that changes); otherwise the count of
/// problems and what usually fixes them; or that nothing is wrong.
pub open spec fn closing_text(udp_broken: bool, broken: nat) -> Seq<Seq<char>> {
    if udp_broken {
        seq![
            "UDP cannot get out, so QUIC cannot work on this network at all."@,
            "Everything else is beside the point until that changes."@,
        ]
    } else if broken > 0 {
        let count = if broken == 1 {
            "1 problem"@
        } else {
            decimal(broken) + " problems"@
        };
        seq![
            count + " above. UDP works, so this is fixable:"@,
            "a relay you run \u{2014} on a domain your network already trusts \u{2014} is"@,
            "usually the whole answer. Set SIRJI_RELAY to it."@,
        ]
    } else {
        seq!["nothing wrong here."@]
    }
}

/// The closing lines of the report.
pub fn closing_lines(udp_broken: bool, broken: u64) -> (lines: Vec<String>)
    ensures
        texts_of(lines@) == closing_text(udp_broken, broken as nat),
{
    let mut lines: Vec<String> = Vec::new();
    if udp_broken {
        lines.push(owned("UDP cannot get out, so QUIC cannot work on this network at all."));
        lines.push(owned("Everything else is beside the point until that changes."));
    } else if broken > 0 {
        let mut first = if broken == 1 {
            owned("1 problem")
        } else {
            let mut c = decimal_string(broken);
            c.append(" problems");
            c
        };
        first.append(" above. UDP works, so this is fixable:");
        lines.push(first);
        lines.push(owned("a relay you run \u{2014} on a domain your network already trusts \u{2014} is"));
        lines.push(owned("usually the whole answer. Set SIRJI_RELAY to it."));
    } else {
        lines.push(owned("nothing wrong here."));
    }
    assert(texts_of(lines@) =~= closing_text(udp_broken, broken as nat));
    lines
}

} // verus!
