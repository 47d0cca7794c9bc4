//! What the device decides when a peer knocks: whether the ticket admits
//! them, what a request names, and how a listing is ordered. Reading the
//! stream, the files and the clock is the caller's part.

use vstd::prelude::*;

use crate::keys::PublicKey;
use crate::order::{lemma_precedes_asymmetric, lemma_precedes_transitive, precedes, text_precedes};
use crate::text::{chars_of, debug_of, debug_str, owned, split_once, string_of};
use crate::ticket::{error_details, fault_of, ticket_error_text, ticket_fault, Ticket, TicketError};
use crate::tsf::config::{components, named_components, Config, ResolveError};
use crate::tsf::proto::{Entry, Knock};

verus! {

/// Why the device turned a caller or a request away.
#[derive(Debug, Clone)]
pub enum Refusal {
    /// The caller knocked without a ticket.
    NoTicket,
    /// The ticket failed a check.
    BadTicket { error: TicketError },
    /// The ticket is good, but for another device.
    WrongDevice { ticket_for: String, ours: String },
    /// The requested path could not be resolved inside the served root.
    Unresolved { error: ResolveError },
    /// A file was asked for, but the path is not a file.
    NotAFile { path: String },
    /// A listing was asked for, but the path is not a directory.
    NotADirectory { path: String },
}

/// What a refused path says.
pub open spec fn resolve_error_text(e: ResolveError) -> Seq<char> {
    match e {
        ResolveError::NoHome => "neither TSF_HOME nor HOME is set; cannot find the device home"@,
        ResolveError::RootMissing { root } => "the served root "@ + root@ + " does not exist"@,
        ResolveError::NoSuchPath { relative } => "no such path: "@ + relative@,
        ResolveError::Outside { relative } => relative@ + " is outside the served directory"@,
    }
}

impl ResolveError {
    /// What the refusal says.
    pub fn message(&self) -> (m: String)
        ensures
            m@ == resolve_error_text(*self),
    {
        match self {
            ResolveError::NoHome => owned("neither TSF_HOME nor HOME is set; cannot find the device home"),
            ResolveError::RootMissing { root } => {
                let mut m = owned("the served root ");
                m.append(root.as_str());
                m.append(" does not exist");
                m
            },
            ResolveError::NoSuchPath { relative } => {
                let mut m = owned("no such path: ");
                m.append(relative.as_str());
                m
            },
            ResolveError::Outside { relative } => {
                let mut m = owned(relative.as_str());
                m.append(" is outside the served directory");
                m
            },
        }
    }
}

/// What a refused caller or request is told.
pub open spec fn refusal_text(r: Refusal) -> Seq<char> {
    match r {
        Refusal::NoTicket => "no ticket \u{2014} resolve us as `name@peer` instead of dialling directly"@,
        Refusal::BadTicket { error } => ticket_error_text(error),
        Refusal::WrongDevice { ticket_for, ours } => "this ticket is for `"@ + ticket_for@ + "`, we are `"@ + ours@
            + "`"@,
        Refusal::Unresolved { error } => resolve_error_text(error),
        Refusal::NotAFile { path } => path@ + " is not a file"@,
        Refusal::NotADirectory { path } => path@ + " is not a directory"@,
    }
}

impl Refusal {
    /// What the refusal says.
    pub fn message(&self) -> (m: String)
        ensures
            m@ == refusal_text(*self),
    {
        match self {
            Refusal::NoTicket => owned("no ticket \u{2014} resolve us as `name@peer` instead of dialling directly"),
            Refusal::BadTicket { error } => error.message(),
            Refusal::WrongDevice { ticket_for, ours } => {
                let mut m = owned("this ticket is for `");
                m.append(ticket_for.as_str());
                m.append("`, we are `");
                m.append(ours.as_str());
                m.append("`");
                m
            },
            Refusal::Unresolved { error } => error.message(),
            Refusal::NotAFile { path } => {
                let mut m = owned(path.as_str());
                m.append(" is not a file");
                m
            },
            Refusal::NotADirectory { path } => {
                let mut m = owned(path.as_str());
                m.append(" is not a directory");
                m
            },
        }
    }
}

/// Admit the key `caller` at time `now`, on the knock it sent. A knock with
/// no ticket is refused, deliberately: a device's id52 is handed to everyone
/// who resolves its name, so accepting un-ticketed dials would make the
/// ticket decorative. A ticket must pass every check against our parents,
/// and be for this device by name.
pub fn welcome_knock(config: &Config, caller: &PublicKey, knock: &Knock, now: u64) -> (verdict: Result<(), Refusal>)
    ensures
        knock.ticket is None ==> verdict matches Err(Refusal::NoTicket),
        knock.ticket matches Some(t) ==> match ticket_fault(t, caller@, config.parent@, now) {
            Some(f) => verdict matches Err(Refusal::BadTicket { error }) && fault_of(error) == f && error_details(
                error,
                t,
                caller@,
                now,
            ),
            None => if t.name@ == config.name@ {
                verdict is Ok
            } else {
                verdict matches Err(Refusal::WrongDevice { ticket_for, ours }) && ticket_for == t.name && ours
                    == config.name
            },
        },
{
    match &knock.ticket {
        None => Err(Refusal::NoTicket),
        Some(ticket) => match ticket.verify_at(caller, config.parent.as_slice(), now) {
            Err(error) => Err(Refusal::BadTicket { error }),
            Ok(()) => {
                if ticket.name == config.name {
                    Ok(())
                } else {
                    Err(Refusal::WrongDevice { ticket_for: ticket.name.clone(), ours: config.name.clone() })
                }
            },
        },
    }
}

/// A target of the form `name@peer`, split at its first `@` into the
/// device's name and the peer's alias.
pub fn name_at_peer(target: &str) -> (parts: Result<(String, String), String>)
    ensures
        parts is Err <==> !target@.contains('@'),
        parts matches Ok((name, peer)) ==> target@ == name@ + seq!['@'] + peer@ && !name@.contains('@'),
        parts matches Err(m) ==> m@ == debug_of(target@) + " is not name@peer"@,
{
    match split_once(target, '@') {
        Some((name, peer)) => Ok((name, peer)),
        None => {
            let mut m = debug_str(target);
            m.append(" is not name@peer");
            Err(m)
        },
    }
}

/// The path a listing request names: the root itself when it names none.
pub fn listing_path(path: &str) -> (target: String)
    ensures
        target@ == (if path@.len() == 0 {
            "."@
        } else {
            path@
        }),
{
    let cs = chars_of(path);
    if cs.len() == 0 {
        owned(".")
    } else {
        string_of(&cs)
    }
}

/// The name a served file goes by: the last component of its canonical path,
/// as std's `Path::file_name` gives it (none for the root, `.` or `..`).
pub open spec fn file_name(path: Seq<char>) -> Option<Seq<char>> {
    let c = named_components(path);
    if c.len() == 0 || c.last() == seq!['.'] || c.last() == seq!['.', '.'] {
        None
    } else {
        Some(c.last())
    }
}

/// The name a served file is sent under: its canonical path's file name, or
/// the requested path when that has none.
pub fn served_name(canonical: &str, path: &str) -> (name: String)
    ensures
        name@ == (match file_name(canonical@) {
            Some(n) => n,
            None => path@,
        }),
{
    let parts = components(&chars_of(canonical));
    let n = parts.len();
    if n == 0 {
        return string_of(&chars_of(path));
    }
    let last = &parts[n - 1];
    let dot = last.len() == 1 && last[0] == '.';
    let dotdot = last.len() == 2 && last[0] == '.' && last[1] == '.';
    proof {
        let c = named_components(canonical@);
        assert(last@ == c.last());
        if last@.len() == 1 {
            assert(dot == (last@ =~= seq!['.']));
        } else {
            assert(last@.len() != seq!['.'].len());
        }
        if last@.len() == 2 {
            assert(dotdot == (last@ =~= seq!['.', '.']));
        } else {
            assert(last@.len() != seq!['.', '.'].len());
        }
    }
    if dot || dotdot {
        string_of(&chars_of(path))
    } else {
        string_of(last)
    }
}

/// Of two entries, `a` is listed first: directories before files, and by
/// name within each.
pub open spec fn listed_before(a: Entry, b: Entry) -> bool {
    (a.dir && !b.dir) || (a.dir == b.dir && precedes(a.name@, b.name@))
}

/// No entry comes after one it should precede.
pub open spec fn in_listing_order(entries: Seq<Entry>) -> bool {
    forall|i: int, j: int| 0 <= i < j < entries.len() ==> !listed_before(#[trigger] entries[j], #[trigger] entries[i])
}

proof fn lemma_listed_before_asymmetric(a: Entry, b: Entry)
    ensures
        listed_before(a, b) ==> !listed_before(b, a),
{
    lemma_precedes_asymmetric(a.name@, b.name@);
}

proof fn lemma_listed_before_transitive(a: Entry, b: Entry, c: Entry)
    requires
        listed_before(a, b),
        listed_before(b, c),
    ensures
        listed_before(a, c),
{
    if a.dir == b.dir && b.dir == c.dir {
        lemma_precedes_transitive(a.name@, b.name@, c.name@);
    }
}

/// Putting `e` before the first entry it should precede keeps the order.
proof fn lemma_insert_keeps_listing_order(s: Seq<Entry>, j: int, e: Entry)
    requires
        in_listing_order(s),
        0 <= j <= s.len(),
        forall|k: int| 0 <= k < j ==> !listed_before(e, #[trigger] s[k]),
        j < s.len() ==> listed_before(e, s[j]),
    ensures
        in_listing_order(s.insert(j, e)),
{
    s.insert_ensures(j, e);
    let t = s.insert(j, e);
    assert forall|a: int, b: int| 0 <= a < b < t.len() implies !listed_before(#[trigger] t[b], #[trigger] t[a]) by {
        if b < j {
        } else if b == j {
            assert(t[a] == s[a]);
        } else if a < j {
            assert(t[b] == s[b - 1]);
            assert(t[a] == s[a]);
        } else if a == j {
            assert(t[b] == s[b - 1]);
            lemma_listed_before_asymmetric(e, s[j]);
            if b - 1 > j && listed_before(s[b - 1], e) {
                lemma_listed_before_transitive(s[b - 1], e, s[j]);
            }
        } else {
            assert(t[b] == s[b - 1]);
            assert(t[a] == s[a - 1]);
        }
    }
}

/// Whether `a` is listed before `b`.
fn entry_before(a: &Entry, b: &Entry) -> (before: bool)
    ensures
        before == listed_before(*a, *b),
{
    if a.dir != b.dir {
        return a.dir;
    }
    let an = chars_of(a.name.as_str());
    let bn = chars_of(b.name.as_str());
    text_precedes(&an, &bn)
}

/// A listing in order: directories first, then by name. The entries are the
/// same ones, each as often as before.
pub fn sort_listing(entries: Vec<Entry>) -> (sorted: Vec<Entry>)
    ensures
        in_listing_order(sorted@),
        sorted@.to_multiset() == entries@.to_multiset(),
{
    broadcast use vstd::seq_lib::group_to_multiset_ensures;

    let mut sorted: Vec<Entry> = Vec::new();
    let mut i: usize = 0;
    while i < entries.len()
        invariant
            i <= entries@.len(),
            in_listing_order(sorted@),
            sorted@.to_multiset() == entries@.take(i as int).to_multiset(),
        decreases entries@.len() - i,
    {
        let e = &entries[i];
        let mut j: usize = 0;
        while j < sorted.len() && !entry_before(e, &sorted[j])
            invariant
                j <= sorted@.len(),
                forall|k: int| 0 <= k < j ==> !listed_before(*e, #[trigger] sorted@[k]),
            decreases sorted@.len() - j,
        {
            j = j + 1;
        }
        proof {
            lemma_insert_keeps_listing_order(sorted@, j as int, *e);
            vstd::seq_lib::to_multiset_insert(sorted@, j as int, *e);
            assert(entries@.take(i + 1) =~= entries@.take(i as int).push(entries@[i as int]));
            vstd::seq_lib::to_multiset_build(entries@.take(i as int), entries@[i as int]);
        }
        sorted.insert(j, Entry { name: e.name.clone(), dir: e.dir, bytes: e.bytes });
        i = i + 1;
    }
    assert(entries@.take(entries@.len() as int) =~= entries@);
    sorted
}

} // verus!
