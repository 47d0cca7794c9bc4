//! `config.toml` — how this instance runs.
//!
//! Deliberately a separate file from `network.toml`. That one holds
//! cryptographic facts — whose key is whose — and is the same wherever you carry
//! it. This holds operational choices, which are properties of where a node
//! happens to be running: which relay is reachable from here, which CA this
//! network makes you trust.
//!
//! Every setting can be overridden by an environment variable, so a single run
//! can differ without editing anything. The environment's values are handed in
//! by the caller.

use vstd::prelude::*;
use vstd::string::StrSliceExecFns;

use crate::config::{clone_opt, clone_strings};
use crate::text::{chars_of, join, joined, split, split_on, string_of, trim, trimmed};

verus! {

/// The settings file, in the home directory.
pub const FILE: &'static str = "config.toml";

/// Relays to use, comma-separated; set but empty means none.
pub const RELAY_ENV: &'static str = "SIRJI_RELAY";

/// A token for access-controlled relays.
pub const RELAY_TOKEN_ENV: &'static str = "SIRJI_RELAY_TOKEN";

/// Extra CA certificates to trust: a PEM file, or a directory of them.
pub const EXTRA_CA_ENV: &'static str = "SIRJI_EXTRA_CA";

/// How this instance runs.
#[derive(Debug, Clone)]
pub struct Settings {
    /// Relays to use instead of iroh's defaults. Empty means direct only.
    pub relay: Vec<String>,
    /// Presented to access-controlled relays.
    pub relay_token: Option<String>,
    /// Extra CA certificates to trust: a PEM file, or a directory of them.
    pub extra_ca: Option<String>,
}

impl Default for Settings {
    fn default() -> (settings: Settings)
        ensures
            settings.relay@.len() == 0,
            settings.relay_token is None,
            settings.extra_ca is None,
    {
        Settings { relay: Vec::new(), relay_token: None, extra_ca: None }
    }
}

/// The non-empty pieces among `pieces`, each trimmed of whitespace, in order.
pub open spec fn trimmed_nonempty(pieces: Seq<Seq<char>>) -> Seq<Seq<char>>
    decreases pieces.len(),
{
    if pieces.len() == 0 {
        Seq::empty()
    } else {
        let rest = trimmed_nonempty(pieces.drop_last());
        let t = trimmed(pieces.last());
        if t.len() == 0 {
            rest
        } else {
            rest.push(t)
        }
    }
}

/// The relays a `SIRJI_RELAY` value names: split at commas, each trimmed, the
/// empty ones dropped.
pub open spec fn relays_named(value: Seq<char>) -> Seq<Seq<char>> {
    trimmed_nonempty(split_on(value, ','))
}

/// The texts of some strings.
pub open spec fn texts(v: Seq<String>) -> Seq<Seq<char>> {
    v.map_values(|s: String| s@)
}

/// The relays that a `SIRJI_RELAY` value names.
pub fn relays_from(value: &str) -> (relays: Vec<String>)
    ensures
        texts(relays@) == relays_named(value@),
{
    let cs = chars_of(value);
    let pieces = split(&cs, ',');
    let ghost all = split_on(value@, ',');
    let mut relays: Vec<String> = Vec::new();
    let mut i: usize = 0;
    while i < pieces.len()
        invariant
            i <= pieces@.len(),
            pieces@.len() == all.len(),
            forall|k: int| 0 <= k < pieces@.len() ==> #[trigger] pieces@[k]@ == all[k],
            texts(relays@) == trimmed_nonempty(all.take(i as int)),
        decreases pieces@.len() - i,
    {
        let t = trim(&pieces[i]);
        proof {
            assert(all.take(i + 1).drop_last() =~= all.take(i as int));
            assert(all.take(i + 1).last() == pieces@[i as int]@);
        }
        if t.len() > 0 {
            let ghost before = relays@;
            relays.push(string_of(&t));
            assert(texts(relays@) =~= texts(before).push(t@));
        }
        i = i + 1;
    }
    assert(all.take(pieces@.len() as int) =~= all);
    relays
}

/// A copy of `s`.
fn copy_settings(s: &Settings) -> (c: Settings)
    ensures
        c.relay@ == s.relay@,
        c.relay_token == s.relay_token,
        c.extra_ca == s.extra_ca,
{
    Settings { relay: clone_strings(&s.relay), relay_token: clone_opt(&s.relay_token), extra_ca: clone_opt(&s.extra_ca) }
}

impl Settings {
    /// Where the settings file lives in `home`.
    pub fn path_in(home: &str) -> (path: String)
        ensures
            path@ == joined(home@, FILE@),
    {
        join(home, FILE)
    }

    /// Let the environment override: `relay` is `SIRJI_RELAY`,
    /// `relay_token` is `SIRJI_RELAY_TOKEN`, `extra_ca` is `SIRJI_EXTRA_CA`,
    /// each `None` when unset. A set relay list replaces the file's (set but
    /// empty means none); an empty token is ignored.
    pub fn apply_env(&mut self, relay: Option<String>, relay_token: Option<String>, extra_ca: Option<String>)
        ensures
            relay is Some ==> texts(final(self).relay@) == relays_named(relay->0@),
            relay is None ==> final(self).relay@ == old(self).relay@,
            relay_token is Some && relay_token->0@.len() > 0 ==> final(self).relay_token == relay_token,
            !(relay_token is Some && relay_token->0@.len() > 0) ==> final(self).relay_token == old(self).relay_token,
            extra_ca is Some ==> final(self).extra_ca == extra_ca,
            extra_ca is None ==> final(self).extra_ca == old(self).extra_ca,
    {
        if let Some(value) = relay {
            self.relay = relays_from(value.as_str());
        }
        if let Some(token) = relay_token {
            if token.as_str().unicode_len() > 0 {
                self.relay_token = Some(token);
            }
        }
        if let Some(path) = extra_ca {
            self.extra_ca = Some(path);
        }
    }

    /// Whether relays were configured at all: some are listed, or
    /// `SIRJI_RELAY` was set (`relay_env_set`), even to nothing. An empty value
    /// means "no relays", which differs from "not configured".
    pub fn relays_configured(&self, relay_env_set: bool) -> (configured: bool)
        ensures
            configured == (self.relay@.len() > 0 || relay_env_set),
    {
        self.relay.len() > 0 || relay_env_set
    }

    /// Make these the settings every endpoint binds with, in the process-wide
    /// `slot`. Only the first activation counts; later ones are ignored.
    pub fn activate(self, slot: &mut Option<Settings>)
        ensures
            old(slot).is_some() ==> *final(slot) == *old(slot),
            old(slot).is_none() ==> *final(slot) == Some(self),
    {
        if slot.is_none() {
            *slot = Some(self);
        }
    }

    /// What endpoints should bind with: the activated settings, or, when
    /// nothing has been activated, the defaults with the environment applied.
    pub fn active(
        slot: &Option<Settings>,
        relay: Option<String>,
        relay_token: Option<String>,
        extra_ca: Option<String>,
    ) -> (settings: Settings)
        ensures
            slot matches Some(s) ==> settings.relay@ == s.relay@ && settings.relay_token == s.relay_token
                && settings.extra_ca == s.extra_ca,
            slot is None ==> {
                &&& relay is Some ==> texts(settings.relay@) == relays_named(relay->0@)
                &&& relay is None ==> settings.relay@.len() == 0
                &&& settings.relay_token == (if relay_token is Some && relay_token->0@.len() > 0 {
                    relay_token
                } else {
                    None
                })
                &&& settings.extra_ca == extra_ca
            },
    {
        match slot {
            Some(s) => copy_settings(s),
            None => {
                let mut settings = Settings::default();
                settings.apply_env(relay, relay_token, extra_ca);
                settings
            },
        }
    }
}

} // verus!
