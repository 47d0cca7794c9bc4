//! How a device comes to be: the arguments of `init`, the hello it enrols
//! with, the configuration it keeps once its parent welcomes it — and, as a
//! client, how it decides whom to dial.

use vstd::prelude::*;

use crate::config::clone_strings;
use crate::proto::{Hello, Invite, Welcome};
use crate::text::{joined, join, owned, split_once, str_eq};
use crate::tsf::config::Config;

verus! {

/// The arguments of `init`.
#[derive(Debug, Clone)]
pub struct InitArgs {
    /// `--parent <invite>`.
    pub parent: Option<String>,
    /// `--name <name>`.
    pub name: Option<String>,
    /// `--root <dir>`.
    pub root: Option<String>,
}

/// What `args[i..]` make of `acc`: each of `--parent`, `--name` and `--root`
/// takes the argument after it (none when it is the last), and anything else
/// is refused by its text.
pub open spec fn init_args_from(args: Seq<String>, i: int, acc: InitArgs) -> Result<InitArgs, Seq<char>>
    decreases args.len() + 1 - i,
{
    if i >= args.len() || i < 0 {
        Ok(acc)
    } else {
        let value = if i + 1 < args.len() {
            Some(args[i + 1])
        } else {
            None
        };
        if args[i]@ == "--parent"@ {
            init_args_from(args, i + 2, InitArgs { parent: value, ..acc })
        } else if args[i]@ == "--name"@ {
            init_args_from(args, i + 2, InitArgs { name: value, ..acc })
        } else if args[i]@ == "--root"@ {
            init_args_from(args, i + 2, InitArgs { root: value, ..acc })
        } else {
            Err(args[i]@)
        }
    }
}

/// Read the arguments of `init`; the error is the first argument not
/// recognised.
pub fn parse_init_args(args: &Vec<String>) -> (parsed: Result<InitArgs, String>)
    ensures
        match init_args_from(args@, 0, InitArgs { parent: None, name: None, root: None }) {
            Ok(a) => parsed matches Ok(p) && p == a,
            Err(other) => parsed matches Err(m) && m@ == "unrecognised argument: "@ + other,
        },
{
    let mut acc = InitArgs { parent: None, name: None, root: None };
    let mut i: usize = 0;
    while i < args.len()
        invariant
            i <= args@.len(),
            init_args_from(args@, 0, InitArgs { parent: None, name: None, root: None }) == init_args_from(
                args@,
                i as int,
                acc,
            ),
        decreases args@.len() - i,
    {
        let value = if i + 1 < args.len() {
            Some(args[i + 1].clone())
        } else {
            None
        };
        let arg = args[i].as_str();
        if str_eq(arg, "--parent") {
            acc = InitArgs { parent: value, ..acc };
        } else if str_eq(arg, "--name") {
            acc = InitArgs { name: value, ..acc };
        } else if str_eq(arg, "--root") {
            acc = InitArgs { root: value, ..acc };
        } else {
            let mut m = owned("unrecognised argument: ");
            m.append(arg);
            return Err(m);
        }
        if i + 1 < args.len() {
            i = i + 2;
        } else {
            assert(init_args_from(args@, i + 2, acc) == init_args_from(args@, args@.len() as int, acc));
            i = args.len();
        }
    }
    Ok(acc)
}

/// What `init` says when no invite was given.
pub open spec fn missing_parent_text() -> Seq<char> {
    "--parent <invite> is required; get one with `sirji device invite <name>`"@
}

/// The invite `init` was given, or why it cannot go on.
pub fn invite_given(args: &InitArgs) -> (invite: Result<String, String>)
    ensures
        args.parent matches Some(p) ==> invite == Ok::<String, String>(p),
        args.parent is None ==> (invite matches Err(m) && m@ == missing_parent_text()),
{
    match &args.parent {
        Some(p) => Ok(p.clone()),
        None => Err(owned("--parent <invite> is required; get one with `sirji device invite <name>`")),
    }
}

/// The directory a device serves: the one given, else `served` in its home.
pub fn served_root(home: &str, root: &Option<String>) -> (dir: String)
    ensures
        root matches Some(r) ==> dir == r,
        root is None ==> dir@ == joined(home@, "served"@),
{
    match root {
        Some(r) => r.clone(),
        None => join(home, "served"),
    }
}

/// The hello a device enrols with: it presents the identity its parent minted
/// for the invite, and gives its own key as its one address.
pub fn enrol_hello(invite: &Invite, key: &String) -> (hello: Hello)
    ensures
        hello matches Hello::Invited { invited_to, addresses, dns } && invited_to == invite.identity
            && addresses@ == seq![*key] && dns@.len() == 0,
{
    let mut addresses: Vec<String> = Vec::new();
    addresses.push(key.clone());
    Hello::Invited { invited_to: invite.identity.clone(), addresses, dns: Vec::new() }
}

/// The configuration a device keeps once its parent answers: welcomed, it
/// takes the name the parent knows it by (the one the invite was minted
/// for), its own `key`, the invite's addresses, domains and hints for its
/// parent, and the directory it serves; refused, it says why.
pub fn enrolled(key: String, invite: &Invite, root: String, welcome: Welcome) -> (config: Result<Config, String>)
    ensures
        welcome matches Welcome::Accepted { alias, .. } ==> (config matches Ok(c) && c.name == alias && c.key == key
            && c.parent@ == invite.addresses@ && c.parent_dns@ == invite.dns@ && c.parent_hints@ == invite.hints@
            && c.root == root),
        welcome matches Welcome::No { reason } ==> (config matches Err(m) && m@ == "the parent refused us: "@
            + reason@),
{
    match welcome {
        Welcome::Accepted { alias, .. } => Ok(
            Config {
                name: alias,
                key,
                parent: clone_strings(&invite.addresses),
                parent_dns: clone_strings(&invite.dns),
                parent_hints: clone_strings(&invite.hints),
                root,
            },
        ),
        Welcome::No { reason } => {
            let mut m = owned("the parent refused us: ");
            m.append(reason.as_str());
            Err(m)
        },
    }
}

/// Whom a client dials.
#[derive(Debug, Clone)]
pub enum DialPlan {
    /// Ask our parent to resolve `name` at the peer it knows as `peer`; it
    /// answers with the device's key, a ticket and hints.
    ViaParent { name: String, peer: String },
    /// Dial the key `key` directly, with no ticket, trying `hints` if
    /// discovery fails.
    Direct { key: String, hints: Vec<String> },
}

/// Whom to dial for `target`, given our device configuration if we have one:
/// a `name@peer` target goes through our parent (and needs a device home); a
/// bare key is dialled directly, with our parent's hints when we have them.
pub fn dial_plan(config: Option<&Config>, target: &str) -> (plan: Result<DialPlan, String>)
    ensures
        target@.contains('@') && config is Some ==> (plan matches Ok(DialPlan::ViaParent { name, peer }) && target@
            == name@ + seq!['@'] + peer@ && !name@.contains('@')),
        target@.contains('@') && config is None ==> (plan matches Err(m) && m@
            == "no device home: run `t-sirji-fs init` first"@),
        !target@.contains('@') && config is Some ==> (plan matches Ok(DialPlan::Direct { key, hints }) && key@
            == target@ && hints@ == config->0.parent_hints@),
        !target@.contains('@') && config is None ==> (plan matches Ok(DialPlan::Direct { key, hints }) && key@
            == target@ && hints@.len() == 0),
{
    match split_once(target, '@') {
        Some((name, peer)) => match config {
            Some(_) => Ok(DialPlan::ViaParent { name, peer }),
            None => Err(owned("no device home: run `t-sirji-fs init` first")),
        },
        None => {
            let hints = match config {
                Some(c) => clone_strings(&c.parent_hints),
                None => Vec::new(),
            };
            Ok(DialPlan::Direct { key: owned(target), hints })
        },
    }
}

} // verus!
