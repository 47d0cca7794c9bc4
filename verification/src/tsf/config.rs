//! `t-sirji-fs.toml` — a device's own config, in a device's own home.
//!
//! A device is not a lightweight thing borrowing its parent's identity. It has
//! its own directory, its own key, and it knows where its parent is.

use vstd::prelude::*;

use crate::text::{chars_of, join, joined, split, split_on, string_of, strip_leading, without_leading};

verus! {

/// The config file, in the device's home.
pub const FILE: &'static str = "t-sirji-fs.toml";

/// Overrides where this device keeps its home.
pub const HOME_ENV: &'static str = "TSF_HOME";

/// Where the home lives when `TSF_HOME` is unset, under `$HOME`.
pub const HOME_DEFAULT: &'static str = ".t-sirji-fs";

/// A device's configuration.
#[derive(Debug, Clone)]
pub struct Config {
    /// The name we claim at our parent. Peers address us as `name@<parent>`.
    pub name: String,
    /// Our own key, which we listen on.
    pub key: String,
    /// Our parent's handshake keys: where we dial to register.
    pub parent: Vec<String>,
    /// Our parent's domains, if it has any.
    pub parent_dns: Vec<String>,
    /// Socket hints for the parent, from the invite.
    pub parent_hints: Vec<String>,
    /// The directory we serve.
    pub root: String,
}

/// Why a device home, or a path inside the served root, could not be found.
#[derive(Debug, Clone)]
pub enum ResolveError {
    /// Neither `TSF_HOME` nor `HOME` is set.
    NoHome,
    /// The served root does not exist (it could not be made canonical).
    RootMissing { root: String },
    /// The requested path does not exist (it could not be made canonical).
    NoSuchPath { relative: String },
    /// The requested path is outside the served root.
    Outside { relative: String },
}

/// The pieces of a `/`-separated path that std's `Path::components` keeps:
/// empty pieces (from the root or from repeated separators) go, and so does
/// every `.` but a leading one.
pub open spec fn kept_pieces(pieces: Seq<Seq<char>>) -> Seq<Seq<char>>
    decreases pieces.len(),
{
    if pieces.len() == 0 {
        Seq::empty()
    } else {
        let rest = kept_pieces(pieces.drop_last());
        let p = pieces.last();
        if p.len() == 0 || (p == seq!['.'] && pieces.len() > 1) {
            rest
        } else {
            rest.push(p)
        }
    }
}

/// The named components of a path.
pub open spec fn named_components(path: Seq<char>) -> Seq<Seq<char>> {
    kept_pieces(split_on(path, '/'))
}

/// The path is absolute: it begins with the root.
pub open spec fn absolute(path: Seq<char>) -> bool {
    path.len() > 0 && path[0] == '/'
}

/// `path` lies under `base`, as std's `Path::starts_with` decides it: both or
/// neither are absolute, and `base`'s components begin `path`'s.
pub open spec fn lies_under(path: Seq<char>, base: Seq<char>) -> bool {
    &&& absolute(path) == absolute(base)
    &&& named_components(base).len() <= named_components(path).len()
    &&& named_components(path).take(named_components(base).len() as int) == named_components(base)
}

/// Where a peer-supplied relative path would be under the canonical `root`:
/// its leading `/`s dropped, joined onto the root.
pub open spec fn candidate_path(root: Seq<char>, relative: Seq<char>) -> Seq<char> {
    joined(root, without_leading(relative, '/'))
}

/// Leading `/`s never change where a relative path lands: `//a/b`, `/a/b`
/// and `a/b` name the same file under the root, so a peer cannot reach
/// outside it by asking for an absolute path.
pub proof fn lemma_leading_slashes_ignored(root: Seq<char>, slashes: Seq<char>, relative: Seq<char>)
    requires
        forall|i: int| 0 <= i < slashes.len() ==> #[trigger] slashes[i] == '/',
    ensures
        candidate_path(root, slashes + relative) == candidate_path(root, relative),
{
    lemma_without_leading_slashes(slashes, relative);
}

proof fn lemma_without_leading_slashes(slashes: Seq<char>, relative: Seq<char>)
    requires
        forall|i: int| 0 <= i < slashes.len() ==> #[trigger] slashes[i] == '/',
    ensures
        without_leading(slashes + relative, '/') == without_leading(relative, '/'),
    decreases slashes.len(),
{
    if slashes.len() == 0 {
        assert(slashes + relative =~= relative);
    } else {
        let s = slashes + relative;
        assert(s[0] == '/');
        assert(s.drop_first() =~= slashes.drop_first() + relative);
        lemma_without_leading_slashes(slashes.drop_first(), relative);
    }
}

/// The named components of a path.
pub(crate) fn components(path: &[char]) -> (parts: Vec<Vec<char>>)
    ensures
        parts@.len() == named_components(path@).len(),
        forall|k: int| 0 <= k < parts@.len() ==> #[trigger] parts@[k]@ == named_components(path@)[k],
{
    let pieces = split(path, '/');
    let ghost all = split_on(path@, '/');
    let mut parts: Vec<Vec<char>> = Vec::new();
    let mut i: usize = 0;
    while i < pieces.len()
        invariant
            i <= pieces@.len(),
            pieces@.len() == all.len(),
            forall|k: int| 0 <= k < pieces@.len() ==> #[trigger] pieces@[k]@ == all[k],
            parts@.len() == kept_pieces(all.take(i as int)).len(),
            forall|k: int| 0 <= k < parts@.len() ==> #[trigger] parts@[k]@ == kept_pieces(all.take(i as int))[k],
        decreases pieces@.len() - i,
    {
        let piece = &pieces[i];
        proof {
            assert(all.take(i + 1).drop_last() =~= all.take(i as int));
            assert(all.take(i + 1).last() == piece@);
        }
        let dot = piece.len() == 1 && piece[0] == '.';
        proof {
            if piece@.len() == 1 {
                assert(dot == (piece@ =~= seq!['.']));
            } else {
                assert(piece@.len() != seq!['.'].len());
            }
        }
        if !(piece.len() == 0 || (dot && i + 1 > 1)) {
            let ghost before = parts@;
            let copy = copy_chars(piece);
            parts.push(copy);
            proof {
                assert forall|k: int| 0 <= k < parts@.len() implies #[trigger] parts@[k]@ == kept_pieces(
                    all.take(i + 1),
                )[k] by {
                    if k < before.len() {
                        assert(parts@[k] == before[k]);
                    }
                }
            }
        }
        i = i + 1;
    }
    assert(all.take(pieces@.len() as int) =~= all);
    parts
}

/// A copy of some characters.
fn copy_chars(cs: &Vec<char>) -> (out: Vec<char>)
    ensures
        out@ == cs@,
{
    let mut out: Vec<char> = Vec::new();
    let mut i: usize = 0;
    while i < cs.len()
        invariant
            i <= cs@.len(),
            out@ == cs@.take(i as int),
        decreases cs@.len() - i,
    {
        out.push(cs[i]);
        i = i + 1;
        assert(out@ =~= cs@.take(i as int));
    }
    assert(out@ =~= cs@);
    out
}

/// Whether two character sequences are equal.
fn same_chars(a: &Vec<char>, b: &Vec<char>) -> (same: bool)
    ensures
        same == (a@ == b@),
{
    if a.len() != b.len() {
        return false;
    }
    let mut i: usize = 0;
    while i < a.len()
        invariant
            i <= a@.len(),
            a@.len() == b@.len(),
            forall|k: int| 0 <= k < i ==> a@[k] == b@[k],
        decreases a@.len() - i,
    {
        if a[i] != b[i] {
            return false;
        }
        i = i + 1;
    }
    assert(a@ =~= b@);
    true
}

/// Whether `path` lies under `base`, component by component.
pub fn is_under(path: &str, base: &str) -> (under: bool)
    ensures
        under == lies_under(path@, base@),
{
    let p = chars_of(path);
    let b = chars_of(base);
    let p_abs = p.len() > 0 && p[0] == '/';
    let b_abs = b.len() > 0 && b[0] == '/';
    if p_abs != b_abs {
        return false;
    }
    let pc = components(&p);
    let bc = components(&b);
    if bc.len() > pc.len() {
        return false;
    }
    let ghost np = named_components(path@);
    let ghost nb = named_components(base@);
    let mut i: usize = 0;
    while i < bc.len()
        invariant
            i <= bc@.len(),
            bc@.len() <= pc@.len(),
            pc@.len() == np.len(),
            bc@.len() == nb.len(),
            forall|k: int| 0 <= k < pc@.len() ==> #[trigger] pc@[k]@ == np[k],
            forall|k: int| 0 <= k < bc@.len() ==> #[trigger] bc@[k]@ == nb[k],
            forall|k: int| 0 <= k < i ==> np[k] == nb[k],
            np == named_components(path@),
            nb == named_components(base@),
            absolute(path@) == absolute(base@),
        decreases bc@.len() - i,
    {
        assert(pc@[i as int]@ == np[i as int]);
        assert(bc@[i as int]@ == nb[i as int]);
        if !same_chars(&pc[i], &bc[i]) {
            assert(np.take(nb.len() as int)[i as int] == np[i as int]);
            assert(np.take(nb.len() as int) != nb);
            return false;
        }
        i = i + 1;
    }
    assert(np.take(nb.len() as int) =~= nb);
    true
}

/// The device home: `$TSF_HOME` when it is set, else `.t-sirji-fs` under
/// `$HOME`. The two values are the environment's.
pub fn home(tsf_home: Option<String>, home_env: Option<String>) -> (dir: Result<String, ResolveError>)
    ensures
        tsf_home is Some ==> dir == Ok::<String, ResolveError>(tsf_home->0),
        tsf_home is None && home_env is Some ==> (dir matches Ok(d) && d@ == joined(home_env->0@, HOME_DEFAULT@)),
        tsf_home is None && home_env is None ==> dir matches Err(ResolveError::NoHome),
{
    match tsf_home {
        Some(dir) => Ok(dir),
        None => match home_env {
            Some(h) => Ok(join(h.as_str(), HOME_DEFAULT)),
            None => Err(ResolveError::NoHome),
        },
    }
}

impl Config {
    /// Where the config file lives in `home`.
    pub fn path_in(home: &str) -> (path: String)
        ensures
            path@ == joined(home@, FILE@),
    {
        join(home, FILE)
    }

    /// Where a peer-supplied `relative` path lands under the canonical root:
    /// its leading `/`s are dropped, so an absolute path stays inside.
    pub fn candidate(root: &str, relative: &str) -> (path: String)
        ensures
            path@ == candidate_path(root@, relative@),
            forall|slashes: Seq<char>|
                (forall|i: int| 0 <= i < slashes.len() ==> #[trigger] slashes[i] == '/') ==> #[trigger] candidate_path(
                    root@,
                    slashes + relative@,
                ) == path@,
    {
        proof {
            assert forall|slashes: Seq<char>|
                (forall|i: int| 0 <= i < slashes.len() ==> #[trigger] slashes[i] == '/') implies #[trigger] candidate_path(
                    root@,
                    slashes + relative@,
                ) == candidate_path(root@, relative@) by {
                lemma_leading_slashes_ignored(root@, slashes, relative@);
            }
        }
        let rel = strip_leading(&chars_of(relative), '/');
        join(root, string_of(&rel).as_str())
    }

    /// Resolve a peer-supplied relative path inside the served root, refusing
    /// anything that would escape it. `root` is the served root made canonical
    /// (`None`: it could not be), and `canonical` is `candidate(root, relative)`
    /// made canonical (`None`: it could not be). The check is on the
    /// canonical path, not the string: `..`, a symlink pointing out of the
    /// tree and an absolute path all fail it. Whether it succeeds, and the
    /// path it gives, depend on `relative` only through `candidate`, which
    /// leading slashes leave unchanged, so `/a` and `a` resolve alike.
    pub fn resolve(&self, relative: &str, root: Option<String>, canonical: Option<String>) -> (resolved: Result<String, ResolveError>)
        ensures
            root is None ==> (resolved matches Err(ResolveError::RootMissing { root: r }) && r@ == self.root@),
            root is Some && canonical is None ==> (resolved matches Err(ResolveError::NoSuchPath { relative: r }) && r@
                == relative@),
            root is Some && canonical is Some && !lies_under(canonical->0@, root->0@) ==> (resolved matches Err(
                ResolveError::Outside { relative: r },
            ) && r@ == relative@),
            root is Some && canonical is Some && lies_under(canonical->0@, root->0@) ==> resolved == Ok::<String, ResolveError>(
                canonical->0,
            ),
    {
        let root = match root {
            None => {
                return Err(ResolveError::RootMissing { root: self.root.clone() });
            },
            Some(r) => r,
        };
        let canonical = match canonical {
            None => {
                return Err(ResolveError::NoSuchPath { relative: string_of(&chars_of(relative)) });
            },
            Some(r) => r,
        };
        if !is_under(canonical.as_str(), root.as_str()) {
            return Err(ResolveError::Outside { relative: string_of(&chars_of(relative)) });
        }
        Ok(canonical)
    }
}

} // verus!
