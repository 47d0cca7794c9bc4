//! The keystore — one file per key, named by its id52.
//!
//! ```text
//! $SIRJI_HOME/keys/<id52>.private-key    32 bytes, mode 0600
//! ```
//!
//! The filename is the index: given a public key, the secret is at a known path.
//! Because the name carries the public half, the store is self-verifying —
//! loading a key checks that the secret really does produce the public key it is
//! filed under, so a corrupted or misfiled key is caught at startup.
//!
//! Reading and writing the files is the caller's part; what this module decides
//! is where each key lives, whether what a file holds is the key it claims to
//! be, and which files of a directory are keys.

use vstd::prelude::*;

use crate::id52::{decode, decoding, encode, id52_text, Id52Error};
use crate::keys::{bytes32, public_of, PublicKey, SecretKey};
use crate::order::{lemma_precedes_asymmetric, lemma_precedes_total, lemma_precedes_transitive, precedes, text_precedes};
use crate::text::{chars_of, decimal, decimal_string, join, joined, owned, string_of};

verus! {

/// Overrides the location of the sirji home directory.
pub const HOME_ENV: &'static str = "SIRJI_HOME";

/// Where the home directory lives when `SIRJI_HOME` is unset, under `$HOME`.
pub const HOME_DEFAULT: &'static str = ".sirji";

/// The keystore's directory, under the home directory.
pub const KEYS_DIR: &'static str = "keys";

/// The extension of a key file.
pub const KEY_EXT: &'static str = "private-key";

/// Why the keystore could not give what was asked of it.
#[derive(Debug, Clone)]
pub enum KeystoreError {
    /// Neither `SIRJI_HOME` nor `HOME` is set.
    NoHome,
    /// The file for `key` could not be read at `path`.
    Missing { key: String, path: String },
    /// The file at `path` holds `len` bytes, not 32.
    WrongSize { path: String, len: usize },
    /// The file at `path` holds the secret of `holds`, not of `expected`.
    Misfiled { path: String, holds: String, expected: String },
    /// A file with the key extension whose stem is not an id52.
    NotNamedAfterId52 { path: String },
}

/// What the keystore says when it refuses with `e`.
pub open spec fn keystore_error_text(e: KeystoreError) -> Seq<char> {
    match e {
        KeystoreError::NoHome => "neither SIRJI_HOME nor HOME is set; cannot find the sirji directory"@,
        KeystoreError::Missing { key, path } => "no key for "@ + key@ + " at "@ + path@,
        KeystoreError::WrongSize { path, len } => path@ + " is "@ + decimal(len as nat) + " bytes; a secret key is 32"@,
        KeystoreError::Misfiled { path, holds, expected } => path@ + " holds a key for "@ + holds@ + ", not for "@
            + expected@ + " \u{2014} the store is corrupt or misfiled"@,
        KeystoreError::NotNamedAfterId52 { path } => path@ + " is not named after an id52"@,
    }
}

impl KeystoreError {
    /// What the refusal says.
    pub fn message(&self) -> (m: String)
        ensures
            m@ == keystore_error_text(*self),
    {
        match self {
            KeystoreError::NoHome => owned("neither SIRJI_HOME nor HOME is set; cannot find the sirji directory"),
            KeystoreError::Missing { key, path } => {
                let mut m = owned("no key for ");
                m.append(key.as_str());
                m.append(" at ");
                m.append(path.as_str());
                m
            },
            KeystoreError::WrongSize { path, len } => {
                let mut m = owned(path.as_str());
                m.append(" is ");
                m.append(decimal_string(*len as u64).as_str());
                m.append(" bytes; a secret key is 32");
                m
            },
            KeystoreError::Misfiled { path, holds, expected } => {
                let mut m = owned(path.as_str());
                m.append(" holds a key for ");
                m.append(holds.as_str());
                m.append(", not for ");
                m.append(expected.as_str());
                m.append(" \u{2014} the store is corrupt or misfiled");
                m
            },
            KeystoreError::NotNamedAfterId52 { path } => {
                let mut m = owned(path.as_str());
                m.append(" is not named after an id52");
                m
            },
        }
    }
}

/// The sirji home directory: `$SIRJI_HOME` when it is set, else `.sirji`
/// under `$HOME`. The two values are the environment's.
pub fn home(sirji_home: Option<String>, home_env: Option<String>) -> (dir: Result<String, KeystoreError>)
    ensures
        sirji_home is Some ==> dir == Ok::<String, KeystoreError>(sirji_home->0),
        sirji_home is None && home_env is Some ==> (dir matches Ok(d) && d@ == joined(home_env->0@, HOME_DEFAULT@)),
        sirji_home is None && home_env is None ==> dir matches Err(KeystoreError::NoHome),
{
    match sirji_home {
        Some(dir) => Ok(dir),
        None => match home_env {
            Some(h) => Ok(join(h.as_str(), HOME_DEFAULT)),
            None => Err(KeystoreError::NoHome),
        },
    }
}

/// The name of the file of the key whose id52 is `id52`.
pub open spec fn key_file_name(id52: Seq<char>) -> Seq<char> {
    id52 + "."@ + KEY_EXT@
}

/// The file of the key whose id52 is `id52`, in the keystore at `dir`.
pub open spec fn key_path(dir: Seq<char>, id52: Seq<char>) -> Seq<char> {
    joined(dir, key_file_name(id52))
}

/// The index of the last `.` in `name`, or -1 when there is none.
pub open spec fn last_dot(name: Seq<char>) -> int
    decreases name.len(),
{
    if name.len() == 0 {
        -1
    } else if name.last() == '.' {
        name.len() - 1
    } else {
        last_dot(name.drop_last())
    }
}

/// The extension of a file name, as std's `Path::extension` reads it: what
/// follows the last `.`, unless that `.` is the first character (or there is
/// none).
pub open spec fn extension(name: Seq<char>) -> Option<Seq<char>> {
    if last_dot(name) <= 0 {
        None
    } else {
        Some(name.subrange(last_dot(name) + 1, name.len() as int))
    }
}

/// The stem of a file name, as std's `Path::file_stem` reads it: what comes
/// before the extension's `.`, or the whole name when there is no extension.
pub open spec fn stem(name: Seq<char>) -> Seq<char> {
    if last_dot(name) <= 0 {
        name
    } else {
        name.subrange(0, last_dot(name))
    }
}

/// A file name with the key extension.
pub open spec fn is_key_file(name: Seq<char>) -> bool {
    extension(name) == Some(KEY_EXT@)
}

/// The file at `i` has the key extension but its stem is not an id52.
pub open spec fn misnamed(names: Seq<String>, i: int) -> bool {
    is_key_file(names[i]@) && decoding(stem(names[i]@)) is Err
}

/// The stems of the key files among `names`, in order.
pub open spec fn key_stems(names: Seq<String>) -> Seq<Seq<char>>
    decreases names.len(),
{
    if names.len() == 0 {
        Seq::empty()
    } else if is_key_file(names.last()@) {
        key_stems(names.drop_last()).push(stem(names.last()@))
    } else {
        key_stems(names.drop_last())
    }
}

/// The keys that `stems` decode to.
pub open spec fn decoded_keys(stems: Seq<Seq<char>>) -> Seq<Seq<u8>> {
    stems.map_values(|s: Seq<char>| decoding(s)->Ok_0)
}

/// The id52 of each key.
pub open spec fn id52s(keys: Seq<PublicKey>) -> Seq<Seq<char>> {
    keys.map_values(|k: PublicKey| id52_text(k@))
}

/// The bytes of each key.
pub open spec fn key_bytes(keys: Seq<PublicKey>) -> Seq<Seq<u8>> {
    keys.map_values(|k: PublicKey| k@)
}

/// The store lists what it files: when the directory holds just the files
/// `path_of` names for some keys (a key file whose stem decodes to the key),
/// none is misnamed, so `list` succeeds, and the stems decode to exactly
/// those keys, in the order of the files.
pub proof fn lemma_filed_keys_listed(names: Seq<String>, keys: Seq<Seq<u8>>)
    requires
        names.len() == keys.len(),
        forall|i: int| 0 <= i < names.len() ==> is_key_file(#[trigger] names[i]@),
        forall|i: int| 0 <= i < names.len() ==> decoding(stem(#[trigger] names[i]@)) == Ok::<Seq<u8>, Id52Error>(keys[i]),
    ensures
        forall|i: int| 0 <= i < names.len() ==> !misnamed(names, i),
        decoded_keys(key_stems(names)) == keys,
    decreases names.len(),
{
    if names.len() > 0 {
        let init = names.drop_last();
        assert forall|i: int| 0 <= i < init.len() implies is_key_file(#[trigger] init[i]@) by {
            assert(init[i] == names[i]);
        }
        assert forall|i: int| 0 <= i < init.len() implies decoding(stem(#[trigger] init[i]@)) == Ok::<
            Seq<u8>,
            Id52Error,
        >(keys.drop_last()[i]) by {
            assert(init[i] == names[i]);
        }
        lemma_filed_keys_listed(init, keys.drop_last());
        let last = names[names.len() - 1];
        assert(is_key_file(last@));
        assert(decoding(stem(last@)) == Ok::<Seq<u8>, Id52Error>(keys.last()));
        assert(decoded_keys(key_stems(names)) =~= decoded_keys(key_stems(init)).push(keys.last()));
        assert(keys =~= keys.drop_last().push(keys.last()));
    } else {
        assert(decoded_keys(key_stems(names)) =~= keys);
    }
}

/// Each text is no earlier than the ones before it.
pub open spec fn nondecreasing(ts: Seq<Seq<char>>) -> bool {
    forall|a: int, b: int| 0 <= a < b < ts.len() ==> !precedes(#[trigger] ts[b], #[trigger] ts[a])
}

/// Putting `t` before the first text it precedes keeps the texts in order.
proof fn lemma_insert_keeps_order(ts: Seq<Seq<char>>, j: int, t: Seq<char>)
    requires
        nondecreasing(ts),
        0 <= j <= ts.len(),
        forall|k: int| 0 <= k < j ==> !precedes(t, #[trigger] ts[k]),
        j < ts.len() ==> precedes(t, ts[j]),
    ensures
        nondecreasing(ts.insert(j, t)),
{
    ts.insert_ensures(j, t);
    let s = ts.insert(j, t);
    assert forall|a: int, b: int| 0 <= a < b < s.len() implies !precedes(#[trigger] s[b], #[trigger] s[a]) by {
        if b < j {
        } else if b == j {
            assert(s[a] == ts[a]);
        } else if a < j {
            assert(s[b] == ts[b - 1]);
            assert(s[a] == ts[a]);
        } else if a == j {
            assert(s[b] == ts[b - 1]);
            lemma_precedes_asymmetric(t, ts[j]);
            if b - 1 > j {
                lemma_precedes_total(ts[j], ts[b - 1]);
                if ts[j] != ts[b - 1] {
                    assert(!precedes(ts[b - 1], ts[j]));
                    lemma_precedes_transitive(t, ts[j], ts[b - 1]);
                    lemma_precedes_asymmetric(t, ts[b - 1]);
                }
            }
        } else {
            assert(s[b] == ts[b - 1]);
            assert(s[a] == ts[a - 1]);
        }
    }
}

/// The file name of an id52 that holds no `.` has the key extension, after
/// the id52 itself.
proof fn lemma_key_file_name(id52: Seq<char>)
    requires
        id52.len() > 0,
        forall|i: int| 0 <= i < id52.len() ==> #[trigger] id52[i] != '.',
    ensures
        is_key_file(key_file_name(id52)),
        stem(key_file_name(id52)) == id52,
{
    reveal_strlit(".");
    reveal_strlit("private-key");
    let name = key_file_name(id52);
    let ext = KEY_EXT@;
    assert(forall|i: int| 0 <= i < ext.len() ==> #[trigger] ext[i] != '.');
    // Walking back from the end over the extension finds the dot at `id52.len()`.
    let n = id52.len() as int;
    assert forall|k: int| n < k <= name.len() implies last_dot(#[trigger] name.take(k)) == last_dot(name.take(n + 1)) by {
        lemma_last_dot_skips(name, n, k);
    }
    assert(name.take(name.len() as int) =~= name);
    assert(name.take(n + 1).last() == '.');
    assert(last_dot(name) == n);
    assert(name.subrange(n + 1, name.len() as int) =~= ext);
    assert(name.subrange(0, n) =~= id52);
}

/// Past the dot at `n`, a stretch without dots does not move the last dot.
proof fn lemma_last_dot_skips(name: Seq<char>, n: int, k: int)
    requires
        0 <= n < k <= name.len(),
        name[n] == '.',
        forall|i: int| n < i < name.len() ==> #[trigger] name[i] != '.',
    ensures
        last_dot(name.take(k)) == last_dot(name.take(n + 1)),
    decreases k - n,
{
    if k > n + 1 {
        assert(name.take(k).drop_last() =~= name.take(k - 1));
        assert(name.take(k).last() == name[k - 1]);
        lemma_last_dot_skips(name, n, k - 1);
    }
}

/// The stem of a file name and its extension, found at the last `.`.
fn split_name(name: &[char]) -> (parts: (Vec<char>, Option<Vec<char>>))
    ensures
        parts.0@ == stem(name@),
        parts.1 is Some <==> extension(name@) is Some,
        parts.1 matches Some(e) ==> extension(name@) == Some(e@),
{
    let mut i: usize = name.len();
    assert(name@.take(i as int) =~= name@);
    while i > 0 && name[i - 1] != '.'
        invariant
            i <= name@.len(),
            last_dot(name@) == last_dot(name@.take(i as int)),
        decreases i,
    {
        proof {
            assert(name@.take(i as int).drop_last() =~= name@.take(i - 1));
        }
        i = i - 1;
    }
    proof {
        if i > 0 {
            assert(name@.take(i as int).last() == '.');
        } else {
            assert(name@.take(0) =~= Seq::<char>::empty());
        }
    }
    let stem_end: usize = if i <= 1 { name.len() } else { i - 1 };
    let mut stem_chars: Vec<char> = Vec::new();
    let mut k: usize = 0;
    while k < stem_end
        invariant
            stem_end <= name@.len(),
            k <= stem_end,
            stem_chars@ == name@.subrange(0, k as int),
        decreases stem_end - k,
    {
        stem_chars.push(name[k]);
        k = k + 1;
        assert(stem_chars@ =~= name@.subrange(0, k as int));
    }
    if i <= 1 {
        assert(name@.subrange(0, name@.len() as int) =~= name@);
        return (stem_chars, None);
    }
    let mut ext: Vec<char> = Vec::new();
    let mut k: usize = i;
    while k < name.len()
        invariant
            i <= k <= name@.len(),
            ext@ == name@.subrange(i as int, k as int),
        decreases name@.len() - k,
    {
        ext.push(name[k]);
        k = k + 1;
        assert(ext@ =~= name@.subrange(i as int, k as int));
    }
    (stem_chars, Some(ext))
}

/// Whether two character sequences are equal.
fn chars_equal(a: &[char], b: &[char]) -> (same: bool)
    ensures
        same == (a@ == b@),
{
    if a.len() != b.len() {
        return false;
    }
    let mut i: usize = 0;
    while i < a.len()
        invariant
            i <= a@.len(),
            a@.len() == b@.len(),
            forall|k: int| 0 <= k < i ==> a@[k] == b@[k],
        decreases a@.len() - i,
    {
        if a[i] != b[i] {
            return false;
        }
        i = i + 1;
    }
    assert(a@ =~= b@);
    true
}

/// A directory of secret keys, one file each.
#[derive(Debug, Clone)]
pub struct Keystore {
    dir: String,
}

impl View for Keystore {
    type V = Seq<char>;

    /// The directory.
    closed spec fn view(&self) -> Seq<char> {
        self.dir@
    }
}

impl Keystore {
    /// The keystore under the sirji home directory, found from the
    /// environment's `SIRJI_HOME` and `HOME` as `home` finds it.
    pub fn open(sirji_home: Option<String>, home_env: Option<String>) -> (store: Result<Keystore, KeystoreError>)
        ensures
            sirji_home is Some ==> (store matches Ok(s) && s@ == joined(sirji_home->0@, KEYS_DIR@)),
            sirji_home is None && home_env is Some ==> (store matches Ok(s) && s@ == joined(
                joined(home_env->0@, HOME_DEFAULT@),
                KEYS_DIR@,
            )),
            sirji_home is None && home_env is None ==> store matches Err(KeystoreError::NoHome),
    {
        match home(sirji_home, home_env) {
            Ok(dir) => Ok(Keystore::at(join(dir.as_str(), KEYS_DIR))),
            Err(e) => Err(e),
        }
    }

    /// The keystore of the home directory `home`: its `keys` directory.
    pub fn in_home(home: &str) -> (store: Keystore)
        ensures
            store@ == joined(home@, KEYS_DIR@),
    {
        Keystore::at(join(home, KEYS_DIR))
    }

    /// A keystore at an explicit directory.
    pub fn at(dir: String) -> (store: Keystore)
        ensures
            store@ == dir@,
    {
        Keystore { dir }
    }

    /// The directory.
    pub fn dir(&self) -> (dir: &str)
        ensures
            dir@ == self@,
    {
        self.dir.as_str()
    }

    /// Where the secret for `key` is filed. The file's name is one `list`
    /// takes for a key file, and its stem decodes back to `key`: the store
    /// lists what it files.
    pub fn path_of(&self, key: &PublicKey) -> (path: String)
        ensures
            path@ == key_path(self@, id52_text(key@)),
            is_key_file(key_file_name(id52_text(key@))),
            decoding(stem(key_file_name(id52_text(key@)))) == Ok::<Seq<u8>, Id52Error>(key@),
    {
        let text = encode(key);
        proof {
            lemma_key_file_name(text@);
        }
        let mut name = text.clone();
        name.append(".");
        name.append(KEY_EXT);
        join(self.dir.as_str(), name.as_str())
    }

    /// The keys among the file names of the store's directory, in the order
    /// of their id52s. Files without the key extension are passed over; one
    /// with it whose stem is not an id52 is reported, the first such.
    pub fn list(&self, names: &Vec<String>) -> (keys: Result<Vec<PublicKey>, KeystoreError>)
        ensures
            keys is Err <==> exists|i: int| 0 <= i < names@.len() && misnamed(names@, i),
            keys matches Err(e) ==> exists|i: int|
                0 <= i < names@.len() && misnamed(names@, i) && (forall|j: int| 0 <= j < i ==> !misnamed(names@, j))
                    && (e matches KeystoreError::NotNamedAfterId52 { path } && path@ == joined(self@, names@[i]@)),
            keys matches Ok(ks) ==> nondecreasing(id52s(ks@)) && key_bytes(ks@).to_multiset() == decoded_keys(
                key_stems(names@),
            ).to_multiset(),
    {
        broadcast use vstd::seq_lib::group_to_multiset_ensures;

        let ext_wanted = chars_of(KEY_EXT);
        let mut keys: Vec<PublicKey> = Vec::new();
        let mut texts: Vec<Vec<char>> = Vec::new();
        let ghost mut ts: Seq<Seq<char>> = Seq::empty();
        let mut i: usize = 0;
        assert(names@.take(0) =~= Seq::<String>::empty());
        while i < names.len()
            invariant
                i <= names@.len(),
                ext_wanted@ == KEY_EXT@,
                forall|j: int| 0 <= j < i ==> !misnamed(names@, j),
                keys@.len() == texts@.len(),
                ts.len() == keys@.len(),
                forall|k: int| 0 <= k < ts.len() ==> #[trigger] ts[k] == texts@[k]@,
                ts == id52s(keys@),
                nondecreasing(ts),
                key_bytes(keys@).to_multiset() == decoded_keys(key_stems(names@.take(i as int))).to_multiset(),
            decreases names@.len() - i,
        {
            let name = chars_of(names[i].as_str());
            let (stem_chars, ext) = split_name(&name);
            assert(name@ == names@[i as int]@);
            proof {
                assert(names@.take(i + 1).drop_last() =~= names@.take(i as int));
                assert(names@.take(i + 1).last() == names@[i as int]);
            }
            let is_key = match &ext {
                Some(e) => chars_equal(e, &ext_wanted),
                None => false,
            };
            if is_key {
                let stem_text = string_of(&stem_chars);
                match decode(stem_text.as_str()) {
                    Err(_) => {
                        assert(name@ == names@[i as int]@);
                        assert(misnamed(names@, i as int));
                        return Err(KeystoreError::NotNamedAfterId52 { path: join(self.dir.as_str(), names[i].as_str()) });
                    },
                    Ok(key) => {
                        let text = chars_of(encode(&key).as_str());
                        let mut j: usize = 0;
                        while j < texts.len() && !text_precedes(&text, &texts[j])
                            invariant
                                j <= texts@.len(),
                                texts@.len() == ts.len(),
                                forall|k: int| 0 <= k < ts.len() ==> #[trigger] ts[k] == texts@[k]@,
                                forall|k: int| 0 <= k < j ==> !precedes(text@, #[trigger] ts[k]),
                            decreases texts@.len() - j,
                        {
                            j = j + 1;
                        }
                        proof {
                            assert(is_key_file(names@[i as int]@));
                            assert(decoding(stem(names@[i as int]@)) == Ok::<Seq<u8>, Id52Error>(key@));
                            lemma_insert_keeps_order(ts, j as int, text@);
                            ts.insert_ensures(j as int, text@);
                            assert(key_stems(names@.take(i + 1)) == key_stems(names@.take(i as int)).push(stem(names@[i as int]@)));
                            assert(decoded_keys(key_stems(names@.take(i + 1))) =~= decoded_keys(key_stems(names@.take(i as int))).push(key@));
                        }
                        let ghost old_keys = keys@;
                        let ghost old_ts = ts;
                        keys.insert(j, key);
                        texts.insert(j, text);
                        proof {
                            ts = ts.insert(j as int, text@);
                            old_keys.insert_ensures(j as int, key);
                            assert(key_bytes(keys@) =~= key_bytes(old_keys).insert(j as int, key@));
                            assert(id52s(keys@) =~= id52s(old_keys).insert(j as int, id52_text(key@)));
                            vstd::seq_lib::to_multiset_insert(key_bytes(old_keys), j as int, key@);
                            let d = decoded_keys(key_stems(names@.take(i as int)));
                            vstd::seq_lib::to_multiset_build(d, key@);
                            assert(key_bytes(keys@).to_multiset() == key_bytes(old_keys).to_multiset().insert(key@));
                            assert(d.push(key@).to_multiset() == d.to_multiset().insert(key@));
                            assert(key_bytes(keys@).to_multiset() == decoded_keys(key_stems(names@.take(i + 1))).to_multiset());
                            assert forall|k: int| 0 <= k < ts.len() implies #[trigger] ts[k] == texts@[k]@ by {
                                if k < j {
                                    assert(ts[k] == old_ts[k]);
                                } else if k > j {
                                    assert(ts[k] == old_ts[k - 1]);
                                }
                            }
                        }
                    },
                }
            } else {
                proof {
                    assert(key_stems(names@.take(i + 1)) == key_stems(names@.take(i as int)));
                    assert(key_bytes(keys@).to_multiset() == decoded_keys(key_stems(names@.take(i + 1))).to_multiset());
                }
            }
            i = i + 1;
        }
        assert(names@.take(i as int) =~= names@);
        Ok(keys)
    }

    /// The secret for `key`, from what its file held (`None`: it could not be
    /// read), checked to be 32 bytes that really are the secret of `key`.
    pub fn secret(&self, key: &PublicKey, contents: Option<&[u8]>) -> (secret: Result<SecretKey, KeystoreError>)
        ensures
            contents is None ==> (secret matches Err(KeystoreError::Missing { key: k, path }) && k@ == id52_text(
                key@,
            ) && path@ == key_path(self@, id52_text(key@))),
            contents is Some && contents->0@.len() != 32 ==> (secret matches Err(
                KeystoreError::WrongSize { path, len },
            ) && path@ == key_path(self@, id52_text(key@)) && len == contents->0@.len()),
            contents is Some && contents->0@.len() == 32 && public_of(contents->0@) != key@ ==> (secret matches Err(
                KeystoreError::Misfiled { path, holds, expected },
            ) && path@ == key_path(self@, id52_text(key@)) && holds@ == id52_text(public_of(contents->0@)) && expected@
                == id52_text(key@)),
            contents is Some && contents->0@.len() == 32 && public_of(contents->0@) == key@ ==> (secret matches Ok(s) && s@
                == contents->0@),
    {
        let path = self.path_of(key);
        match contents {
            None => Err(KeystoreError::Missing { key: encode(key), path }),
            Some(bytes) => {
                if bytes.len() != 32 {
                    return Err(KeystoreError::WrongSize { path, len: bytes.len() });
                }
                let secret = SecretKey::from_bytes(&bytes32(bytes));
                let public = secret.public();
                if public == *key {
                    Ok(secret)
                } else {
                    Err(KeystoreError::Misfiled { path, holds: encode(&public), expected: encode(key) })
                }
            },
        }
    }
}

} // verus!
