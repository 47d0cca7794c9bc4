//! Text in the small: characters in and out of strings, trimming, splitting,
//! searching, and joining paths. The definitions are spec functions over
//! `Seq<char>`; the executable versions are proved to compute them.

use vstd::prelude::*;
use vstd::string::{StrSliceExecFns, StringExecFns};

verus! {

/// Unicode's `White_Space` property, which std's `char::is_whitespace` tests:
/// the ASCII controls tab through carriage return, space, next line,
/// no-break space, ogham space mark, the spaces from en quad to hair space,
/// line and paragraph separators, narrow no-break space, medium mathematical
/// space and ideographic space.
pub open spec fn whitespace(c: char) -> bool {
    ||| ('\t' <= c && c <= '\r')
    ||| c == ' '
    ||| c == '\u{85}'
    ||| c == '\u{a0}'
    ||| c == '\u{1680}'
    ||| ('\u{2000}' <= c && c <= '\u{200a}')
    ||| c == '\u{2028}'
    ||| c == '\u{2029}'
    ||| c == '\u{202f}'
    ||| c == '\u{205f}'
    ||| c == '\u{3000}'
}

/// Whether `c` is whitespace, as `char::is_whitespace` answers.
pub(crate) fn is_whitespace(c: char) -> (ws: bool)
    ensures
        ws == whitespace(c),
{
    ('\t' <= c && c <= '\r') || c == ' ' || c == '\u{85}' || c == '\u{a0}' || c == '\u{1680}'
        || ('\u{2000}' <= c && c <= '\u{200a}') || c == '\u{2028}' || c == '\u{2029}' || c == '\u{202f}'
        || c == '\u{205f}' || c == '\u{3000}'
}

/// std's `String::push`: the character is appended.
#[verifier::external_body]
pub(crate) fn push_char(s: &mut String, c: char)
    ensures
        final(s)@ == old(s)@.push(c),
{
    s.push(c)
}

/// std's `str == str`: equal exactly when the characters are.
#[verifier::external_body]
pub(crate) fn str_eq(a: &str, b: &str) -> (same: bool)
    ensures
        same == (a@ == b@),
{
    a == b
}

/// The characters of a text.
pub fn chars_of(s: &str) -> (cs: Vec<char>)
    ensures
        cs@ == s@,
{
    let n = s.unicode_len();
    let mut cs: Vec<char> = Vec::new();
    let mut i: usize = 0;
    while i < n
        invariant
            i <= n,
            n == s@.len(),
            cs@ == s@.take(i as int),
        decreases n - i,
    {
        let c = s.get_char(i);
        cs.push(c);
        i = i + 1;
        assert(cs@ =~= s@.take(i as int));
    }
    assert(cs@ =~= s@);
    cs
}

/// A string of the given characters.
pub fn string_of(cs: &[char]) -> (s: String)
    ensures
        s@ == cs@,
{
    let mut s = String::new();
    let mut i: usize = 0;
    while i < cs.len()
        invariant
            i <= cs@.len(),
            s@ == cs@.take(i as int),
        decreases cs@.len() - i,
    {
        push_char(&mut s, cs[i]);
        i = i + 1;
        assert(s@ =~= cs@.take(i as int));
    }
    assert(s@ =~= cs@);
    s
}

/// A copy of a text as a `String`.
pub fn owned(s: &str) -> (o: String)
    ensures
        o@ == s@,
{
    s.to_owned()
}

/// `a` followed by `b`.
pub fn concat(a: &str, b: &str) -> (c: String)
    ensures
        c@ == a@ + b@,
{
    let mut c = a.to_owned();
    c.append(b);
    c
}

/// Leading whitespace removed.
pub open spec fn trimmed_start(s: Seq<char>) -> Seq<char>
    decreases s.len(),
{
    if s.len() > 0 && whitespace(s[0]) {
        trimmed_start(s.drop_first())
    } else {
        s
    }
}

/// Trailing whitespace removed.
pub open spec fn trimmed_end(s: Seq<char>) -> Seq<char>
    decreases s.len(),
{
    if s.len() > 0 && whitespace(s.last()) {
        trimmed_end(s.drop_last())
    } else {
        s
    }
}

/// Whitespace removed from both ends, as std's `str::trim` does.
pub open spec fn trimmed(s: Seq<char>) -> Seq<char> {
    trimmed_end(trimmed_start(s))
}

proof fn lemma_trimmed_start_step(s: Seq<char>, i: int)
    requires
        0 <= i < s.len(),
        whitespace(s[i]),
    ensures
        trimmed_start(s.subrange(i, s.len() as int)) == trimmed_start(s.subrange(i + 1, s.len() as int)),
{
    let sub = s.subrange(i, s.len() as int);
    assert(sub.drop_first() =~= s.subrange(i + 1, s.len() as int));
}

proof fn lemma_trimmed_start_skips(before: Seq<char>, rest: Seq<char>)
    requires
        forall|i: int| 0 <= i < before.len() ==> whitespace(#[trigger] before[i]),
    ensures
        trimmed_start(before + rest) == trimmed_start(rest),
    decreases before.len(),
{
    if before.len() == 0 {
        assert(before + rest =~= rest);
    } else {
        assert((before + rest)[0] == before[0]);
        assert((before + rest).drop_first() =~= before.drop_first() + rest);
        lemma_trimmed_start_skips(before.drop_first(), rest);
    }
}

proof fn lemma_trimmed_end_skips(rest: Seq<char>, after: Seq<char>)
    requires
        forall|i: int| 0 <= i < after.len() ==> whitespace(#[trigger] after[i]),
    ensures
        trimmed_end(rest + after) == trimmed_end(rest),
    decreases after.len(),
{
    if after.len() == 0 {
        assert(rest + after =~= rest);
    } else {
        assert((rest + after).last() == after.last());
        assert((rest + after).drop_last() =~= rest + after.drop_last());
        lemma_trimmed_end_skips(rest, after.drop_last());
    }
}

/// Trimming removes exactly the whitespace around a text that has none at
/// its ends: `trimmed(before + s + after) == s` whenever `before` and `after`
/// are all whitespace and `s` neither starts nor ends with it.
pub proof fn lemma_trimmed_surrounded(before: Seq<char>, s: Seq<char>, after: Seq<char>)
    requires
        forall|i: int| 0 <= i < before.len() ==> whitespace(#[trigger] before[i]),
        forall|i: int| 0 <= i < after.len() ==> whitespace(#[trigger] after[i]),
        s.len() > 0 ==> !whitespace(s[0]) && !whitespace(s.last()),
    ensures
        trimmed(before + s + after) == s,
{
    assert(before + s + after =~= before + (s + after));
    lemma_trimmed_start_skips(before, s + after);
    if s.len() > 0 {
        assert((s + after)[0] == s[0]);
        lemma_trimmed_end_skips(s, after);
    } else {
        assert(s + after =~= after);
        lemma_trimmed_start_skips(after, s);
        assert(after + s =~= after);
    }
}

/// Whitespace removed from both ends.
pub fn trim(s: &[char]) -> (t: Vec<char>)
    ensures
        t@ == trimmed(s@),
{
    let n = s.len();
    let mut start: usize = 0;
    assert(s@.subrange(0, n as int) =~= s@);
    while start < n && is_whitespace(s[start])
        invariant
            start <= n,
            n == s@.len(),
            trimmed_start(s@) == trimmed_start(s@.subrange(start as int, n as int)),
        decreases n - start,
    {
        proof {
            lemma_trimmed_start_step(s@, start as int);
        }
        start = start + 1;
    }
    let ghost rest = s@.subrange(start as int, n as int);
    assert(trimmed_start(s@) == rest) by {
        assert(s@.subrange(n as int, n as int).len() == 0);
    }
    let mut end: usize = n;
    while end > start && is_whitespace(s[end - 1])
        invariant
            start <= end <= n,
            n == s@.len(),
            rest == s@.subrange(start as int, n as int),
            trimmed_end(rest) == trimmed_end(s@.subrange(start as int, end as int)),
        decreases end - start,
    {
        proof {
            let sub = s@.subrange(start as int, end as int);
            assert(sub.drop_last() =~= s@.subrange(start as int, end - 1));
        }
        end = end - 1;
    }
    let mut t: Vec<char> = Vec::new();
    let mut i: usize = start;
    while i < end
        invariant
            start <= i <= end <= n,
            n == s@.len(),
            t@ == s@.subrange(start as int, i as int),
        decreases end - i,
    {
        t.push(s[i]);
        i = i + 1;
        assert(t@ =~= s@.subrange(start as int, i as int));
    }
    t
}

/// The pieces of `s` between occurrences of `sep`: one more piece than there
/// are separators, empty pieces included, as std's `str::split` gives them.
pub open spec fn split_on(s: Seq<char>, sep: char) -> Seq<Seq<char>>
    decreases s.len(),
{
    if s.len() == 0 {
        seq![Seq::<char>::empty()]
    } else {
        let rest = split_on(s.drop_last(), sep);
        if s.last() == sep {
            rest.push(Seq::<char>::empty())
        } else {
            rest.update(rest.len() - 1, rest.last().push(s.last()))
        }
    }
}

/// `split_on` never gives an empty list of pieces.
pub proof fn lemma_split_on_nonempty(s: Seq<char>, sep: char)
    ensures
        split_on(s, sep).len() >= 1,
    decreases s.len(),
{
    if s.len() > 0 {
        lemma_split_on_nonempty(s.drop_last(), sep);
    }
}

/// Split `s` at every `sep`.
pub fn split(s: &[char], sep: char) -> (pieces: Vec<Vec<char>>)
    ensures
        pieces@.len() == split_on(s@, sep).len(),
        forall|k: int| 0 <= k < pieces@.len() ==> #[trigger] pieces@[k]@ == split_on(s@, sep)[k],
{
    let mut pieces: Vec<Vec<char>> = Vec::new();
    let mut current: Vec<char> = Vec::new();
    let mut i: usize = 0;
    while i < s.len()
        invariant
            i <= s@.len(),
            split_on(s@.take(i as int), sep).len() == pieces@.len() + 1,
            forall|k: int| 0 <= k < pieces@.len() ==> #[trigger] pieces@[k]@ == split_on(s@.take(i as int), sep)[k],
            current@ == split_on(s@.take(i as int), sep).last(),
        decreases s@.len() - i,
    {
        let ghost before = split_on(s@.take(i as int), sep);
        proof {
            lemma_split_on_nonempty(s@.take(i as int), sep);
            assert(s@.take(i + 1).drop_last() =~= s@.take(i as int));
            assert(s@.take(i + 1).last() == s@[i as int]);
        }
        if s[i] == sep {
            let done = current;
            pieces.push(done);
            current = Vec::new();
        } else {
            current.push(s[i]);
        }
        i = i + 1;
        proof {
            let after = split_on(s@.take(i as int), sep);
            assert(after.len() == pieces@.len() + 1);
            assert forall|k: int| 0 <= k < pieces@.len() implies #[trigger] pieces@[k]@ == after[k] by {
                if k < before.len() - 1 {
                    assert(after[k] == before[k]);
                }
            }
        }
    }
    pieces.push(current);
    proof {
        assert(s@.take(s@.len() as int) =~= s@);
    }
    pieces
}

/// `needle` occurs in `hay` starting at `at`.
pub open spec fn occurs_at(hay: Seq<char>, needle: Seq<char>, at: int) -> bool {
    0 <= at && at + needle.len() <= hay.len() && hay.subrange(at, at + needle.len()) == needle
}

/// `needle` occurs somewhere in `hay`.
pub open spec fn contains(hay: Seq<char>, needle: Seq<char>) -> bool {
    exists|at: int| occurs_at(hay, needle, at)
}

/// Whether `needle` occurs in `hay`.
pub fn find(hay: &[char], needle: &[char]) -> (found: bool)
    ensures
        found == contains(hay@, needle@),
{
    if needle.len() > hay.len() {
        assert(!contains(hay@, needle@)) by {
            assert forall|at: int| !occurs_at(hay@, needle@, at) by {}
        }
        return false;
    }
    let last = hay.len() - needle.len();
    let mut at: usize = 0;
    while at <= last
        invariant
            last == hay@.len() - needle@.len(),
            needle@.len() <= hay@.len(),
            hay@.len() <= usize::MAX,
            at <= last + 1,
            forall|a: int| 0 <= a < at ==> !occurs_at(hay@, needle@, a),
        decreases last + 1 - at,
    {
        let mut j: usize = 0;
        let mut same = true;
        while j < needle.len()
            invariant
                at <= last,
                last == hay@.len() - needle@.len(),
                needle@.len() <= hay@.len(),
                hay@.len() <= usize::MAX,
                j <= needle@.len(),
                same == forall|k: int| 0 <= k < j ==> hay@[at + k] == needle@[k],
            decreases needle@.len() - j,
        {
            if hay[at + j] != needle[j] {
                same = false;
            }
            j = j + 1;
        }
        if same {
            assert(hay@.subrange(at as int, at + needle@.len()) =~= needle@);
            assert(occurs_at(hay@, needle@, at as int));
            return true;
        }
        assert(!occurs_at(hay@, needle@, at as int)) by {
            if occurs_at(hay@, needle@, at as int) {
                let k = choose|k: int| 0 <= k < needle@.len() && hay@[at + k] != needle@[k];
                assert(hay@.subrange(at as int, at + needle@.len())[k] == hay@[at + k]);
            }
        }
        if at == last {
            assert(!contains(hay@, needle@)) by {
                assert forall|a: int| !occurs_at(hay@, needle@, a) by {
                    if 0 <= a && a + needle@.len() <= hay@.len() {
                        assert(a <= at);
                    }
                }
            }
            return false;
        }
        at = at + 1;
    }
    assert(!contains(hay@, needle@)) by {
        assert forall|a: int| !occurs_at(hay@, needle@, a) by {
            if 0 <= a && a + needle@.len() <= hay@.len() {
                assert(a < at);
            }
        }
    }
    false
}

/// `prefix` begins `s`.
pub open spec fn starts_with(s: Seq<char>, prefix: Seq<char>) -> bool {
    prefix.len() <= s.len() && s.take(prefix.len() as int) == prefix
}

/// Whether `prefix` begins `s`.
pub fn begins_with(s: &[char], prefix: &[char]) -> (yes: bool)
    ensures
        yes == starts_with(s@, prefix@),
{
    if prefix.len() > s.len() {
        return false;
    }
    let mut i: usize = 0;
    while i < prefix.len()
        invariant
            prefix@.len() <= s@.len(),
            i <= prefix@.len(),
            forall|k: int| 0 <= k < i ==> s@[k] == prefix@[k],
        decreases prefix@.len() - i,
    {
        if s[i] != prefix[i] {
            assert(s@.take(prefix@.len() as int)[i as int] != prefix@[i as int]);
            return false;
        }
        i = i + 1;
    }
    assert(s@.take(prefix@.len() as int) =~= prefix@);
    true
}

/// Every trailing `c` removed, as `str::trim_end_matches(c)` does.
pub open spec fn without_trailing(s: Seq<char>, c: char) -> Seq<char>
    decreases s.len(),
{
    if s.len() > 0 && s.last() == c {
        without_trailing(s.drop_last(), c)
    } else {
        s
    }
}

/// Every leading `c` removed, as `str::trim_start_matches(c)` does.
pub open spec fn without_leading(s: Seq<char>, c: char) -> Seq<char>
    decreases s.len(),
{
    if s.len() > 0 && s[0] == c {
        without_leading(s.drop_first(), c)
    } else {
        s
    }
}

/// Every trailing `c` removed.
pub fn strip_trailing(s: &[char], c: char) -> (t: Vec<char>)
    ensures
        t@ == without_trailing(s@, c),
{
    let mut end: usize = s.len();
    assert(s@.take(end as int) =~= s@);
    while end > 0 && s[end - 1] == c
        invariant
            end <= s@.len(),
            without_trailing(s@, c) == without_trailing(s@.take(end as int), c),
        decreases end,
    {
        assert(s@.take(end as int).drop_last() =~= s@.take(end - 1));
        end = end - 1;
    }
    let mut t: Vec<char> = Vec::new();
    let mut i: usize = 0;
    while i < end
        invariant
            end <= s@.len(),
            i <= end,
            t@ == s@.take(i as int),
        decreases end - i,
    {
        t.push(s[i]);
        i = i + 1;
        assert(t@ =~= s@.take(i as int));
    }
    assert(s@.take(s@.len() as int) =~= s@);
    t
}

/// Every leading `c` removed.
pub fn strip_leading(s: &[char], c: char) -> (t: Vec<char>)
    ensures
        t@ == without_leading(s@, c),
{
    let n = s.len();
    let mut start: usize = 0;
    assert(s@.subrange(0, n as int) =~= s@);
    while start < n && s[start] == c
        invariant
            start <= n,
            n == s@.len(),
            without_leading(s@, c) == without_leading(s@.subrange(start as int, n as int), c),
        decreases n - start,
    {
        assert(s@.subrange(start as int, n as int).drop_first() =~= s@.subrange(start + 1, n as int));
        start = start + 1;
    }
    let mut t: Vec<char> = Vec::new();
    let mut i: usize = start;
    while i < n
        invariant
            start <= i <= n,
            n == s@.len(),
            t@ == s@.subrange(start as int, i as int),
        decreases n - i,
    {
        t.push(s[i]);
        i = i + 1;
        assert(t@ =~= s@.subrange(start as int, i as int));
    }
    assert(s@.subrange(n as int, n as int).len() == 0);
    t
}

/// `s` split at its first `sep`: what comes before and what comes after, as
/// std's `str::split_once` gives them; `None` when `sep` does not occur.
pub fn split_once(s: &str, sep: char) -> (parts: Option<(String, String)>)
    ensures
        parts is None <==> !s@.contains(sep),
        parts matches Some((a, b)) ==> s@ == a@ + seq![sep] + b@ && !a@.contains(sep),
{
    let cs = chars_of(s);
    let mut i: usize = 0;
    while i < cs.len() && cs[i] != sep
        invariant
            i <= cs@.len(),
            cs@ == s@,
            forall|k: int| 0 <= k < i ==> cs@[k] != sep,
        decreases cs@.len() - i,
    {
        i = i + 1;
    }
    if i == cs.len() {
        assert(!s@.contains(sep)) by {
            if s@.contains(sep) {
                let k = choose|k: int| 0 <= k < s@.len() && s@[k] == sep;
                assert(cs@[k] != sep);
            }
        }
        return None;
    }
    let mut before: Vec<char> = Vec::new();
    let mut k: usize = 0;
    while k < i
        invariant
            k <= i < cs@.len(),
            before@ == cs@.take(k as int),
        decreases i - k,
    {
        before.push(cs[k]);
        k = k + 1;
        assert(before@ =~= cs@.take(k as int));
    }
    let mut after: Vec<char> = Vec::new();
    let mut k: usize = i + 1;
    while k < cs.len()
        invariant
            i < k <= cs@.len(),
            after@ == cs@.subrange(i + 1, k as int),
        decreases cs@.len() - k,
    {
        after.push(cs[k]);
        k = k + 1;
        assert(after@ =~= cs@.subrange(i + 1, k as int));
    }
    proof {
        assert(cs@ =~= cs@.take(i as int) + seq![sep] + cs@.subrange(i + 1, cs@.len() as int));
        assert(!before@.contains(sep)) by {
            if before@.contains(sep) {
                let j = choose|j: int| 0 <= j < before@.len() && before@[j] == sep;
                assert(cs@[j] != sep);
            }
        }
    }
    Some((string_of(&before), string_of(&after)))
}

/// `rel` joined onto `base` as a Unix path: an absolute `rel` replaces `base`,
/// and otherwise a `/` goes between them unless `base` is empty or already
/// ends in one.
pub open spec fn joined(base: Seq<char>, rel: Seq<char>) -> Seq<char> {
    if rel.len() > 0 && rel[0] == '/' {
        rel
    } else if base.len() == 0 || base.last() == '/' {
        base + rel
    } else {
        base + seq!['/'] + rel
    }
}


/// `rel` joined onto `base` as a Unix path.
pub fn join(base: &str, rel: &str) -> (path: String)
    ensures
        path@ == joined(base@, rel@),
{
    let rel_len = rel.unicode_len();
    if rel_len > 0 && rel.get_char(0) == '/' {
        return owned(rel);
    }
    let base_len = base.unicode_len();
    let mut path = owned(base);
    if base_len > 0 && base.get_char(base_len - 1) != '/' {
        push_char(&mut path, '/');
    }
    path.append(rel);
    proof {
        if !(base@.len() == 0 || base@.last() == '/') {
            assert(path@ =~= base@ + seq!['/'] + rel@);
        }
    }
    path
}

/// The decimal digits of `n`, most significant first, with no leading zeros.
pub open spec fn decimal(n: nat) -> Seq<char>
    decreases n,
{
    if n < 10 {
        seq![(n + 48) as char]
    } else {
        decimal(n / 10).push(((n % 10) + 48) as char)
    }
}

/// `n` written in decimal.
pub fn decimal_string(n: u64) -> (s: String)
    ensures
        s@ == decimal(n as nat),
{
    let mut digits: Vec<char> = Vec::new();
    let mut rest: u64 = n;
    let ghost mut done: Seq<char> = Seq::empty();
    // Collect the digits least significant first, then reverse them.
    while rest >= 10
        invariant
            decimal(n as nat) == decimal(rest as nat) + digits@.reverse(),
        decreases rest,
    {
        let d = rest % 10;
        let c = ((d + 48) as u8) as char;
        assert(c == ((rest as nat % 10) + 48) as char);
        let ghost before = digits@;
        digits.push(c);
        proof {
            assert(decimal(rest as nat) == decimal((rest / 10) as nat).push(c));
            assert(digits@.reverse() =~= seq![c] + before.reverse());
            assert(decimal((rest / 10) as nat).push(c) + before.reverse() =~= decimal((rest / 10) as nat) + (seq![c]
                + before.reverse()));
        }
        rest = rest / 10;
    }
    let c = ((rest + 48) as u8) as char;
    let mut s = String::new();
    push_char(&mut s, c);
    let mut i: usize = digits.len();
    while i > 0
        invariant
            i <= digits@.len(),
            s@ == seq![c] + digits@.reverse().take(digits@.len() - i),
        decreases i,
    {
        i = i - 1;
        let ghost before = s@;
        push_char(&mut s, digits[i]);
        proof {
            let r = digits@.reverse();
            assert(r[digits@.len() - 1 - i] == digits@[i as int]);
            assert(r.take(digits@.len() - i) =~= r.take(digits@.len() - 1 - i).push(digits@[i as int]));
        }
    }
    proof {
        assert(digits@.reverse().take(digits@.len() as int) =~= digits@.reverse());
        assert(decimal(rest as nat) == seq![c]);
    }
    s
}

/// `s` between double quotes.
pub open spec fn quoted(s: Seq<char>) -> Seq<char> {
    "\""@ + s + "\""@
}

/// What std's `Debug` formatting of a `str` shows: the text between double
/// quotes, with its special characters escaped.
pub uninterp spec fn debug_of(s: Seq<char>) -> Seq<char>;

/// A character that `Debug` of a `str` shows as itself: printable ASCII other
/// than the double quote and the backslash.
pub open spec fn shows_plain(c: char) -> bool {
    ' ' <= c && c <= '~' && c != '"' && c != '\\'
}

/// std's `{:?}` of a `str`.
///
/// Trusted: the result is the named debug form, and on a text of characters
/// that show as themselves it is just the text between double quotes (std
/// escapes only quotes, backslashes, and characters that are not printable).
#[verifier::external_body]
pub(crate) fn debug_str(s: &str) -> (d: String)
    ensures
        d@ == debug_of(s@),
        (forall|i: int| 0 <= i < s@.len() ==> shows_plain(#[trigger] s@[i])) ==> d@ == quoted(s@),
{
    format!("{:?}", s)
}

} // verus!
