//! Filesystem and registry path handling.
//!
//! Paths are kept as entered and reasoned about through `normalize`, which
//! canonicalizes separators. A normalized absolute path can be mapped to a
//! drive-independent, portable form for storage and back again; restoring a
//! backup made on another platform relies on that round trip.

use vstd::prelude::*;
use crate::strutil::{chars_to_string, str_to_chars, chars_eq, chars_prefix, is_prefix_of};

verus! {

/// One character with `\` canonicalized to `/`.
pub open spec fn canon_char(c: char) -> char {
    if c == '\\' { '/' } else { c }
}

/// Every separator canonicalized to `/`.
pub open spec fn canon_seq(s: Seq<char>) -> Seq<char> {
    s.map_values(|c: char| canon_char(c))
}

/// Consecutive separators collapsed into one, keeping the first of each run.
pub open spec fn squash_seq(s: Seq<char>) -> Seq<char>
    decreases s.len(),
{
    if s.len() == 0 {
        Seq::empty()
    } else {
        let rest = squash_seq(s.drop_last());
        if s.last() == '/' && rest.len() > 0 && rest.last() == '/' {
            rest
        } else {
            rest.push(s.last())
        }
    }
}

/// A trailing separator dropped, except on the root path itself.
pub open spec fn strip_trailing_seq(s: Seq<char>) -> Seq<char> {
    if s.len() > 1 && s.last() == '/' {
        s.drop_last()
    } else {
        s
    }
}

/// The normal form of a path: `\` becomes `/`, runs of `/` collapse, and a
/// trailing `/` is dropped except on the root itself.
pub open spec fn normalize_seq(s: Seq<char>) -> Seq<char> {
    strip_trailing_seq(squash_seq(canon_seq(s)))
}

/// An ASCII letter, as a drive letter is written.
pub open spec fn is_drive_letter(c: char) -> bool {
    ('A' <= c && c <= 'Z') || ('a' <= c && c <= 'z')
}

/// True when the normal form of a path is absolute: rooted at `/` or at a
/// drive letter followed by `:`.
pub open spec fn is_absolute_seq(s: Seq<char>) -> bool {
    let n = normalize_seq(s);
    ||| (n.len() > 0 && n[0] == '/')
    ||| (n.len() >= 2 && is_drive_letter(n[0]) && n[1] == ':' && (n.len() == 2 || n[2] == '/'))
}

/// The portable form of a normalized path: `X:...` becomes `drive-X...`, and
/// a path rooted at `/` gains a leading `drive` segment.
pub open spec fn portable_of(n: Seq<char>) -> Seq<char> {
    if n.len() >= 2 && is_drive_letter(n[0]) && n[1] == ':' {
        seq!['d', 'r', 'i', 'v', 'e', '-', n[0]] + n.skip(2)
    } else if n.len() > 0 && n[0] == '/' {
        seq!['d', 'r', 'i', 'v', 'e'] + n
    } else {
        n
    }
}

/// Inverts `portable_of` on portable forms of absolute paths.
pub open spec fn unportable_of(p: Seq<char>) -> Seq<char> {
    if p.len() >= 6 && p.subrange(0, 6) == seq!['d', 'r', 'i', 'v', 'e', '-'] && (p.len() == 7
        || (p.len() > 7 && p[7] == '/')) {
        seq![p[6], ':'] + p.skip(7)
    } else if p.len() >= 6 && p.subrange(0, 5) == seq!['d', 'r', 'i', 'v', 'e'] && p[5] == '/' {
        p.skip(5)
    } else {
        p
    }
}

/// Exec form of `canon_char`.
fn canon_char_exec(c: char) -> (r: char)
    ensures
        r == canon_char(c),
{
    if c == '\\' { '/' } else { c }
}

/// Normalizes a character vector as `normalize_seq` describes.
pub fn normalize_chars(s: &Vec<char>) -> (r: Vec<char>)
    ensures
        r@ == normalize_seq(s@),
{
    let mut v: Vec<char> = Vec::new();
    let mut i: usize = 0;
    while i < s.len()
        invariant
            i <= s@.len(),
            v@ == squash_seq(canon_seq(s@.subrange(0, i as int))),
        decreases s.len() - i,
    {
        let c = canon_char_exec(s[i]);
        proof {
            assert(canon_seq(s@.subrange(0, i + 1)) =~= canon_seq(s@.subrange(0, i as int)).push(
                canon_char(s@[i as int]),
            ));
            assert(canon_seq(s@.subrange(0, i + 1)).drop_last() =~= canon_seq(
                s@.subrange(0, i as int),
            ));
        }
        if c == '/' && v.len() > 0 {
            let last = v[v.len() - 1];
            if last == '/' {
                // run of separators: keep the first
                i += 1;
                continue;
            }
        }
        v.push(c);
        i += 1;
    }
    assert(s@.subrange(0, s@.len() as int) =~= s@);
    if v.len() > 1 {
        let last = v[v.len() - 1];
        if last == '/' {
            v.pop();
        }
    }
    v
}

/// A filesystem path, kept as entered and compared in normal form.
#[derive(Clone, Debug, PartialEq, Eq, Hash)]
pub struct StrictPath {
    pub raw: String,
}

impl StrictPath {
    /// The normal form of this path.
    pub open spec fn norm(&self) -> Seq<char> {
        normalize_seq(self.raw@)
    }

    pub fn new(raw: String) -> (r: Self)
        ensures
            r.raw@ == raw@,
    {
        Self { raw }
    }

    /// An equal copy.
    pub fn duplicate(&self) -> (r: Self)
        ensures
            r == *self,
    {
        StrictPath { raw: self.raw.clone() }
    }

    /// Replaces the held text, as an undo or redo of an edit does.
    pub fn reset(&mut self, raw: String)
        ensures
            final(self).raw@ == raw@,
    {
        self.raw = raw;
    }

    /// The path in normal form.
    pub fn render(&self) -> (r: String)
        ensures
            r@ == self.norm(),
    {
        let chars = str_to_chars(self.raw.as_str());
        let n = normalize_chars(&chars);
        chars_to_string(&n)
    }

    /// True when the two paths have the same normal form.
    pub fn same_path(&self, other: &StrictPath) -> (r: bool)
        ensures
            r == (self.norm() == other.norm()),
    {
        let a = self.render();
        let b = other.render();
        a == b
    }

    /// True when `self`, in normal form, is `other` or sits under it.
    pub open spec fn spec_is_under(&self, other: &StrictPath) -> bool {
        let a = self.norm();
        let b = other.norm();
        a == b || is_prefix_of(b.push('/'), a)
    }

    pub fn is_under(&self, other: &StrictPath) -> (r: bool)
        ensures
            r == self.spec_is_under(other),
    {
        let sa = self.render();
        let a = str_to_chars(sa.as_str());
        let sb = other.render();
        let mut b = str_to_chars(sb.as_str());
        if chars_eq(&a, &b) {
            return true;
        }
        b.push('/');
        chars_prefix(&a, &b)
    }

    /// The portable, drive-independent rendering of this path.
    pub fn to_portable(&self) -> (r: String)
        ensures
            r@ == portable_of(self.norm()),
    {
        let rendered = self.render();
        let n = str_to_chars(rendered.as_str());
        let mut out: Vec<char> = Vec::new();
        if n.len() >= 2 && is_drive_letter_exec(n[0]) && n[1] == ':' {
            out.push('d');
            out.push('r');
            out.push('i');
            out.push('v');
            out.push('e');
            out.push('-');
            out.push(n[0]);
            let mut i: usize = 2;
            while i < n.len()
                invariant
                    2 <= i <= n@.len(),
                    n@.len() >= 2,
                    out@ == seq!['d', 'r', 'i', 'v', 'e', '-', n@[0]] + n@.subrange(2, i as int),
                decreases n.len() - i,
            {
                out.push(n[i]);
                assert(out@ =~= seq!['d', 'r', 'i', 'v', 'e', '-', n@[0]] + n@.subrange(
                    2,
                    i + 1,
                ));
                i += 1;
            }
            assert(n@.subrange(2, n@.len() as int) =~= n@.skip(2));
        } else if n.len() > 0 && n[0] == '/' {
            out.push('d');
            out.push('r');
            out.push('i');
            out.push('v');
            out.push('e');
            let mut i: usize = 0;
            while i < n.len()
                invariant
                    i <= n@.len(),
                    out@ == seq!['d', 'r', 'i', 'v', 'e'] + n@.subrange(0, i as int),
                decreases n.len() - i,
            {
                out.push(n[i]);
                assert(out@ =~= seq!['d', 'r', 'i', 'v', 'e'] + n@.subrange(0, i + 1));
                i += 1;
            }
            assert(n@.subrange(0, n@.len() as int) =~= n@);
        } else {
            assert(portable_of(n@) == n@);
            return chars_to_string(&n);
        }
        chars_to_string(&out)
    }
}

/// Exec form of `is_drive_letter`.
pub fn is_drive_letter_exec(c: char) -> (r: bool)
    ensures
        r == is_drive_letter(c),
{
    let u = c as u32;
    (u >= 65 && u <= 90) || (u >= 97 && u <= 122)
}

/// Maps a portable rendering back to a concrete path, inverting
/// `StrictPath::to_portable` for absolute paths.
pub fn from_portable(s: &str) -> (r: StrictPath)
    ensures
        r.raw@ == unportable_of(s@),
{
    let p = str_to_chars(s);
    let mut out: Vec<char> = Vec::new();
    let is_dash = p.len() >= 6 && p[0] == 'd' && p[1] == 'r' && p[2] == 'i' && p[3] == 'v'
        && p[4] == 'e' && p[5] == '-' && (p.len() == 7 || (p.len() > 7 && p[7] == '/'));
    if is_dash {
        assert(p@.subrange(0, 6) =~= seq!['d', 'r', 'i', 'v', 'e', '-']);
        out.push(p[6]);
        out.push(':');
        let mut i: usize = 7;
        while i < p.len()
            invariant
                7 <= i <= p@.len(),
                p@.len() >= 7,
                out@ == seq![p@[6], ':'] + p@.subrange(7, i as int),
            decreases p.len() - i,
        {
            out.push(p[i]);
            assert(out@ =~= seq![p@[6], ':'] + p@.subrange(7, i + 1));
            i += 1;
        }
        assert(p@.subrange(7, p@.len() as int) =~= p@.skip(7));
        return StrictPath { raw: chars_to_string(&out) };
    }
    let is_plain = p.len() >= 6 && p[0] == 'd' && p[1] == 'r' && p[2] == 'i' && p[3] == 'v'
        && p[4] == 'e' && p[5] == '/';
    if is_plain {
        assert(p@.subrange(0, 5) =~= seq!['d', 'r', 'i', 'v', 'e']);
        let mut i: usize = 5;
        while i < p.len()
            invariant
                5 <= i <= p@.len(),
                p@.len() >= 6,
                out@ == p@.subrange(5, i as int),
            decreases p.len() - i,
        {
            out.push(p[i]);
            assert(out@ =~= p@.subrange(5, i + 1));
            i += 1;
        }
        assert(p@.subrange(5, p@.len() as int) =~= p@.skip(5));
        return StrictPath { raw: chars_to_string(&out) };
    }
    proof {
        if p@.len() >= 6 && p@.subrange(0, 6) == seq!['d', 'r', 'i', 'v', 'e', '-'] {
            assert(p@[5] == '-');
        }
        if p@.len() >= 6 && p@.subrange(0, 5) == seq!['d', 'r', 'i', 'v', 'e'] && p@[5] == '/' {
            assert(p@[0] == 'd' && p@[1] == 'r' && p@[2] == 'i' && p@[3] == 'v' && p@[4] == 'e');
        }
        assert(unportable_of(p@) == p@);
    }
    StrictPath { raw: chars_to_string(&p) }
}

/// The direction in which a configured path rewrite applies.
#[derive(Clone, Copy, Debug, PartialEq, Eq)]
pub enum RedirectKind {
    Backup,
    Restore,
    Bidirectional,
}

/// An ordered rewrite rule: when backing up, `source` maps to `target`; when
/// restoring, `target` maps back to `source`.
#[derive(Clone, Debug, PartialEq, Eq)]
pub struct RedirectConfig {
    pub kind: RedirectKind,
    pub source: StrictPath,
    pub target: StrictPath,
}

/// True when a rule participates in the given direction.
pub open spec fn redirect_applies(r: RedirectConfig, restoring: bool) -> bool {
    if restoring {
        r.kind is Restore || r.kind is Bidirectional
    } else {
        r.kind is Backup || r.kind is Bidirectional
    }
}

/// The prefix a rule rewrites from, in normal form, for the given direction.
pub open spec fn redirect_from(r: RedirectConfig, restoring: bool) -> Seq<char> {
    if restoring {
        r.target.norm()
    } else {
        r.source.norm()
    }
}

/// The prefix a rule rewrites to, in normal form, for the given direction.
pub open spec fn redirect_to(r: RedirectConfig, restoring: bool) -> Seq<char> {
    if restoring {
        r.source.norm()
    } else {
        r.target.norm()
    }
}

/// True when a rule applies in the given direction and its prefix covers the
/// normalized path `n`: the path equals the prefix or sits under it.
pub open spec fn redirect_matches(r: RedirectConfig, restoring: bool, n: Seq<char>) -> bool {
    redirect_applies(r, restoring) && (n == redirect_from(r, restoring) || is_prefix_of(
        redirect_from(r, restoring).push('/'),
        n,
    ))
}

/// Applies the first matching rule to the normalized path `n`; the path is
/// returned unchanged when no rule matches.
pub open spec fn spec_redirected(n: Seq<char>, rules: Seq<RedirectConfig>, restoring: bool) -> Seq<
    char,
>
    decreases rules.len(),
{
    if rules.len() == 0 {
        n
    } else if redirect_matches(rules[0], restoring, n) {
        redirect_to(rules[0], restoring) + n.skip(redirect_from(rules[0], restoring).len() as int)
    } else {
        spec_redirected(n, rules.skip(1), restoring)
    }
}

fn redirect_matches_exec(r: &RedirectConfig, restoring: bool, n: &Vec<char>) -> (b: bool)
    ensures
        b == redirect_matches(*r, restoring, n@),
{
    let applies = if restoring {
        matches!(r.kind, RedirectKind::Restore | RedirectKind::Bidirectional)
    } else {
        matches!(r.kind, RedirectKind::Backup | RedirectKind::Bidirectional)
    };
    if !applies {
        return false;
    }
    let rendered = if restoring {
        r.target.render()
    } else {
        r.source.render()
    };
    let mut from = str_to_chars(rendered.as_str());
    if chars_eq(n, &from) {
        return true;
    }
    from.push('/');
    chars_prefix(n, &from)
}

/// Resolves where a file's content lives on the other side of the configured
/// redirects: the original location maps forward when backing up, and a
/// backed-up location maps back when restoring. The first matching rule wins;
/// the path comes back unchanged, in normal form, when none matches.
pub fn game_file_target(original: &StrictPath, redirects: &Vec<RedirectConfig>, restoring: bool) -> (
    r: StrictPath)
    ensures
        r.raw@ == spec_redirected(original.norm(), redirects@, restoring),
{
    let rendered = original.render();
    let n = str_to_chars(rendered.as_str());
    assert(redirects@.skip(0) =~= redirects@);
    let mut i: usize = 0;
    while i < redirects.len()
        invariant
            i <= redirects@.len(),
            n@ == original.norm(),
            spec_redirected(n@, redirects@.skip(i as int), restoring) == spec_redirected(
                n@,
                redirects@,
                restoring,
            ),
            forall|j: int| 0 <= j < i ==> !redirect_matches(redirects@[j], restoring, n@),
        decreases redirects.len() - i,
    {
        proof {
            assert(redirects@.skip(i as int)[0] == redirects@[i as int]);
        }
        if redirect_matches_exec(&redirects[i], restoring, &n) {
            let to_rendered = if restoring {
                redirects[i].source.render()
            } else {
                redirects[i].target.render()
            };
            let mut out = str_to_chars(to_rendered.as_str());
            let from_rendered = if restoring {
                redirects[i].target.render()
            } else {
                redirects[i].source.render()
            };
            let from = str_to_chars(from_rendered.as_str());
            let flen = from.len();
            proof {
                assert(from@ == redirect_from(redirects@[i as int], restoring));
                assert(redirect_from(redirects@[i as int], restoring).len() <= n@.len());
                assert(out@ =~= redirect_to(redirects@[i as int], restoring) + n@.subrange(
                    flen as int,
                    flen as int,
                ));
            }
            let mut k: usize = flen;
            while k < n.len()
                invariant
                    flen <= k <= n@.len(),
                    out@ == redirect_to(redirects@[i as int], restoring) + n@.subrange(
                        flen as int,
                        k as int,
                    ),
                decreases n.len() - k,
            {
                out.push(n[k]);
                assert(out@ =~= redirect_to(redirects@[i as int], restoring) + n@.subrange(
                    flen as int,
                    k + 1,
                ));
                k += 1;
            }
            assert(n@.subrange(flen as int, n@.len() as int) =~= n@.skip(flen as int));
            proof {
                assert(spec_redirected(n@, redirects@.skip(i as int), restoring) == redirect_to(
                    redirects@[i as int],
                    restoring,
                ) + n@.skip(redirect_from(redirects@[i as int], restoring).len() as int));
            }
            return StrictPath { raw: chars_to_string(&out) };
        }
        proof {
            assert(redirects@.skip(i as int).skip(1) =~= redirects@.skip(i + 1));
        }
        i += 1;
    }
    assert(redirects@.skip(i as int).len() == 0);
    StrictPath { raw: chars_to_string(&n) }
}

/// Round-trip law: mapping the normal form of an absolute path to its
/// portable rendering and back yields that normal form again. Together with
/// the contracts of `to_portable` and `from_portable`, for any absolute
/// `StrictPath` `p`, `from_portable(&p.to_portable()).raw` equals
/// `p.render()`.
pub proof fn lemma_portable_round_trip(n: Seq<char>)
    requires
        (n.len() > 0 && n[0] == '/') || (n.len() >= 2 && is_drive_letter(n[0]) && n[1] == ':' && (
        n.len() == 2 || n[2] == '/')),
    ensures
        unportable_of(portable_of(n)) == n,
{
    if n.len() >= 2 && is_drive_letter(n[0]) && n[1] == ':' {
        let p = seq!['d', 'r', 'i', 'v', 'e', '-', n[0]] + n.skip(2);
        assert(portable_of(n) == p);
        assert(p.subrange(0, 6) =~= seq!['d', 'r', 'i', 'v', 'e', '-']);
        if n.len() == 2 {
            assert(p.len() == 7);
        } else {
            assert(p[7] == n.skip(2)[0]);
            assert(p[7] == '/');
        }
        assert(unportable_of(p) == seq![p[6], ':'] + p.skip(7));
        assert(seq![p[6], ':'] + p.skip(7) =~= n);
    } else {
        let p = seq!['d', 'r', 'i', 'v', 'e'] + n;
        assert(portable_of(n) == p);
        assert(p[5] == n[0]);
        assert(p[5] == '/');
        assert(p.subrange(0, 6) != seq!['d', 'r', 'i', 'v', 'e', '-']) by {
            assert(p.subrange(0, 6)[5] == '/');
            assert(seq!['d', 'r', 'i', 'v', 'e', '-'][5] == '-');
        }
        assert(p.subrange(0, 5) =~= seq!['d', 'r', 'i', 'v', 'e']);
        assert(unportable_of(p) == p.skip(5));
        assert(p.skip(5) =~= n);
    }
}

/// The round-trip law stated over a path value: an absolute path's normal
/// form survives the portable rendering unchanged.
pub proof fn lemma_portable_round_trip_path(p: StrictPath)
    requires
        is_absolute_seq(p.raw@),
    ensures
        unportable_of(portable_of(p.norm())) == p.norm(),
{
    lemma_portable_round_trip(p.norm());
}

/// A registry key path, compared as entered.
#[derive(Clone, Debug, PartialEq, Eq, Hash)]
pub struct RegistryItem {
    pub raw: String,
}

impl RegistryItem {
    pub fn new(raw: String) -> (r: Self)
        ensures
            r.raw@ == raw@,
    {
        Self { raw }
    }

    /// An equal copy.
    pub fn duplicate(&self) -> (r: Self)
        ensures
            r == *self,
    {
        RegistryItem { raw: self.raw.clone() }
    }

    /// Replaces the held text, as an undo or redo of an edit does.
    pub fn reset(&mut self, raw: String)
        ensures
            final(self).raw@ == raw@,
    {
        self.raw = raw;
    }

    /// The key path as entered.
    pub fn render(&self) -> (r: String)
        ensures
            r@ == self.raw@,
    {
        self.raw.clone()
    }

    pub fn same_key(&self, other: &RegistryItem) -> (r: bool)
        ensures
            r == (self.raw@ == other.raw@),
    {
        self.raw == other.raw
    }
}

} // verus!
