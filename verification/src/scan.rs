//! The scan engine: resolves a subject's manifest patterns against a
//! snapshot of the filesystem and registry, honouring constraints, ignore
//! filters, and per-subject toggles.
//!
//! Directory walking, hashing, and registry enumeration are inputs here: the
//! caller supplies a `SystemSnapshot` listing the files (with size and
//! content hash) and registry keys it can see, and the engine decides,
//! deterministically, which of them the subject's patterns cover.

use vstd::prelude::*;
use crate::manifest::{Game, GameFileEntry, GameFileConstraint, GameRegistryEntry,
    GameRegistryConstraint, Os, Store};
use crate::matching::{glob_matches, glob_match_chars};
use crate::layout::{Backup, BackupInfo};
use crate::path::{StrictPath, RegistryItem, normalize_seq, normalize_chars};
use crate::strutil::{str_to_chars, chars_eq, chars_prefix, is_prefix_of, str_eq};

verus! {

/// A scan root: a directory to search, owned by a store.
#[derive(Clone, Debug, PartialEq, Eq)]
pub struct RootsConfig {
    pub path: StrictPath,
    pub store: Store,
}

/// The fixed context of one scan: the platform and the directories that
/// placeholder tokens resolve to — the home directory, the OS app-data
/// directories, and the drive root of a compatibility prefix, when one is
/// configured.
#[derive(Clone, Debug, PartialEq, Eq)]
pub struct ScanContext {
    pub os: Os,
    pub home: StrictPath,
    pub win_app_data: StrictPath,
    pub win_local_app_data: StrictPath,
    pub win_documents: StrictPath,
    pub xdg_config: StrictPath,
    pub xdg_data: StrictPath,
    pub wine_prefix: Option<StrictPath>,
}

/// One file the caller can see: its path, byte size, and content hash.
#[derive(Clone, Debug, PartialEq, Eq)]
pub struct SystemFile {
    pub path: StrictPath,
    pub size: u64,
    pub hash: String,
}

/// One registry key the caller can see.
#[derive(Clone, Debug, PartialEq, Eq)]
pub struct SystemRegistryEntry {
    pub path: RegistryItem,
    pub content: String,
}

/// Everything the caller can see: the inputs of one scan.
#[derive(Clone, Debug, PartialEq, Eq, Default)]
pub struct SystemSnapshot {
    pub files: Vec<SystemFile>,
    pub registry: Vec<SystemRegistryEntry>,
}

/// Paths whose matches are reported but flagged as ignored.
#[derive(Clone, Debug, PartialEq, Eq, Default)]
pub struct BackupFilter {
    pub ignored_paths: Vec<StrictPath>,
}

/// Per-subject paths the user has toggled off.
#[derive(Clone, Debug, PartialEq, Eq, Default)]
pub struct ToggledPaths(pub Vec<(String, StrictPath)>);

/// Per-subject registry keys the user has toggled off.
#[derive(Clone, Debug, PartialEq, Eq, Default)]
pub struct ToggledRegistry(pub Vec<(String, RegistryItem)>);

/// The chosen base directory per subject, picked from the roots by the
/// install-directory heuristic.
#[derive(Clone, Debug, PartialEq, Eq, Default)]
pub struct InstallDirRanking(pub Vec<(String, StrictPath)>);

/// One file a scan matched.
#[derive(Clone, Debug, PartialEq, Eq)]
pub struct ScannedFile {
    pub path: StrictPath,
    pub size: u64,
    pub hash: String,
    pub original_path: Option<StrictPath>,
    pub ignored: bool,
    pub container: Option<StrictPath>,
}

/// One registry key a scan matched, with its exported content.
#[derive(Clone, Debug, PartialEq, Eq)]
pub struct ScannedRegistry {
    pub path: RegistryItem,
    pub content: String,
    pub ignored: bool,
}

impl ScannedFile {
    pub fn new(path: &str, size: u64, hash: &str) -> (r: Self)
        ensures
            r.path.raw@ == path@,
            r.size == size,
            r.hash@ == hash@,
            r.original_path is None,
            !r.ignored,
            r.container is None,
    {
        ScannedFile {
            path: StrictPath::new(path.to_owned()),
            size,
            hash: hash.to_owned(),
            original_path: None,
            ignored: false,
            container: None,
        }
    }

    /// The path this file had before any redirect: the recorded original
    /// when restoring, and the scanned path itself otherwise.
    pub fn original_path(&self) -> (r: &StrictPath)
        ensures
            self.original_path is Some ==> r == &self.original_path->0,
            self.original_path is None ==> r == &self.path,
    {
        match &self.original_path {
            Some(x) => x,
            None => &self.path,
        }
    }
}

impl ScannedRegistry {
    pub fn new(path: &str) -> (r: Self)
        ensures
            r.path.raw@ == path@,
            r.content@.len() == 0,
            !r.ignored,
    {
        ScannedRegistry {
            path: RegistryItem::new(path.to_owned()),
            content: String::new(),
            ignored: false,
        }
    }
}

/// True when normalized path `a` equals normalized path `b` or sits under it.
pub open spec fn path_under(a: Seq<char>, b: Seq<char>) -> bool {
    a == b || is_prefix_of(b.push('/'), a)
}

/// Decides `path_under` on normalized character vectors.
pub fn path_under_chars(a: &Vec<char>, b: &Vec<char>) -> (r: bool)
    ensures
        r == path_under(a@, b@),
{
    if chars_eq(a, b) {
        return true;
    }
    let mut bs = Vec::new();
    let mut i: usize = 0;
    while i < b.len()
        invariant
            i <= b@.len(),
            bs@ == b@.subrange(0, i as int),
        decreases b.len() - i,
    {
        bs.push(b[i]);
        assert(bs@ =~= b@.subrange(0, i + 1));
        i += 1;
    }
    assert(bs@ =~= b@);
    bs.push('/');
    chars_prefix(a, &bs)
}

/// True when any listed constraint matches the context; an absent or empty
/// list always matches. A constraint matches when each field it specifies
/// equals the context's value.
pub open spec fn spec_file_constraint_matches(c: GameFileConstraint, os: Os, store: Store) -> bool {
    (c.os matches Some(o) ==> o == os) && (c.store matches Some(s) ==> s == store)
}

pub open spec fn spec_file_constraint_ok(
    when: &Option<Vec<GameFileConstraint>>,
    os: Os,
    store: Store,
) -> bool {
    match when {
        None => true,
        Some(cs) => cs@.len() == 0 || exists|i: int|
            0 <= i < cs@.len() && spec_file_constraint_matches(#[trigger] cs@[i], os, store),
    }
}

/// Decides `spec_file_constraint_ok`.
#[verifier::loop_isolation(false)]
pub fn file_constraint_ok(when: &Option<Vec<GameFileConstraint>>, os: Os, store: Store) -> (r:
    bool)
    ensures
        r == spec_file_constraint_ok(when, os, store),
{
    match when {
        None => true,
        Some(cs) => {
            if cs.len() == 0 {
                return true;
            }
            let mut i: usize = 0;
            while i < cs.len()
                invariant
                    i <= cs@.len(),
                    forall|j: int|
                        0 <= j < i ==> !spec_file_constraint_matches(#[trigger] cs@[j], os, store),
                decreases cs@.len() - i,
            {
                let os_ok = match cs[i].os {
                    Some(o) => o == os,
                    None => true,
                };
                let store_ok = match cs[i].store {
                    Some(s) => s == store,
                    None => true,
                };
                if os_ok && store_ok {
                    proof {
                        assert(spec_file_constraint_matches(cs@[i as int], os, store));
                    }
                    return true;
                }
                i += 1;
            }
            false
        },
    }
}

/// True when any listed registry constraint matches some root's store; an
/// absent or empty list always matches.
pub open spec fn spec_registry_constraint_matches(
    c: GameRegistryConstraint,
    roots: Seq<RootsConfig>,
) -> bool {
    c.store matches Some(s) ==> exists|r: int|
        0 <= r < roots.len() && (#[trigger] roots[r]).store == s
}

pub open spec fn spec_registry_constraint_ok(
    when: &Option<Vec<GameRegistryConstraint>>,
    roots: Seq<RootsConfig>,
) -> bool {
    match when {
        None => true,
        Some(cs) => cs@.len() == 0 || exists|i: int|
            0 <= i < cs@.len() && spec_registry_constraint_matches(#[trigger] cs@[i], roots),
    }
}

/// Decides `spec_registry_constraint_ok`.
#[verifier::loop_isolation(false)]
pub fn registry_constraint_ok(
    when: &Option<Vec<GameRegistryConstraint>>,
    roots: &Vec<RootsConfig>,
) -> (r: bool)
    ensures
        r == spec_registry_constraint_ok(when, roots@),
{
    match when {
        None => true,
        Some(cs) => {
            if cs.len() == 0 {
                return true;
            }
            let mut i: usize = 0;
            while i < cs.len()
                invariant
                    i <= cs@.len(),
                    forall|j: int|
                        0 <= j < i ==> !spec_registry_constraint_matches(
                            #[trigger] cs@[j],
                            roots@,
                        ),
                decreases cs@.len() - i,
            {
                let ok = match cs[i].store {
                    Some(s) => {
                        let mut found = false;
                        let mut r: usize = 0;
                        while r < roots.len()
                            invariant
                                r <= roots@.len(),
                                found == exists|k: int|
                                    0 <= k < r && (#[trigger] roots@[k]).store == s,
                            decreases roots@.len() - r,
                        {
                            if roots[r].store == s {
                                found = true;
                            }
                            r += 1;
                        }
                        found
                    },
                    None => true,
                };
                if ok {
                    proof {
                        assert(spec_registry_constraint_matches(cs@[i as int], roots@));
                    }
                    return true;
                }
                i += 1;
            }
            false
        },
    }
}

/// The directory values placeholder tokens resolve to, each in normal
/// form; `base` and `wine_prefix` are absent when no ranked base directory
/// or compatibility prefix exists.
pub struct TokenDirs {
    pub home: Seq<char>,
    pub win_app_data: Seq<char>,
    pub win_local_app_data: Seq<char>,
    pub win_documents: Seq<char>,
    pub xdg_config: Seq<char>,
    pub xdg_data: Seq<char>,
    pub base: Option<Seq<char>>,
    pub wine_prefix: Option<Seq<char>>,
}

/// The same directory values as concrete character vectors, as the scan
/// hands them to the resolver.
pub struct ScanDirs {
    pub home: Vec<char>,
    pub win_app_data: Vec<char>,
    pub win_local_app_data: Vec<char>,
    pub win_documents: Vec<char>,
    pub xdg_config: Vec<char>,
    pub xdg_data: Vec<char>,
    pub base: Option<Vec<char>>,
    pub wine_prefix: Option<Vec<char>>,
}

/// The token values a `ScanDirs` holds.
pub open spec fn dirs_view(d: &ScanDirs) -> TokenDirs {
    TokenDirs {
        home: d.home@,
        win_app_data: d.win_app_data@,
        win_local_app_data: d.win_local_app_data@,
        win_documents: d.win_documents@,
        xdg_config: d.xdg_config@,
        xdg_data: d.xdg_data@,
        base: match d.base {
            Some(ref b) => Some(b@),
            None => None,
        },
        wine_prefix: match d.wine_prefix {
            Some(ref b) => Some(b@),
            None => None,
        },
    }
}

/// The token values a scan context supplies, given the subject's ranked
/// base directory.
pub open spec fn tokens_of(ctx: ScanContext, base: Option<Seq<char>>) -> TokenDirs {
    TokenDirs {
        home: ctx.home.norm(),
        win_app_data: ctx.win_app_data.norm(),
        win_local_app_data: ctx.win_local_app_data.norm(),
        win_documents: ctx.win_documents.norm(),
        xdg_config: ctx.xdg_config.norm(),
        xdg_data: ctx.xdg_data.norm(),
        base,
        wine_prefix: match ctx.wine_prefix {
            Some(p) => Some(p.norm()),
            None => None,
        },
    }
}

/// A resolved pattern: placeholder tokens replaced by concrete directories.
/// `<root>` becomes the root's path, `<home>` the home directory,
/// `<base>` the subject's ranked base directory, `<storeUserId>` a `*`
/// wildcard, `<winAppData>`/`<winLocalAppData>`/`<winDocuments>` and
/// `<xdgConfig>`/`<xdgData>` the OS app-data directories, and
/// `<winePrefix>` the compatibility prefix's drive root. A pattern with an
/// absent optional token, or any other placeholder, resolves to nothing.
pub open spec fn spec_resolve_pattern(
    pat: Seq<char>,
    root_path: Seq<char>,
    d: TokenDirs,
) -> Option<Seq<char>>
    decreases pat.len(),
{
    if pat.len() == 0 {
        Some(Seq::empty())
    } else if pat[0] == '<' {
        if pat.len() >= 6 && pat.subrange(0, 6) == "<root>"@ {
            match spec_resolve_pattern(pat.skip(6), root_path, d) {
                Some(rest) => Some(root_path + rest),
                None => None,
            }
        } else if pat.len() >= 6 && pat.subrange(0, 6) == "<home>"@ {
            match spec_resolve_pattern(pat.skip(6), root_path, d) {
                Some(rest) => Some(d.home + rest),
                None => None,
            }
        } else if pat.len() >= 6 && pat.subrange(0, 6) == "<base>"@ {
            match d.base {
                None => None,
                Some(b) => match spec_resolve_pattern(pat.skip(6), root_path, d) {
                    Some(rest) => Some(b + rest),
                    None => None,
                },
            }
        } else if pat.len() >= 13 && pat.subrange(0, 13) == "<storeUserId>"@ {
            match spec_resolve_pattern(pat.skip(13), root_path, d) {
                Some(rest) => Some(seq!['*'] + rest),
                None => None,
            }
        } else if pat.len() >= 12 && pat.subrange(0, 12) == "<winAppData>"@ {
            match spec_resolve_pattern(pat.skip(12), root_path, d) {
                Some(rest) => Some(d.win_app_data + rest),
                None => None,
            }
        } else if pat.len() >= 17 && pat.subrange(0, 17) == "<winLocalAppData>"@ {
            match spec_resolve_pattern(pat.skip(17), root_path, d) {
                Some(rest) => Some(d.win_local_app_data + rest),
                None => None,
            }
        } else if pat.len() >= 14 && pat.subrange(0, 14) == "<winDocuments>"@ {
            match spec_resolve_pattern(pat.skip(14), root_path, d) {
                Some(rest) => Some(d.win_documents + rest),
                None => None,
            }
        } else if pat.len() >= 11 && pat.subrange(0, 11) == "<xdgConfig>"@ {
            match spec_resolve_pattern(pat.skip(11), root_path, d) {
                Some(rest) => Some(d.xdg_config + rest),
                None => None,
            }
        } else if pat.len() >= 9 && pat.subrange(0, 9) == "<xdgData>"@ {
            match spec_resolve_pattern(pat.skip(9), root_path, d) {
                Some(rest) => Some(d.xdg_data + rest),
                None => None,
            }
        } else if pat.len() >= 12 && pat.subrange(0, 12) == "<winePrefix>"@ {
            match d.wine_prefix {
                None => None,
                Some(b) => match spec_resolve_pattern(pat.skip(12), root_path, d) {
                    Some(rest) => Some(b + rest),
                    None => None,
                },
            }
        } else {
            None
        }
    } else {
        match spec_resolve_pattern(pat.skip(1), root_path, d) {
            Some(rest) => Some(seq![pat[0]] + rest),
            None => None,
        }
    }
}

fn chars_start_with(pat: &Vec<char>, i: usize, lit: &str) -> (r: bool)
    requires
        i <= pat@.len(),
    ensures
        r == (pat@.len() - i >= lit@.len() && pat@.subrange(
            i as int,
            i + lit@.len(),
        ) == lit@),
{
    let lc = str_to_chars(lit);
    if pat.len() - i < lc.len() {
        return false;
    }
    let mut k: usize = 0;
    while k < lc.len()
        invariant
            pat@.len() <= usize::MAX,
            i + lc@.len() <= pat@.len(),
            k <= lc@.len(),
            lc@ == lit@,
            forall|j: int| 0 <= j < k ==> pat@[i + j] == lc@[j],
        decreases lc.len() - k,
    {
        proof {
            assert(i + k < pat@.len());
        }
        if pat[i + k] != lc[k] {
            assert(pat@.subrange(i as int, i + lit@.len())[k as int] != lit@[k as int]);
            return false;
        }
        k += 1;
    }
    assert(pat@.subrange(i as int, i + lit@.len()) =~= lit@);
    true
}

fn resolve_pattern_from(pat: &Vec<char>, i: usize, root_path: &Vec<char>, dirs: &ScanDirs) -> (r:
    Option<Vec<char>>)
    requires
        i <= pat@.len(),
    ensures
        (match r {
            Some(v) => spec_resolve_pattern(pat@.skip(i as int), root_path@, dirs_view(dirs))
                == Some(v@),
            None => spec_resolve_pattern(pat@.skip(i as int), root_path@, dirs_view(dirs))
                is None,
        }),
    decreases pat@.len() - i,
{
    let ghost pp = pat@.skip(i as int);
    if i == pat.len() {
        assert(pp.len() == 0);
        let r: Vec<char> = Vec::new();
        assert(r@ =~= Seq::<char>::empty());
        return Some(r);
    }
    assert(pp[0] == pat@[i as int]);
    assert(forall|j: int| 0 <= j < pp.len() ==> pp[j] == pat@[i + j]);
    if pat[i] == '<' {
        if chars_start_with(pat, i, "<root>") {
            proof {
                reveal_strlit("<root>");
                reveal_strlit("<home>");
                reveal_strlit("<base>");
                reveal_strlit("<storeUserId>");
                reveal_strlit("<winAppData>");
                reveal_strlit("<winLocalAppData>");
                reveal_strlit("<winDocuments>");
                reveal_strlit("<xdgConfig>");
                reveal_strlit("<xdgData>");
                reveal_strlit("<winePrefix>");
                if pp.len() >= 6 {
                    assert(pp.subrange(0, 6) =~= pat@.subrange(i as int, i + 6));
                }
                if pp.len() >= 9 {
                    assert(pp.subrange(0, 9) =~= pat@.subrange(i as int, i + 9));
                }
                if pp.len() >= 11 {
                    assert(pp.subrange(0, 11) =~= pat@.subrange(i as int, i + 11));
                }
                if pp.len() >= 12 {
                    assert(pp.subrange(0, 12) =~= pat@.subrange(i as int, i + 12));
                }
                if pp.len() >= 13 {
                    assert(pp.subrange(0, 13) =~= pat@.subrange(i as int, i + 13));
                }
                if pp.len() >= 14 {
                    assert(pp.subrange(0, 14) =~= pat@.subrange(i as int, i + 14));
                }
                if pp.len() >= 17 {
                    assert(pp.subrange(0, 17) =~= pat@.subrange(i as int, i + 17));
                }
                assert(pat@.len() - i >= 6);
                assert(pp.skip(6) =~= pat@.skip(i + 6));
            }
            match resolve_pattern_from(pat, i + 6, root_path, dirs) {
                Some(rest) => {
                    let mut out = clone_chars(root_path);
                    append_chars(&mut out, &rest);
                    assert(spec_resolve_pattern(pp, root_path@, dirs_view(dirs)) == Some(out@));
                    Some(out)
                },
                None => {
                    assert(spec_resolve_pattern(pp, root_path@, dirs_view(dirs)) is None);
                    None
                },
            }
        } else if chars_start_with(pat, i, "<home>") {
            proof {
                reveal_strlit("<root>");
                reveal_strlit("<home>");
                reveal_strlit("<base>");
                reveal_strlit("<storeUserId>");
                reveal_strlit("<winAppData>");
                reveal_strlit("<winLocalAppData>");
                reveal_strlit("<winDocuments>");
                reveal_strlit("<xdgConfig>");
                reveal_strlit("<xdgData>");
                reveal_strlit("<winePrefix>");
                if pp.len() >= 6 {
                    assert(pp.subrange(0, 6) =~= pat@.subrange(i as int, i + 6));
                }
                if pp.len() >= 9 {
                    assert(pp.subrange(0, 9) =~= pat@.subrange(i as int, i + 9));
                }
                if pp.len() >= 11 {
                    assert(pp.subrange(0, 11) =~= pat@.subrange(i as int, i + 11));
                }
                if pp.len() >= 12 {
                    assert(pp.subrange(0, 12) =~= pat@.subrange(i as int, i + 12));
                }
                if pp.len() >= 13 {
                    assert(pp.subrange(0, 13) =~= pat@.subrange(i as int, i + 13));
                }
                if pp.len() >= 14 {
                    assert(pp.subrange(0, 14) =~= pat@.subrange(i as int, i + 14));
                }
                if pp.len() >= 17 {
                    assert(pp.subrange(0, 17) =~= pat@.subrange(i as int, i + 17));
                }
                assert(pat@.len() - i >= 6);
                assert(pp.skip(6) =~= pat@.skip(i + 6));
            }
            match resolve_pattern_from(pat, i + 6, root_path, dirs) {
                Some(rest) => {
                    let mut out = clone_chars(&dirs.home);
                    append_chars(&mut out, &rest);
                    assert(spec_resolve_pattern(pp, root_path@, dirs_view(dirs)) == Some(out@));
                    Some(out)
                },
                None => {
                    assert(spec_resolve_pattern(pp, root_path@, dirs_view(dirs)) is None);
                    None
                },
            }
        } else if chars_start_with(pat, i, "<base>") {
            proof {
                reveal_strlit("<root>");
                reveal_strlit("<home>");
                reveal_strlit("<base>");
                reveal_strlit("<storeUserId>");
                reveal_strlit("<winAppData>");
                reveal_strlit("<winLocalAppData>");
                reveal_strlit("<winDocuments>");
                reveal_strlit("<xdgConfig>");
                reveal_strlit("<xdgData>");
                reveal_strlit("<winePrefix>");
                if pp.len() >= 6 {
                    assert(pp.subrange(0, 6) =~= pat@.subrange(i as int, i + 6));
                }
                if pp.len() >= 9 {
                    assert(pp.subrange(0, 9) =~= pat@.subrange(i as int, i + 9));
                }
                if pp.len() >= 11 {
                    assert(pp.subrange(0, 11) =~= pat@.subrange(i as int, i + 11));
                }
                if pp.len() >= 12 {
                    assert(pp.subrange(0, 12) =~= pat@.subrange(i as int, i + 12));
                }
                if pp.len() >= 13 {
                    assert(pp.subrange(0, 13) =~= pat@.subrange(i as int, i + 13));
                }
                if pp.len() >= 14 {
                    assert(pp.subrange(0, 14) =~= pat@.subrange(i as int, i + 14));
                }
                if pp.len() >= 17 {
                    assert(pp.subrange(0, 17) =~= pat@.subrange(i as int, i + 17));
                }
                assert(pat@.len() - i >= 6);
                assert(pp.skip(6) =~= pat@.skip(i + 6));
            }
            match &dirs.base {
                None => {
                    assert(spec_resolve_pattern(pp, root_path@, dirs_view(dirs)) is None);
                    None
                },
                Some(b) => match resolve_pattern_from(pat, i + 6, root_path, dirs) {
                    Some(rest) => {
                        let mut out = clone_chars(b);
                        append_chars(&mut out, &rest);
                        assert(spec_resolve_pattern(pp, root_path@, dirs_view(dirs)) == Some(
                            out@,
                        ));
                        Some(out)
                    },
                    None => {
                        assert(spec_resolve_pattern(pp, root_path@, dirs_view(dirs)) is None);
                        None
                    },
                },
            }
        } else if chars_start_with(pat, i, "<storeUserId>") {
            proof {
                reveal_strlit("<root>");
                reveal_strlit("<home>");
                reveal_strlit("<base>");
                reveal_strlit("<storeUserId>");
                reveal_strlit("<winAppData>");
                reveal_strlit("<winLocalAppData>");
                reveal_strlit("<winDocuments>");
                reveal_strlit("<xdgConfig>");
                reveal_strlit("<xdgData>");
                reveal_strlit("<winePrefix>");
                if pp.len() >= 6 {
                    assert(pp.subrange(0, 6) =~= pat@.subrange(i as int, i + 6));
                }
                if pp.len() >= 9 {
                    assert(pp.subrange(0, 9) =~= pat@.subrange(i as int, i + 9));
                }
                if pp.len() >= 11 {
                    assert(pp.subrange(0, 11) =~= pat@.subrange(i as int, i + 11));
                }
                if pp.len() >= 12 {
                    assert(pp.subrange(0, 12) =~= pat@.subrange(i as int, i + 12));
                }
                if pp.len() >= 13 {
                    assert(pp.subrange(0, 13) =~= pat@.subrange(i as int, i + 13));
                }
                if pp.len() >= 14 {
                    assert(pp.subrange(0, 14) =~= pat@.subrange(i as int, i + 14));
                }
                if pp.len() >= 17 {
                    assert(pp.subrange(0, 17) =~= pat@.subrange(i as int, i + 17));
                }
                assert(pat@.len() - i >= 13);
                assert(pp.skip(13) =~= pat@.skip(i + 13));
            }
            match resolve_pattern_from(pat, i + 13, root_path, dirs) {
                Some(rest) => {
                    let mut out: Vec<char> = Vec::new();
                    out.push('*');
                    append_chars(&mut out, &rest);
                    assert(out@ =~= seq!['*'] + rest@);
                    assert(spec_resolve_pattern(pp, root_path@, dirs_view(dirs)) == Some(out@));
                    Some(out)
                },
                None => {
                    assert(spec_resolve_pattern(pp, root_path@, dirs_view(dirs)) is None);
                    None
                },
            }
        } else if chars_start_with(pat, i, "<winAppData>") {
            proof {
                reveal_strlit("<root>");
                reveal_strlit("<home>");
                reveal_strlit("<base>");
                reveal_strlit("<storeUserId>");
                reveal_strlit("<winAppData>");
                reveal_strlit("<winLocalAppData>");
                reveal_strlit("<winDocuments>");
                reveal_strlit("<xdgConfig>");
                reveal_strlit("<xdgData>");
                reveal_strlit("<winePrefix>");
                if pp.len() >= 6 {
                    assert(pp.subrange(0, 6) =~= pat@.subrange(i as int, i + 6));
                }
                if pp.len() >= 9 {
                    assert(pp.subrange(0, 9) =~= pat@.subrange(i as int, i + 9));
                }
                if pp.len() >= 11 {
                    assert(pp.subrange(0, 11) =~= pat@.subrange(i as int, i + 11));
                }
                if pp.len() >= 12 {
                    assert(pp.subrange(0, 12) =~= pat@.subrange(i as int, i + 12));
                }
                if pp.len() >= 13 {
                    assert(pp.subrange(0, 13) =~= pat@.subrange(i as int, i + 13));
                }
                if pp.len() >= 14 {
                    assert(pp.subrange(0, 14) =~= pat@.subrange(i as int, i + 14));
                }
                if pp.len() >= 17 {
                    assert(pp.subrange(0, 17) =~= pat@.subrange(i as int, i + 17));
                }
                assert(pat@.len() - i >= 12);
                assert(pp.skip(12) =~= pat@.skip(i + 12));
            }
            match resolve_pattern_from(pat, i + 12, root_path, dirs) {
                Some(rest) => {
                    let mut out = clone_chars(&dirs.win_app_data);
                    append_chars(&mut out, &rest);
                    assert(spec_resolve_pattern(pp, root_path@, dirs_view(dirs)) == Some(out@));
                    Some(out)
                },
                None => {
                    assert(spec_resolve_pattern(pp, root_path@, dirs_view(dirs)) is None);
                    None
                },
            }
        } else if chars_start_with(pat, i, "<winLocalAppData>") {
            proof {
                reveal_strlit("<root>");
                reveal_strlit("<home>");
                reveal_strlit("<base>");
                reveal_strlit("<storeUserId>");
                reveal_strlit("<winAppData>");
                reveal_strlit("<winLocalAppData>");
                reveal_strlit("<winDocuments>");
                reveal_strlit("<xdgConfig>");
                reveal_strlit("<xdgData>");
                reveal_strlit("<winePrefix>");
                if pp.len() >= 6 {
                    assert(pp.subrange(0, 6) =~= pat@.subrange(i as int, i + 6));
                }
                if pp.len() >= 9 {
                    assert(pp.subrange(0, 9) =~= pat@.subrange(i as int, i + 9));
                }
                if pp.len() >= 11 {
                    assert(pp.subrange(0, 11) =~= pat@.subrange(i as int, i + 11));
                }
                if pp.len() >= 12 {
                    assert(pp.subrange(0, 12) =~= pat@.subrange(i as int, i + 12));
                }
                if pp.len() >= 13 {
                    assert(pp.subrange(0, 13) =~= pat@.subrange(i as int, i + 13));
                }
                if pp.len() >= 14 {
                    assert(pp.subrange(0, 14) =~= pat@.subrange(i as int, i + 14));
                }
                if pp.len() >= 17 {
                    assert(pp.subrange(0, 17) =~= pat@.subrange(i as int, i + 17));
                }
                assert(pat@.len() - i >= 17);
                assert(pp.skip(17) =~= pat@.skip(i + 17));
            }
            match resolve_pattern_from(pat, i + 17, root_path, dirs) {
                Some(rest) => {
                    let mut out = clone_chars(&dirs.win_local_app_data);
                    append_chars(&mut out, &rest);
                    assert(spec_resolve_pattern(pp, root_path@, dirs_view(dirs)) == Some(out@));
                    Some(out)
                },
                None => {
                    assert(spec_resolve_pattern(pp, root_path@, dirs_view(dirs)) is None);
                    None
                },
            }
        } else if chars_start_with(pat, i, "<winDocuments>") {
            proof {
                reveal_strlit("<root>");
                reveal_strlit("<home>");
                reveal_strlit("<base>");
                reveal_strlit("<storeUserId>");
                reveal_strlit("<winAppData>");
                reveal_strlit("<winLocalAppData>");
                reveal_strlit("<winDocuments>");
                reveal_strlit("<xdgConfig>");
                reveal_strlit("<xdgData>");
                reveal_strlit("<winePrefix>");
                if pp.len() >= 6 {
                    assert(pp.subrange(0, 6) =~= pat@.subrange(i as int, i + 6));
                }
                if pp.len() >= 9 {
                    assert(pp.subrange(0, 9) =~= pat@.subrange(i as int, i + 9));
                }
                if pp.len() >= 11 {
                    assert(pp.subrange(0, 11) =~= pat@.subrange(i as int, i + 11));
                }
                if pp.len() >= 12 {
                    assert(pp.subrange(0, 12) =~= pat@.subrange(i as int, i + 12));
                }
                if pp.len() >= 13 {
                    assert(pp.subrange(0, 13) =~= pat@.subrange(i as int, i + 13));
                }
                if pp.len() >= 14 {
                    assert(pp.subrange(0, 14) =~= pat@.subrange(i as int, i + 14));
                }
                if pp.len() >= 17 {
                    assert(pp.subrange(0, 17) =~= pat@.subrange(i as int, i + 17));
                }
                assert(pat@.len() - i >= 14);
                assert(pp.skip(14) =~= pat@.skip(i + 14));
            }
            match resolve_pattern_from(pat, i + 14, root_path, dirs) {
                Some(rest) => {
                    let mut out = clone_chars(&dirs.win_documents);
                    append_chars(&mut out, &rest);
                    assert(spec_resolve_pattern(pp, root_path@, dirs_view(dirs)) == Some(out@));
                    Some(out)
                },
                None => {
                    assert(spec_resolve_pattern(pp, root_path@, dirs_view(dirs)) is None);
                    None
                },
            }
        } else if chars_start_with(pat, i, "<xdgConfig>") {
            proof {
                reveal_strlit("<root>");
                reveal_strlit("<home>");
                reveal_strlit("<base>");
                reveal_strlit("<storeUserId>");
                reveal_strlit("<winAppData>");
                reveal_strlit("<winLocalAppData>");
                reveal_strlit("<winDocuments>");
                reveal_strlit("<xdgConfig>");
                reveal_strlit("<xdgData>");
                reveal_strlit("<winePrefix>");
                if pp.len() >= 6 {
                    assert(pp.subrange(0, 6) =~= pat@.subrange(i as int, i + 6));
                }
                if pp.len() >= 9 {
                    assert(pp.subrange(0, 9) =~= pat@.subrange(i as int, i + 9));
                }
                if pp.len() >= 11 {
                    assert(pp.subrange(0, 11) =~= pat@.subrange(i as int, i + 11));
                }
                if pp.len() >= 12 {
                    assert(pp.subrange(0, 12) =~= pat@.subrange(i as int, i + 12));
                }
                if pp.len() >= 13 {
                    assert(pp.subrange(0, 13) =~= pat@.subrange(i as int, i + 13));
                }
                if pp.len() >= 14 {
                    assert(pp.subrange(0, 14) =~= pat@.subrange(i as int, i + 14));
                }
                if pp.len() >= 17 {
                    assert(pp.subrange(0, 17) =~= pat@.subrange(i as int, i + 17));
                }
                assert(pat@.len() - i >= 11);
                assert(pp.skip(11) =~= pat@.skip(i + 11));
            }
            match resolve_pattern_from(pat, i + 11, root_path, dirs) {
                Some(rest) => {
                    let mut out = clone_chars(&dirs.xdg_config);
                    append_chars(&mut out, &rest);
                    assert(spec_resolve_pattern(pp, root_path@, dirs_view(dirs)) == Some(out@));
                    Some(out)
                },
                None => {
                    assert(spec_resolve_pattern(pp, root_path@, dirs_view(dirs)) is None);
                    None
                },
            }
        } else if chars_start_with(pat, i, "<xdgData>") {
            proof {
                reveal_strlit("<root>");
                reveal_strlit("<home>");
                reveal_strlit("<base>");
                reveal_strlit("<storeUserId>");
                reveal_strlit("<winAppData>");
                reveal_strlit("<winLocalAppData>");
                reveal_strlit("<winDocuments>");
                reveal_strlit("<xdgConfig>");
                reveal_strlit("<xdgData>");
                reveal_strlit("<winePrefix>");
                if pp.len() >= 6 {
                    assert(pp.subrange(0, 6) =~= pat@.subrange(i as int, i + 6));
                }
                if pp.len() >= 9 {
                    assert(pp.subrange(0, 9) =~= pat@.subrange(i as int, i + 9));
                }
                if pp.len() >= 11 {
                    assert(pp.subrange(0, 11) =~= pat@.subrange(i as int, i + 11));
                }
                if pp.len() >= 12 {
                    assert(pp.subrange(0, 12) =~= pat@.subrange(i as int, i + 12));
                }
                if pp.len() >= 13 {
                    assert(pp.subrange(0, 13) =~= pat@.subrange(i as int, i + 13));
                }
                if pp.len() >= 14 {
                    assert(pp.subrange(0, 14) =~= pat@.subrange(i as int, i + 14));
                }
                if pp.len() >= 17 {
                    assert(pp.subrange(0, 17) =~= pat@.subrange(i as int, i + 17));
                }
                assert(pat@.len() - i >= 9);
                assert(pp.skip(9) =~= pat@.skip(i + 9));
            }
            match resolve_pattern_from(pat, i + 9, root_path, dirs) {
                Some(rest) => {
                    let mut out = clone_chars(&dirs.xdg_data);
                    append_chars(&mut out, &rest);
                    assert(spec_resolve_pattern(pp, root_path@, dirs_view(dirs)) == Some(out@));
                    Some(out)
                },
                None => {
                    assert(spec_resolve_pattern(pp, root_path@, dirs_view(dirs)) is None);
                    None
                },
            }
        } else if chars_start_with(pat, i, "<winePrefix>") {
            proof {
                reveal_strlit("<root>");
                reveal_strlit("<home>");
                reveal_strlit("<base>");
                reveal_strlit("<storeUserId>");
                reveal_strlit("<winAppData>");
                reveal_strlit("<winLocalAppData>");
                reveal_strlit("<winDocuments>");
                reveal_strlit("<xdgConfig>");
                reveal_strlit("<xdgData>");
                reveal_strlit("<winePrefix>");
                if pp.len() >= 6 {
                    assert(pp.subrange(0, 6) =~= pat@.subrange(i as int, i + 6));
                }
                if pp.len() >= 9 {
                    assert(pp.subrange(0, 9) =~= pat@.subrange(i as int, i + 9));
                }
                if pp.len() >= 11 {
                    assert(pp.subrange(0, 11) =~= pat@.subrange(i as int, i + 11));
                }
                if pp.len() >= 12 {
                    assert(pp.subrange(0, 12) =~= pat@.subrange(i as int, i + 12));
                }
                if pp.len() >= 13 {
                    assert(pp.subrange(0, 13) =~= pat@.subrange(i as int, i + 13));
                }
                if pp.len() >= 14 {
                    assert(pp.subrange(0, 14) =~= pat@.subrange(i as int, i + 14));
                }
                if pp.len() >= 17 {
                    assert(pp.subrange(0, 17) =~= pat@.subrange(i as int, i + 17));
                }
                assert(pat@.len() - i >= 12);
                assert(pp.skip(12) =~= pat@.skip(i + 12));
            }
            match &dirs.wine_prefix {
                None => {
                    assert(spec_resolve_pattern(pp, root_path@, dirs_view(dirs)) is None);
                    None
                },
                Some(b) => match resolve_pattern_from(pat, i + 12, root_path, dirs) {
                    Some(rest) => {
                        let mut out = clone_chars(b);
                        append_chars(&mut out, &rest);
                        assert(spec_resolve_pattern(pp, root_path@, dirs_view(dirs)) == Some(
                            out@,
                        ));
                        Some(out)
                    },
                    None => {
                        assert(spec_resolve_pattern(pp, root_path@, dirs_view(dirs)) is None);
                        None
                    },
                },
            }
        } else {
            proof {
                reveal_strlit("<root>");
                reveal_strlit("<home>");
                reveal_strlit("<base>");
                reveal_strlit("<storeUserId>");
                reveal_strlit("<winAppData>");
                reveal_strlit("<winLocalAppData>");
                reveal_strlit("<winDocuments>");
                reveal_strlit("<xdgConfig>");
                reveal_strlit("<xdgData>");
                reveal_strlit("<winePrefix>");
                if pp.len() >= 6 {
                    assert(pp.subrange(0, 6) =~= pat@.subrange(i as int, i + 6));
                }
                if pp.len() >= 9 {
                    assert(pp.subrange(0, 9) =~= pat@.subrange(i as int, i + 9));
                }
                if pp.len() >= 11 {
                    assert(pp.subrange(0, 11) =~= pat@.subrange(i as int, i + 11));
                }
                if pp.len() >= 12 {
                    assert(pp.subrange(0, 12) =~= pat@.subrange(i as int, i + 12));
                }
                if pp.len() >= 13 {
                    assert(pp.subrange(0, 13) =~= pat@.subrange(i as int, i + 13));
                }
                if pp.len() >= 14 {
                    assert(pp.subrange(0, 14) =~= pat@.subrange(i as int, i + 14));
                }
                if pp.len() >= 17 {
                    assert(pp.subrange(0, 17) =~= pat@.subrange(i as int, i + 17));
                }
            }
            assert(spec_resolve_pattern(pp, root_path@, dirs_view(dirs)) is None);
            None
        }
    } else {
        proof {
            assert(pp.skip(1) =~= pat@.skip(i + 1));
        }
        match resolve_pattern_from(pat, i + 1, root_path, dirs) {
            Some(rest) => {
                let mut out: Vec<char> = Vec::new();
                out.push(pat[i]);
                append_chars(&mut out, &rest);
                assert(out@ =~= seq![pat@[i as int]] + rest@);
                assert(spec_resolve_pattern(pp, root_path@, dirs_view(dirs)) == Some(out@));
                Some(out)
            },
            None => {
                assert(spec_resolve_pattern(pp, root_path@, dirs_view(dirs)) is None);
                None
            },
        }
    }
}

/// The normal form of a path, as characters.
fn rendered_chars(p: &StrictPath) -> (r: Vec<char>)
    ensures
        r@ == p.norm(),
{
    let rendered = p.render();
    str_to_chars(rendered.as_str())
}

/// Copies a character vector.
pub fn clone_chars(v: &Vec<char>) -> (r: Vec<char>)
    ensures
        r@ == v@,
{
    let mut r: Vec<char> = Vec::new();
    let mut i: usize = 0;
    while i < v.len()
        invariant
            i <= v@.len(),
            r@ == v@.subrange(0, i as int),
        decreases v.len() - i,
    {
        r.push(v[i]);
        assert(r@ =~= v@.subrange(0, i + 1));
        i += 1;
    }
    assert(r@ =~= v@);
    r
}

/// Appends `b` to `a`.
pub fn append_chars(a: &mut Vec<char>, b: &Vec<char>)
    ensures
        final(a)@ == old(a)@ + b@,
{
    let mut i: usize = 0;
    while i < b.len()
        invariant
            i <= b@.len(),
            a@ == old(a)@ + b@.subrange(0, i as int),
        decreases b.len() - i,
    {
        a.push(b[i]);
        assert(a@ =~= old(a)@ + b@.subrange(0, i + 1));
        i += 1;
    }
    assert(a@ =~= old(a)@ + b@);
}

/// The view of an optional character vector.
pub open spec fn view_opt_chars(o: &Option<Vec<char>>) -> Option<Seq<char>> {
    match o {
        Some(b) => Some(b@),
        None => None,
    }
}

/// The base directory the ranking chose for a subject: its first entry for
/// that name, in normal form.
pub open spec fn spec_base_for(entries: Seq<(String, StrictPath)>, game: Seq<char>) -> Option<
    Seq<char>,
>
    decreases entries.len(),
{
    if entries.len() == 0 {
        None
    } else if entries[0].0@ == game {
        Some(entries[0].1.norm())
    } else {
        spec_base_for(entries.skip(1), game)
    }
}

impl InstallDirRanking {
    /// The ranked base directory of the named subject, in normal form.
    #[verifier::loop_isolation(false)]
    pub fn base_for(&self, game: &String) -> (r: Option<Vec<char>>)
        ensures
            view_opt_chars(&r) == spec_base_for(self.0@, game@),
    {
        let mut i: usize = 0;
        assert(self.0@.skip(0) =~= self.0@);
        while i < self.0.len()
            invariant
                i <= self.0@.len(),
                spec_base_for(self.0@.skip(i as int), game@) == spec_base_for(self.0@, game@),
            decreases self.0@.len() - i,
        {
            proof {
                assert(self.0@.skip(i as int)[0] == self.0@[i as int]);
            }
            if str_eq(self.0[i].0.as_str(), game.as_str()) {
                let rendered = self.0[i].1.render();
                let chars = str_to_chars(rendered.as_str());
                return Some(chars);
            }
            proof {
                assert(self.0@.skip(i as int).skip(1) =~= self.0@.skip(i + 1));
            }
            i += 1;
        }
        assert(self.0@.skip(i as int).len() == 0);
        None
    }
}

/// The normalized patterns one root contributes for a subject's file
/// declarations: those whose constraints admit the context and whose
/// placeholders resolve.
pub open spec fn spec_root_patterns(
    files: Seq<(String, GameFileEntry)>,
    root: RootsConfig,
    os: Os,
    d: TokenDirs,
) -> Seq<Seq<char>>
    decreases files.len(),
{
    if files.len() == 0 {
        Seq::empty()
    } else {
        let rest = spec_root_patterns(files.drop_last(), root, os, d);
        let last = files.last();
        if spec_file_constraint_ok(&last.1.when, os, root.store) {
            match spec_resolve_pattern(last.0@, root.path.norm(), d) {
                Some(rp) => rest.push(normalize_seq(rp)),
                None => rest,
            }
        } else {
            rest
        }
    }
}

/// The normalized patterns every root contributes, in root order.
pub open spec fn spec_active_patterns(
    files: Seq<(String, GameFileEntry)>,
    roots: Seq<RootsConfig>,
    os: Os,
    d: TokenDirs,
) -> Seq<Seq<char>>
    decreases roots.len(),
{
    if roots.len() == 0 {
        Seq::empty()
    } else {
        spec_active_patterns(files, roots.drop_last(), os, d) + spec_root_patterns(
            files,
            roots.last(),
            os,
            d,
        )
    }
}

/// The file patterns of a subject's manifest entry, resolved against every
/// root.
pub open spec fn spec_game_patterns(
    game: Game,
    roots: Seq<RootsConfig>,
    os: Os,
    d: TokenDirs,
) -> Seq<Seq<char>> {
    match game.files {
        None => Seq::empty(),
        Some(fs) => spec_active_patterns(fs@, roots, os, d),
    }
}

/// The views of a vector of character vectors.
pub open spec fn views_of(v: Seq<Vec<char>>) -> Seq<Seq<char>> {
    v.map_values(|x: Vec<char>| x@)
}

#[verifier::loop_isolation(false)]
fn active_patterns(
    files: &Vec<(String, GameFileEntry)>,
    roots: &Vec<RootsConfig>,
    os: Os,
    dirs: &ScanDirs,
) -> (r: Vec<Vec<char>>)
    ensures
        views_of(r@) == spec_active_patterns(files@, roots@, os, dirs_view(dirs)),
{
    let ghost sbase = dirs_view(dirs);
    let mut r: Vec<Vec<char>> = Vec::new();
    let mut ri: usize = 0;
    assert(views_of(r@) =~= spec_active_patterns(files@, roots@.subrange(0, 0), os, sbase));
    while ri < roots.len()
        invariant
            ri <= roots@.len(),
            views_of(r@) == spec_active_patterns(files@, roots@.subrange(0, ri as int), os, sbase),
        decreases roots@.len() - ri,
    {
        let root_rendered = roots[ri].path.render();
        let root_chars = str_to_chars(root_rendered.as_str());
        let mut fi: usize = 0;
        let ghost r_entry = r@;
        assert(files@.subrange(0, 0).len() == 0);
        assert(views_of(r@) =~= views_of(r_entry) + spec_root_patterns(
            files@.subrange(0, 0),
            roots@[ri as int],
            os,
            sbase,
        ));
        while fi < files.len()
            invariant
                fi <= files@.len(),
                root_chars@ == roots@[ri as int].path.norm(),
                views_of(r@) == views_of(r_entry) + spec_root_patterns(
                    files@.subrange(0, fi as int),
                    roots@[ri as int],
                    os,
                    sbase,
                ),
            decreases files@.len() - fi,
        {
            let ghost fpre = files@.subrange(0, fi as int);
            let ghost fnxt = files@.subrange(0, fi + 1);
            proof {
                assert(fnxt.drop_last() =~= fpre);
                assert(fnxt.last() == files@[fi as int]);
            }
            if file_constraint_ok(&files[fi].1.when, os, roots[ri].store) {
                let pat_chars = str_to_chars(files[fi].0.as_str());
                match resolve_pattern_from(&pat_chars, 0, &root_chars, dirs) {
                    Some(resolved) => {
                        proof {
                            assert(pat_chars@.skip(0) =~= pat_chars@);
                        }
                        let ghost r_prev = r@;
                        let norm = normalize_chars(&resolved);
                        let ghost norm_view = norm@;
                        r.push(norm);
                        proof {
                            assert(spec_resolve_pattern(
                                fnxt.last().0@,
                                roots@[ri as int].path.norm(),
                                sbase,
                            ) == Some(resolved@));
                            assert(norm_view == normalize_seq(resolved@));
                            assert(spec_root_patterns(fnxt, roots@[ri as int], os, sbase)
                                == spec_root_patterns(fpre, roots@[ri as int], os, sbase).push(
                                norm_view,
                            ));
                            assert(views_of(r@) =~= views_of(r_prev).push(norm_view));
                            assert(views_of(r@) =~= views_of(r_entry) + spec_root_patterns(
                                fnxt,
                                roots@[ri as int],
                                os,
                                sbase,
                            ));
                        }
                    },
                    None => {
                        proof {
                            assert(pat_chars@.skip(0) =~= pat_chars@);
                        }
                    },
                }
            }
            fi += 1;
        }
        proof {
            assert(files@.subrange(0, files@.len() as int) =~= files@);
            assert(roots@.subrange(0, ri + 1).drop_last() =~= roots@.subrange(0, ri as int));
            assert(roots@.subrange(0, ri + 1).last() == roots@[ri as int]);
        }
        ri += 1;
    }
    assert(roots@.subrange(0, roots@.len() as int) =~= roots@);
    r
}

/// True when any active pattern covers the normalized path `p`.
pub open spec fn spec_pattern_hit(pats: Seq<Seq<char>>, p: Seq<char>) -> bool {
    exists|k: int| 0 <= k < pats.len() && glob_matches(#[trigger] pats[k], p)
}

#[verifier::loop_isolation(false)]
fn pattern_hit(pats: &Vec<Vec<char>>, p: &Vec<char>) -> (r: bool)
    ensures
        r == spec_pattern_hit(views_of(pats@), p@),
{
    let mut k: usize = 0;
    while k < pats.len()
        invariant
            k <= pats@.len(),
            forall|j: int| 0 <= j < k ==> !glob_matches(views_of(pats@)[j], p@),
        decreases pats@.len() - k,
    {
        if glob_match_chars(&pats[k], p) {
            proof {
                assert(views_of(pats@)[k as int] == pats@[k as int]@);
            }
            return true;
        }
        proof {
            assert(views_of(pats@)[k as int] == pats@[k as int]@);
        }
        k += 1;
    }
    false
}

/// True when the path is covered by the global ignore filter.
pub open spec fn spec_filter_ignores(filter: BackupFilter, p: Seq<char>) -> bool {
    exists|i: int|
        0 <= i < filter.ignored_paths@.len() && path_under(
            p,
            (#[trigger] filter.ignored_paths@[i]).norm(),
        )
}

/// True when the subject has toggled the path off.
pub open spec fn spec_toggled_off_path(t: ToggledPaths, g: Seq<char>, p: Seq<char>) -> bool {
    exists|i: int|
        0 <= i < t.0@.len() && (#[trigger] t.0@[i]).0@ == g && path_under(p, t.0@[i].1.norm())
}

/// True when a matched file is reported as ignored: covered by the global
/// filter or toggled off for this subject.
pub open spec fn spec_file_ignored(
    filter: BackupFilter,
    t: ToggledPaths,
    g: Seq<char>,
    p: Seq<char>,
) -> bool {
    spec_filter_ignores(filter, p) || spec_toggled_off_path(t, g, p)
}

#[verifier::loop_isolation(false)]
fn file_ignored(filter: &BackupFilter, t: &ToggledPaths, g: &String, p: &Vec<char>) -> (r: bool)
    ensures
        r == spec_file_ignored(*filter, *t, g@, p@),
{
    let mut i: usize = 0;
    while i < filter.ignored_paths.len()
        invariant
            i <= filter.ignored_paths@.len(),
            forall|j: int|
                0 <= j < i ==> !path_under(p@, (#[trigger] filter.ignored_paths@[j]).norm()),
        decreases filter.ignored_paths@.len() - i,
    {
        let rendered = filter.ignored_paths[i].render();
        let chars = str_to_chars(rendered.as_str());
        if path_under_chars(p, &chars) {
            return true;
        }
        i += 1;
    }
    let mut k: usize = 0;
    while k < t.0.len()
        invariant
            k <= t.0@.len(),
            !spec_filter_ignores(*filter, p@),
            forall|j: int|
                0 <= j < k ==> !((#[trigger] t.0@[j]).0@ == g@ && path_under(p@, t.0@[j].1.norm())),
        decreases t.0@.len() - k,
    {
        if str_eq(t.0[k].0.as_str(), g.as_str()) {
            let rendered = t.0[k].1.render();
            let chars = str_to_chars(rendered.as_str());
            if path_under_chars(p, &chars) {
                return true;
            }
        }
        k += 1;
    }
    false
}

/// True when a scanned file for this normalized path was already collected.
pub open spec fn spec_seen_file(s: Seq<ScannedFile>, p: Seq<char>) -> bool {
    exists|i: int| 0 <= i < s.len() && (#[trigger] s[i]).path.norm() == p
}

#[verifier::loop_isolation(false)]
fn seen_file(s: &Vec<ScannedFile>, p: &Vec<char>) -> (r: bool)
    ensures
        r == spec_seen_file(s@, p@),
{
    let mut i: usize = 0;
    while i < s.len()
        invariant
            i <= s@.len(),
            forall|j: int| 0 <= j < i ==> (#[trigger] s@[j]).path.norm() != p@,
        decreases s@.len() - i,
    {
        let rendered = s[i].path.render();
        let chars = str_to_chars(rendered.as_str());
        if chars_eq(&chars, p) {
            return true;
        }
        i += 1;
    }
    false
}

/// The files a scan finds: each snapshot file covered by an active pattern,
/// once per path, carrying its size, hash, and ignored flag.
pub open spec fn spec_scan_files(
    files: Seq<SystemFile>,
    pats: Seq<Seq<char>>,
    filter: BackupFilter,
    toggles: ToggledPaths,
    g: Seq<char>,
) -> Seq<ScannedFile>
    decreases files.len(),
{
    if files.len() == 0 {
        Seq::empty()
    } else {
        let rest = spec_scan_files(files.drop_last(), pats, filter, toggles, g);
        let f = files.last();
        if spec_pattern_hit(pats, f.path.norm()) && !spec_seen_file(rest, f.path.norm()) {
            rest.push(
                ScannedFile {
                    path: f.path,
                    size: f.size,
                    hash: f.hash,
                    original_path: None,
                    ignored: spec_file_ignored(filter, toggles, g, f.path.norm()),
                    container: None,
                },
            )
        } else {
            rest
        }
    }
}

/// True when a scanned registry key with this raw path was already
/// collected.
pub open spec fn spec_seen_registry(s: Seq<ScannedRegistry>, raw: Seq<char>) -> bool {
    exists|i: int| 0 <= i < s.len() && (#[trigger] s[i]).path.raw@ == raw
}

#[verifier::loop_isolation(false)]
fn seen_registry(s: &Vec<ScannedRegistry>, raw: &String) -> (r: bool)
    ensures
        r == spec_seen_registry(s@, raw@),
{
    let mut i: usize = 0;
    while i < s.len()
        invariant
            i <= s@.len(),
            forall|j: int| 0 <= j < i ==> (#[trigger] s@[j]).path.raw@ != raw@,
        decreases s@.len() - i,
    {
        if str_eq(s[i].path.raw.as_str(), raw.as_str()) {
            return true;
        }
        i += 1;
    }
    false
}

/// The normalized registry key patterns of a subject that apply: declared
/// keys whose constraints admit some configured root's store.
pub open spec fn spec_reg_patterns(
    regs: Seq<(String, GameRegistryEntry)>,
    roots: Seq<RootsConfig>,
) -> Seq<Seq<char>>
    decreases regs.len(),
{
    if regs.len() == 0 {
        Seq::empty()
    } else {
        let rest = spec_reg_patterns(regs.drop_last(), roots);
        let last = regs.last();
        if spec_registry_constraint_ok(&last.1.when, roots) {
            rest.push(normalize_seq(last.0@))
        } else {
            rest
        }
    }
}

/// The registry patterns of a subject's manifest entry; none unless the
/// scan context is Windows, where the registry exists.
pub open spec fn spec_game_reg_patterns(game: Game, roots: Seq<RootsConfig>, os: Os) -> Seq<
    Seq<char>,
> {
    if os != Os::Windows {
        Seq::empty()
    } else {
        match game.registry {
            None => Seq::empty(),
            Some(rs) => spec_reg_patterns(rs@, roots),
        }
    }
}

#[verifier::loop_isolation(false)]
fn game_reg_patterns(game: &Game, roots: &Vec<RootsConfig>, os: Os) -> (r: Vec<Vec<char>>)
    ensures
        views_of(r@) == spec_game_reg_patterns(*game, roots@, os),
{
    let mut r: Vec<Vec<char>> = Vec::new();
    if os != Os::Windows {
        assert(views_of(r@) =~= Seq::<Seq<char>>::empty());
        return r;
    }
    match &game.registry {
        None => {
            assert(views_of(r@) =~= Seq::<Seq<char>>::empty());
            r
        },
        Some(rs) => {
            let mut i: usize = 0;
            assert(views_of(r@) =~= spec_reg_patterns(rs@.subrange(0, 0), roots@));
            while i < rs.len()
                invariant
                    i <= rs@.len(),
                    views_of(r@) == spec_reg_patterns(rs@.subrange(0, i as int), roots@),
                decreases rs@.len() - i,
            {
                let ghost pre = rs@.subrange(0, i as int);
                let ghost nxt = rs@.subrange(0, i + 1);
                proof {
                    assert(nxt.drop_last() =~= pre);
                    assert(nxt.last() == rs@[i as int]);
                }
                if registry_constraint_ok(&rs[i].1.when, roots) {
                    let pat_chars = str_to_chars(rs[i].0.as_str());
                    let norm = normalize_chars(&pat_chars);
                    r.push(norm);
                    proof {
                        assert(views_of(r@) =~= spec_reg_patterns(nxt, roots@));
                    }
                }
                i += 1;
            }
            proof {
                assert(rs@.subrange(0, rs@.len() as int) =~= rs@);
            }
            r
        },
    }
}

/// True when any registry pattern covers the normalized key path.
pub open spec fn spec_reg_hit(pats: Seq<Seq<char>>, p: Seq<char>) -> bool {
    exists|k: int| 0 <= k < pats.len() && path_under(p, #[trigger] pats[k])
}

#[verifier::loop_isolation(false)]
fn reg_hit(pats: &Vec<Vec<char>>, p: &Vec<char>) -> (r: bool)
    ensures
        r == spec_reg_hit(views_of(pats@), p@),
{
    let mut k: usize = 0;
    while k < pats.len()
        invariant
            k <= pats@.len(),
            forall|j: int| 0 <= j < k ==> !path_under(p@, views_of(pats@)[j]),
        decreases pats@.len() - k,
    {
        if path_under_chars(p, &pats[k]) {
            proof {
                assert(views_of(pats@)[k as int] == pats@[k as int]@);
            }
            return true;
        }
        proof {
            assert(views_of(pats@)[k as int] == pats@[k as int]@);
        }
        k += 1;
    }
    false
}

/// True when the subject has toggled the registry key off.
pub open spec fn spec_toggled_off_registry(t: ToggledRegistry, g: Seq<char>, raw: Seq<char>) -> bool {
    exists|i: int| 0 <= i < t.0@.len() && (#[trigger] t.0@[i]).0@ == g && t.0@[i].1.raw@ == raw
}

#[verifier::loop_isolation(false)]
fn toggled_off_registry(t: &ToggledRegistry, g: &String, raw: &String) -> (r: bool)
    ensures
        r == spec_toggled_off_registry(*t, g@, raw@),
{
    let mut i: usize = 0;
    while i < t.0.len()
        invariant
            i <= t.0@.len(),
            forall|j: int|
                0 <= j < i ==> !((#[trigger] t.0@[j]).0@ == g@ && t.0@[j].1.raw@ == raw@),
        decreases t.0@.len() - i,
    {
        if str_eq(t.0[i].0.as_str(), g.as_str()) && str_eq(t.0[i].1.raw.as_str(), raw.as_str()) {
            return true;
        }
        i += 1;
    }
    false
}

/// The registry keys a scan finds: each snapshot key covered by an active
/// pattern, once per key path, with its toggled-off flag.
pub open spec fn spec_scan_registry(
    entries: Seq<SystemRegistryEntry>,
    pats: Seq<Seq<char>>,
    toggles: ToggledRegistry,
    g: Seq<char>,
) -> Seq<ScannedRegistry>
    decreases entries.len(),
{
    if entries.len() == 0 {
        Seq::empty()
    } else {
        let rest = spec_scan_registry(entries.drop_last(), pats, toggles, g);
        let e = entries.last();
        if spec_reg_hit(pats, normalize_seq(e.path.raw@)) && !spec_seen_registry(
            rest,
            e.path.raw@,
        ) {
            rest.push(
                ScannedRegistry {
                    path: e.path,
                    content: e.content,
                    ignored: spec_toggled_off_registry(toggles, g, e.path.raw@),
                },
            )
        } else {
            rest
        }
    }
}

/// The result of scanning one subject.
#[derive(Clone, Debug, PartialEq, Eq)]
pub struct ScanInfo {
    pub game_name: String,
    pub found_files: Vec<ScannedFile>,
    pub found_registry_keys: Vec<ScannedRegistry>,
    pub available_backups: Vec<Backup>,
    pub backup: Option<Backup>,
}

impl Default for ScanInfo {
    fn default() -> (r: Self)
        ensures
            r.game_name@.len() == 0,
            r.found_files@.len() == 0,
            r.found_registry_keys@.len() == 0,
            r.available_backups@.len() == 0,
            r.backup is None,
    {
        ScanInfo {
            game_name: String::new(),
            found_files: Vec::new(),
            found_registry_keys: Vec::new(),
            available_backups: Vec::new(),
            backup: None,
        }
    }
}

impl ScanInfo {
    /// True when the scan matched anything at all.
    pub fn found_anything(&self) -> (r: bool)
        ensures
            r == (self.found_files@.len() > 0 || self.found_registry_keys@.len() > 0),
    {
        self.found_files.len() > 0 || self.found_registry_keys.len() > 0
    }

    /// True when this scan reads a stored backup rather than the live
    /// system.
    pub fn restoring(&self) -> (r: bool)
        ensures
            r == (self.backup is Some),
    {
        matches!(self.backup, Some(_))
    }

    /// The bytes this scan covers: the sizes of its files, not counting
    /// ignored ones, nor — when an operation report is given — those that
    /// failed; saturating at `u64::MAX`.
    #[verifier::loop_isolation(false)]
    pub fn sum_bytes(&self, backup_info: Option<&BackupInfo>) -> (r: u64)
        ensures
            r == spec_sum_bytes(
                self.found_files@,
                match backup_info {
                    Some(bi) => Some(*bi),
                    None => None,
                },
            ),
    {
        let ghost sbi = match backup_info {
            Some(bi) => Some(*bi),
            None => None,
        };
        assert(self.found_files@.subrange(0, 0).len() == 0);
        let mut total: u64 = 0;
        let mut k: usize = 0;
        while k < self.found_files.len()
            invariant
                k <= self.found_files@.len(),
                total == spec_sum_bytes(self.found_files@.subrange(0, k as int), sbi),
            decreases self.found_files@.len() - k,
        {
            let ghost pre = self.found_files@.subrange(0, k as int);
            let ghost nxt = self.found_files@.subrange(0, k + 1);
            proof {
                assert(nxt.drop_last() =~= pre);
                assert(nxt.last() == self.found_files@[k as int]);
            }
            let f = &self.found_files[k];
            let counted: bool = if f.ignored {
                false
            } else {
                match backup_info {
                    Some(bi) => {
                        let rendered = f.path.render();
                        let chars = str_to_chars(rendered.as_str());
                        !failed_file(bi, &chars)
                    },
                    None => true,
                }
            };
            if counted {
                let x = f.size;
                if total <= u64::MAX - x {
                    total = total + x;
                } else {
                    total = u64::MAX;
                }
            }
            k += 1;
        }
        proof {
            assert(self.found_files@.subrange(0, self.found_files@.len() as int)
                =~= self.found_files@);
        }
        total
    }
}

/// True when the report lists a failed file with this normalized path.
pub open spec fn spec_failed_file(bi: BackupInfo, p: Seq<char>) -> bool {
    exists|i: int| 0 <= i < bi.failed_files@.len() && (#[trigger] bi.failed_files@[i]).path.norm() == p
}

#[verifier::loop_isolation(false)]
fn failed_file(bi: &BackupInfo, p: &Vec<char>) -> (r: bool)
    ensures
        r == spec_failed_file(*bi, p@),
{
    let mut i: usize = 0;
    while i < bi.failed_files.len()
        invariant
            i <= bi.failed_files@.len(),
            forall|j: int| 0 <= j < i ==> (#[trigger] bi.failed_files@[j]).path.norm() != p@,
        decreases bi.failed_files@.len() - i,
    {
        let rendered = bi.failed_files[i].path.render();
        let chars = str_to_chars(rendered.as_str());
        if chars_eq(&chars, p) {
            return true;
        }
        i += 1;
    }
    false
}

/// Saturating 64-bit addition.
pub open spec fn sat_add_u64(a: nat, b: nat) -> nat {
    if a + b > u64::MAX {
        u64::MAX as nat
    } else {
        a + b
    }
}

/// The byte total of a scan: sizes of the files that are neither ignored
/// nor recorded as failed, saturating at `u64::MAX`.
pub open spec fn spec_sum_bytes(files: Seq<ScannedFile>, bi: Option<BackupInfo>) -> nat
    decreases files.len(),
{
    if files.len() == 0 {
        0
    } else {
        let rest = spec_sum_bytes(files.drop_last(), bi);
        let f = files.last();
        let counted = !f.ignored && match bi {
            Some(b) => !spec_failed_file(b, f.path.norm()),
            None => true,
        };
        if counted {
            sat_add_u64(rest, f.size as nat)
        } else {
            rest
        }
    }
}

/// Scans one subject for backup: resolves its manifest patterns against
/// every root, collects the snapshot files and registry keys they cover,
/// and flags the ones the filter or the subject's toggles exclude. The
/// result is a function of the inputs alone: scanning twice with the same
/// snapshot yields the same result.
#[verifier::loop_isolation(false)]
pub fn scan_game_for_backup(
    game: &Game,
    name: &String,
    roots: &Vec<RootsConfig>,
    ctx: &ScanContext,
    snapshot: &SystemSnapshot,
    ranking: &InstallDirRanking,
    filter: &BackupFilter,
    toggled_paths: &ToggledPaths,
    toggled_registry: &ToggledRegistry,
) -> (r: ScanInfo)
    ensures
        r.game_name@ == name@,
        r.backup is None,
        r.available_backups@.len() == 0,
        r.found_files@ == spec_scan_files(
            snapshot.files@,
            spec_game_patterns(*game, roots@, ctx.os, tokens_of(*ctx, spec_base_for(
                ranking.0@,
                name@,
            ))),
            *filter,
            *toggled_paths,
            name@,
        ),
        r.found_registry_keys@ == spec_scan_registry(
            snapshot.registry@,
            spec_game_reg_patterns(*game, roots@, ctx.os),
            *toggled_registry,
            name@,
        ),
{
    let base = ranking.base_for(name);
    let dirs = ScanDirs {
        home: rendered_chars(&ctx.home),
        win_app_data: rendered_chars(&ctx.win_app_data),
        win_local_app_data: rendered_chars(&ctx.win_local_app_data),
        win_documents: rendered_chars(&ctx.win_documents),
        xdg_config: rendered_chars(&ctx.xdg_config),
        xdg_data: rendered_chars(&ctx.xdg_data),
        base,
        wine_prefix: match &ctx.wine_prefix {
            Some(p) => Some(rendered_chars(p)),
            None => None,
        },
    };
    proof {
        assert(dirs_view(&dirs) == tokens_of(*ctx, spec_base_for(ranking.0@, name@)));
    }
    let ghost spats = spec_game_patterns(*game, roots@, ctx.os, tokens_of(*ctx, spec_base_for(
        ranking.0@,
        name@,
    )));
    let pats: Vec<Vec<char>> = match &game.files {
        None => {
            let empty: Vec<Vec<char>> = Vec::new();
            assert(views_of(empty@) =~= Seq::<Seq<char>>::empty());
            empty
        },
        Some(fs) => active_patterns(fs, roots, ctx.os, &dirs),
    };
    let mut found_files: Vec<ScannedFile> = Vec::new();
    let mut i: usize = 0;
    assert(snapshot.files@.subrange(0, 0).len() == 0);
    while i < snapshot.files.len()
        invariant
            i <= snapshot.files@.len(),
            views_of(pats@) == spats,
            found_files@ == spec_scan_files(
                snapshot.files@.subrange(0, i as int),
                spats,
                *filter,
                *toggled_paths,
                name@,
            ),
        decreases snapshot.files@.len() - i,
    {
        let ghost pre = snapshot.files@.subrange(0, i as int);
        let ghost nxt = snapshot.files@.subrange(0, i + 1);
        proof {
            assert(nxt.drop_last() =~= pre);
            assert(nxt.last() == snapshot.files@[i as int]);
        }
        let f = &snapshot.files[i];
        let rendered = f.path.render();
        let norm = str_to_chars(rendered.as_str());
        if pattern_hit(&pats, &norm) && !seen_file(&found_files, &norm) {
            let ignored = file_ignored(filter, toggled_paths, name, &norm);
            found_files.push(ScannedFile {
                path: f.path.duplicate(),
                size: f.size,
                hash: f.hash.clone(),
                original_path: None,
                ignored,
                container: None,
            });
        }
        i += 1;
    }
    proof {
        assert(snapshot.files@.subrange(0, snapshot.files@.len() as int) =~= snapshot.files@);
    }
    let reg_pats = game_reg_patterns(game, roots, ctx.os);
    let mut found_registry_keys: Vec<ScannedRegistry> = Vec::new();
    let mut k: usize = 0;
    assert(snapshot.registry@.subrange(0, 0).len() == 0);
    while k < snapshot.registry.len()
        invariant
            k <= snapshot.registry@.len(),
            views_of(reg_pats@) == spec_game_reg_patterns(*game, roots@, ctx.os),
            found_registry_keys@ == spec_scan_registry(
                snapshot.registry@.subrange(0, k as int),
                spec_game_reg_patterns(*game, roots@, ctx.os),
                *toggled_registry,
                name@,
            ),
        decreases snapshot.registry@.len() - k,
    {
        let ghost pre = snapshot.registry@.subrange(0, k as int);
        let ghost nxt = snapshot.registry@.subrange(0, k + 1);
        proof {
            assert(nxt.drop_last() =~= pre);
            assert(nxt.last() == snapshot.registry@[k as int]);
        }
        let e = &snapshot.registry[k];
        let raw_chars = str_to_chars(e.path.raw.as_str());
        let norm = normalize_chars(&raw_chars);
        if reg_hit(&reg_pats, &norm) && !seen_registry(&found_registry_keys, &e.path.raw) {
            let ignored = toggled_off_registry(toggled_registry, name, &e.path.raw);
            found_registry_keys.push(ScannedRegistry {
                path: e.path.duplicate(),
                content: e.content.clone(),
                ignored,
            });
        }
        k += 1;
    }
    proof {
        assert(snapshot.registry@.subrange(0, snapshot.registry@.len() as int)
            =~= snapshot.registry@);
    }
    ScanInfo {
        game_name: name.clone(),
        found_files,
        found_registry_keys,
        available_backups: Vec::new(),
        backup: None,
    }
}


/// Scanning is a function of its inputs: two scans of the same subject over
/// the same snapshot, roots, context, ranking, filter, and toggles — as
/// `scan_game_for_backup`'s contract describes them — find exactly the same
/// files and registry keys.
pub proof fn lemma_scan_idempotent(
    game: Game,
    name: Seq<char>,
    roots: Seq<RootsConfig>,
    os: Os,
    dirs: TokenDirs,
    snapshot: SystemSnapshot,
    filter: BackupFilter,
    toggled_paths: ToggledPaths,
    toggled_registry: ToggledRegistry,
    r1: ScanInfo,
    r2: ScanInfo,
)
    requires
        r1.found_files@ == spec_scan_files(
            snapshot.files@,
            spec_game_patterns(game, roots, os, dirs),
            filter,
            toggled_paths,
            name,
        ),
        r2.found_files@ == spec_scan_files(
            snapshot.files@,
            spec_game_patterns(game, roots, os, dirs),
            filter,
            toggled_paths,
            name,
        ),
        r1.found_registry_keys@ == spec_scan_registry(
            snapshot.registry@,
            spec_game_reg_patterns(game, roots, os),
            toggled_registry,
            name,
        ),
        r2.found_registry_keys@ == spec_scan_registry(
            snapshot.registry@,
            spec_game_reg_patterns(game, roots, os),
            toggled_registry,
            name,
        ),
    ensures
        r1.found_files@ == r2.found_files@,
        r1.found_registry_keys@ == r2.found_registry_keys@,
{
}

} // verus!
