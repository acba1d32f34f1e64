//! The command-line surface of the engine: the parsed command shapes, and
//! the selection of subjects from what the caller requested.

use vstd::prelude::*;
use crate::manifest::{Manifest, spec_steam_pairs};
use crate::orchestrate::{Sort, SortKey};
use crate::path::StrictPath;
use crate::strutil::{parse_u32_chars, str_to_chars, str_eq, spec_all_digits, spec_dec_value,
    spec_chars_le, string_le, lemma_chars_le_total, lemma_chars_le_trans};

verus! {

/// A shell whose completion script can be generated.
#[derive(Clone, Copy, Debug, PartialEq, Eq, Structural)]
pub enum CompletionShell {
    Bash,
    Fish,
    Zsh,
    PowerShell,
    Elvish,
}

/// A reporting order as named on the command line.
#[derive(Clone, Copy, Debug, PartialEq, Eq, Structural)]
pub enum CliSort {
    Name,
    NameReversed,
    Size,
    SizeReversed,
}

impl Default for CliSort {
    fn default() -> (r: Self)
        ensures
            r == CliSort::Name,
    {
        CliSort::Name
    }
}

impl CliSort {
    /// Parses a reporting order as written on the command line: one of the
    /// four order names, and nothing else.
    pub fn parse(name: &str) -> (r: Option<CliSort>)
        ensures
            r == (if name@ == "name"@ {
                Some(CliSort::Name)
            } else if name@ == "name-rev"@ {
                Some(CliSort::NameReversed)
            } else if name@ == "size"@ {
                Some(CliSort::Size)
            } else if name@ == "size-rev"@ {
                Some(CliSort::SizeReversed)
            } else {
                None
            }),
    {
        if str_eq(name, "name") {
            Some(CliSort::Name)
        } else if str_eq(name, "name-rev") {
            Some(CliSort::NameReversed)
        } else if str_eq(name, "size") {
            Some(CliSort::Size)
        } else if str_eq(name, "size-rev") {
            Some(CliSort::SizeReversed)
        } else {
            None
        }
    }

    /// The order a command-line name stands for.
    pub fn to_sort(&self) -> (r: Sort)
        ensures
            r == (match *self {
                CliSort::Name => Sort { key: SortKey::Name, reversed: false },
                CliSort::NameReversed => Sort { key: SortKey::Name, reversed: true },
                CliSort::Size => Sort { key: SortKey::Size, reversed: false },
                CliSort::SizeReversed => Sort { key: SortKey::Size, reversed: true },
            }),
    {
        match self {
            CliSort::Name => Sort { key: SortKey::Name, reversed: false },
            CliSort::NameReversed => Sort { key: SortKey::Name, reversed: true },
            CliSort::Size => Sort { key: SortKey::Size, reversed: false },
            CliSort::SizeReversed => Sort { key: SortKey::Size, reversed: true },
        }
    }
}

/// One subcommand, as the argument parser hands it over.
#[derive(Clone, Debug, PartialEq, Eq)]
pub enum Subcommand {
    Backup {
        preview: bool,
        path: Option<StrictPath>,
        force: bool,
        merge: bool,
        no_merge: bool,
        update: bool,
        try_update: bool,
        by_steam_id: bool,
        wine_prefix: Option<StrictPath>,
        api: bool,
        sort: Option<CliSort>,
        games: Vec<String>,
    },
    Restore {
        preview: bool,
        path: Option<StrictPath>,
        force: bool,
        by_steam_id: bool,
        api: bool,
        sort: Option<CliSort>,
        backup: Option<String>,
        games: Vec<String>,
    },
    Complete {
        shell: CompletionShell,
    },
    Backups {
        path: Option<StrictPath>,
        by_steam_id: bool,
        api: bool,
        games: Vec<String>,
    },
}

impl Subcommand {
    /// True when machine-readable output was requested.
    pub fn api(&self) -> (r: bool)
        ensures
            r == (match self {
                Subcommand::Backup { api, .. } => *api,
                Subcommand::Restore { api, .. } => *api,
                Subcommand::Backups { api, .. } => *api,
                Subcommand::Complete { .. } => false,
            }),
    {
        match self {
            Subcommand::Backup { api, .. } => *api,
            Subcommand::Restore { api, .. } => *api,
            Subcommand::Backups { api, .. } => *api,
            Subcommand::Complete { .. } => false,
        }
    }
}

/// The whole command line.
#[derive(Clone, Debug, PartialEq, Eq)]
pub struct Cli {
    pub sub: Option<Subcommand>,
}

/// Rejects the selection a named backup id cannot apply to: restoring a
/// specific backup is only valid when exactly one subject is named.
pub fn validate_backup_id_selection(backup: &Option<String>, games_len: usize) -> (r: Result<
    (),
    crate::Error,
>)
    ensures
        (r is Err) == (backup is Some && games_len != 1),
        r matches Err(e) ==> e is CliBackupIdWithMultipleGames,
{
    match backup {
        Some(_) => {
            if games_len != 1 {
                Err(crate::Error::CliBackupIdWithMultipleGames)
            } else {
                Ok(())
            }
        },
        None => Ok(()),
    }
}

/// True when some element of `v` reads `x`.
pub open spec fn spec_names_have(v: Seq<String>, x: Seq<char>) -> bool {
    exists|i: int| 0 <= i < v.len() && (#[trigger] v[i])@ == x
}

/// True when the manifest pairs Steam id `id` with subject `name`.
pub open spec fn spec_maps_to_steam_name(m: Manifest, id: nat, name: Seq<char>) -> bool {
    exists|p: int|
        0 <= p < spec_steam_pairs(m.0@).len() && (#[trigger] spec_steam_pairs(m.0@)[p]).0 as nat
            == id && name == spec_steam_pairs(m.0@)[p].1
}

/// True when some known subject reads `n`.
pub open spec fn spec_known_has(known: Seq<String>, n: Seq<char>) -> bool {
    exists|i: int| 0 <= i < known.len() && (#[trigger] known[i])@ == n
}

/// True when the manifest declares Steam id `id` for a subject among
/// `known`.
pub open spec fn spec_steam_id_known(m: Manifest, known: Seq<String>, id: u32) -> bool {
    exists|i: int|
        0 <= i < spec_steam_pairs(m.0@).len() && (#[trigger] spec_steam_pairs(m.0@)[i]).0 == id
            && spec_known_has(known, spec_steam_pairs(m.0@)[i].1)
}

/// True when one requested name fails to resolve: an unknown subject name,
/// or — when requesting by Steam id — a non-numeric id or one the manifest
/// does not map to a known subject.
pub open spec fn spec_invalid_request(
    known: Seq<String>,
    by_steam_id: bool,
    m: Manifest,
    g: Seq<char>,
) -> bool {
    if by_steam_id {
        !(g.len() > 0 && spec_all_digits(g) && spec_dec_value(g) <= u32::MAX && spec_steam_id_known(
            m,
            known,
            spec_dec_value(g) as u32,
        ))
    } else {
        !spec_known_has(known, g)
    }
}

fn known_has(known: &Vec<String>, g: &String) -> (r: bool)
    ensures
        r == spec_known_has(known@, g@),
{
    let mut i: usize = 0;
    while i < known.len()
        invariant
            i <= known@.len(),
            forall|j: int| 0 <= j < i ==> (#[trigger] known@[j])@ != g@,
        decreases known@.len() - i,
    {
        if str_eq(known[i].as_str(), g.as_str()) {
            return true;
        }
        i += 1;
    }
    false
}

#[verifier::loop_isolation(false)]
fn steam_id_known(m: &Manifest, known: &Vec<String>, id: u32) -> (r: bool)
    ensures
        r == spec_steam_id_known(*m, known@, id),
{
    let pairs = m.map_steam_ids_to_names();
    let ghost spairs = spec_steam_pairs(m.0@);
    let mut i: usize = 0;
    while i < pairs.len()
        invariant
            i <= pairs@.len(),
            pairs@.map_values(|p: (u32, String)| (p.0, p.1@)) == spairs,
            forall|j: int|
                0 <= j < i ==> !((#[trigger] spairs[j]).0 == id && spec_known_has(
                    known@,
                    spairs[j].1,
                )),
        decreases pairs@.len() - i,
    {
        proof {
            assert(spairs[i as int] == (pairs@[i as int].0, pairs@[i as int].1@));
        }
        if pairs[i].0 == id && known_has(known, &pairs[i].1) {
            return true;
        }
        i += 1;
    }
    false
}

/// Decides whether one requested name resolves.
#[verifier::loop_isolation(false)]
pub fn invalid_request(known: &Vec<String>, by_steam_id: bool, m: &Manifest, g: &String) -> (r:
    bool)
    ensures
        r == spec_invalid_request(known@, by_steam_id, *m, g@),
{
    if by_steam_id {
        let chars = str_to_chars(g.as_str());
        match parse_u32_chars(&chars) {
            Some(id) => {
                proof {
                    if g@.len() > 0 && spec_all_digits(g@) && spec_dec_value(g@) <= u32::MAX {
                        assert(spec_dec_value(g@) == id as nat);
                    }
                }
                !steam_id_known(m, known, id)
            },
            None => {
                proof {
                    if g@.len() > 0 && spec_all_digits(g@) && spec_dec_value(g@) <= u32::MAX {
                    }
                }
                true
            },
        }
    } else {
        !known_has(known, g)
    }
}

/// The requested names that do not resolve to a known subject, in request
/// order.
pub open spec fn spec_invalid_requests(
    known: Seq<String>,
    requested: Seq<String>,
    by_steam_id: bool,
    m: Manifest,
) -> Seq<Seq<char>>
    decreases requested.len(),
{
    if requested.len() == 0 {
        Seq::empty()
    } else {
        let rest = spec_invalid_requests(known, requested.drop_last(), by_steam_id, m);
        if spec_invalid_request(known, by_steam_id, m, requested.last()@) {
            rest.push(requested.last()@)
        } else {
            rest
        }
    }
}

/// The requested subjects that cannot be processed — unknown names, or, by
/// Steam id, ids that are not numbers or that the manifest does not map to
/// a known subject — returned sorted by name.
#[verifier::loop_isolation(false)]
pub fn get_invalid_games(
    known: &Vec<String>,
    requested: &Vec<String>,
    by_steam_id: bool,
    m: &Manifest,
) -> (r: Vec<String>)
    ensures
        spec_sorted_names(r@),
        r@.len() == spec_invalid_requests(known@, requested@, by_steam_id, *m).len(),
        forall|i: int|
            0 <= i < r@.len() ==> spec_invalid_requests(known@, requested@, by_steam_id, *m)
                .contains((#[trigger] r@[i])@),
        forall|k: int|
            0 <= k < spec_invalid_requests(known@, requested@, by_steam_id, *m).len()
                ==> spec_names_have(r@, #[trigger] spec_invalid_requests(
                known@,
                requested@,
                by_steam_id,
                *m,
            )[k]),
{
    let mut r: Vec<String> = Vec::new();
    let mut i: usize = 0;
    assert(r@.map_values(|s: String| s@) =~= spec_invalid_requests(
        known@,
        requested@.subrange(0, 0),
        by_steam_id,
        *m,
    ));
    while i < requested.len()
        invariant
            i <= requested@.len(),
            r@.map_values(|s: String| s@) == spec_invalid_requests(
                known@,
                requested@.subrange(0, i as int),
                by_steam_id,
                *m,
            ),
        decreases requested@.len() - i,
    {
        let ghost pre = requested@.subrange(0, i as int);
        let ghost nxt = requested@.subrange(0, i + 1);
        proof {
            assert(nxt.drop_last() =~= pre);
            assert(nxt.last() == requested@[i as int]);
        }
        if invalid_request(known, by_steam_id, m, &requested[i]) {
            r.push(requested[i].clone());
            proof {
                assert(r@.map_values(|s: String| s@) =~= spec_invalid_requests(
                    known@,
                    nxt,
                    by_steam_id,
                    *m,
                ));
            }
        }
        i += 1;
    }
    proof {
        assert(requested@.subrange(0, requested@.len() as int) =~= requested@);
    }
    let ghost unsorted = r@;
    let sorted = sort_names(r);
    proof {
        assert(unsorted.map_values(|s: String| s@) == spec_invalid_requests(
            known@,
            requested@,
            by_steam_id,
            *m,
        ));
        assert forall|i: int|
            0 <= i < sorted@.len() implies spec_invalid_requests(
            known@,
            requested@,
            by_steam_id,
            *m,
        ).contains((#[trigger] sorted@[i])@) by {
            assert(unsorted.contains(sorted@[i]));
            let j = choose|j: int| 0 <= j < unsorted.len() && unsorted[j] == sorted@[i];
            assert(spec_invalid_requests(known@, requested@, by_steam_id, *m)[j]
                == unsorted[j]@);
        }
        assert forall|k: int|
            0 <= k < spec_invalid_requests(known@, requested@, by_steam_id, *m).len()
            implies spec_names_have(sorted@, #[trigger] spec_invalid_requests(
            known@,
            requested@,
            by_steam_id,
            *m,
        )[k]) by {
            assert(spec_invalid_requests(known@, requested@, by_steam_id, *m)[k]
                == unsorted[k]@);
            assert(sorted@.contains(unsorted[k]));
            let i = choose|i: int| 0 <= i < sorted@.len() && sorted@[i] == unsorted[k];
            assert(sorted@[i]@ == spec_invalid_requests(known@, requested@, by_steam_id, *m)[k]);
        }
    }
    sorted
}

/// True when `v` is ordered by name.
pub open spec fn spec_sorted_names(v: Seq<String>) -> bool {
    forall|i: int, j: int|
        0 <= i < j < v.len() ==> spec_chars_le((#[trigger] v[i])@, (#[trigger] v[j])@)
}

/// Orders subject names ascending; the result holds the same names.
#[verifier::loop_isolation(false)]
pub fn sort_names(v: Vec<String>) -> (r: Vec<String>)
    ensures
        spec_sorted_names(r@),
        r@.len() == v@.len(),
        forall|i: int| 0 <= i < r@.len() ==> v@.contains(#[trigger] r@[i]),
        forall|j: int| 0 <= j < v@.len() ==> r@.contains(#[trigger] v@[j]),
{
    let mut work = v;
    let mut out: Vec<String> = Vec::new();
    let ghost orig = work@;
    proof {
        assert forall|j: int| 0 <= j < orig.len() implies orig.contains(#[trigger] orig[j]) by {
            assert(orig[j] == orig[j]);
        }
    }
    while work.len() > 0
        invariant
            out@.len() + work@.len() == orig.len(),
            spec_sorted_names(out@),
            forall|i: int, j: int|
                0 <= i < out@.len() && 0 <= j < work@.len() ==> spec_chars_le(
                    (#[trigger] out@[i])@,
                    (#[trigger] work@[j])@,
                ),
            forall|i: int| 0 <= i < out@.len() ==> orig.contains(#[trigger] out@[i]),
            forall|j: int| 0 <= j < work@.len() ==> orig.contains(#[trigger] work@[j]),
            forall|j: int|
                0 <= j < orig.len() ==> out@.contains(#[trigger] orig[j]) || work@.contains(
                    orig[j],
                ),
        decreases work@.len(),
    {
        let mut min: usize = 0;
        let mut t: usize = 1;
        proof {
            lemma_chars_le_total(work@[0]@, work@[0]@);
        }
        while t < work.len()
            invariant
                min < work@.len(),
                t <= work@.len(),
                forall|j: int| 0 <= j < t ==> spec_chars_le(work@[min as int]@, (#[trigger] work@[j])@),
            decreases work@.len() - t,
        {
            if string_le(&work[t], &work[min]) {
                proof {
                    assert forall|j: int|
                        0 <= j < t + 1 implies spec_chars_le(
                            work@[t as int]@,
                            (#[trigger] work@[j])@,
                        ) by {
                        if j == t {
                            lemma_chars_le_total(work@[t as int]@, work@[t as int]@);
                        } else {
                            lemma_chars_le_trans(work@[t as int]@, work@[min as int]@, work@[j]@);
                        }
                    }
                }
                min = t;
            } else {
                proof {
                    lemma_chars_le_total(work@[t as int]@, work@[min as int]@);
                }
            }
            t += 1;
        }
        let ghost work_before = work@;
        let ghost out_before = out@;
        let picked = work.remove(min);
        out.push(picked);
        proof {
            assert(work@ =~= work_before.remove(min as int));
            assert(out@ =~= out_before.push(work_before[min as int]));
            assert forall|i: int, j: int|
                0 <= i < out@.len() && 0 <= j < work@.len() implies spec_chars_le(
                    (#[trigger] out@[i])@,
                    (#[trigger] work@[j])@,
                ) by {
                let wj: int = if j < min { j } else { j + 1 };
                assert(work@[j] == work_before[wj]);
                if i < out_before.len() {
                    assert(spec_chars_le(out@[i]@, work_before[wj]@));
                } else {
                    assert(out@[i] == work_before[min as int]);
                    assert(spec_chars_le(work_before[min as int]@, work_before[wj]@));
                }
            }
            assert forall|i: int, j: int|
                0 <= i < j < out@.len() implies spec_chars_le(
                    (#[trigger] out@[i])@,
                    (#[trigger] out@[j])@,
                ) by {
                if j < out_before.len() {
                    assert(spec_chars_le(out_before[i]@, out_before[j]@));
                } else {
                    assert(out@[j] == work_before[min as int]);
                    assert(spec_chars_le(out_before[i]@, work_before[min as int]@));
                }
            }
            assert forall|j: int| 0 <= j < work@.len() implies orig.contains(
                #[trigger] work@[j],
            ) by {
                let wj: int = if j < min { j } else { j + 1 };
                assert(work@[j] == work_before[wj]);
            }
            assert forall|j: int|
                0 <= j < orig.len() implies out@.contains(#[trigger] orig[j]) || work@.contains(
                    orig[j],
                ) by {
                if out_before.contains(orig[j]) {
                    let q = choose|q: int| 0 <= q < out_before.len() && out_before[q] == orig[j];
                    assert(out@[q] == orig[j]);
                    assert(out@.contains(orig[j]));
                } else {
                    assert(work_before.contains(orig[j]));
                    let q = choose|q: int| 0 <= q < work_before.len() && work_before[q] == orig[j];
                    if q == min {
                        assert(out@[out@.len() - 1] == orig[j]);
                        assert(out@.contains(orig[j]));
                    } else if q < min {
                        assert(work@[q] == orig[j]);
                        assert(work@.contains(orig[j]));
                    } else {
                        assert(work@[q - 1] == orig[j]);
                        assert(work@.contains(orig[j]));
                    }
                }
            }
        }
    }
    out
}

/// The subjects one run processes: every known subject, ordered by name,
/// when nothing specific was requested; otherwise the requested names —
/// each mapped through the manifest's Steam id table when requesting by
/// Steam id, which requires every requested id to resolve, as
/// `get_invalid_games` checks.
#[verifier::loop_isolation(false)]
pub fn get_subjects(
    known: Vec<String>,
    requested: &Vec<String>,
    by_steam_id: bool,
    m: &Manifest,
) -> (r: Vec<String>)
    requires
        forall|j: int|
            0 <= j < requested@.len() ==> !spec_invalid_request(
                known@,
                by_steam_id,
                *m,
                (#[trigger] requested@[j])@,
            ),
    ensures
        requested@.len() == 0 ==> spec_sorted_names(r@) && r@.len() == known@.len() && (forall|
        i: int|
            0 <= i < r@.len() ==> known@.contains(#[trigger] r@[i])) && (forall|j: int|
            0 <= j < known@.len() ==> r@.contains(#[trigger] known@[j])),
        requested@.len() > 0 && !by_steam_id ==> r@ == requested@.map_values(|s: String| s),
        requested@.len() > 0 && by_steam_id ==> r@.len() == requested@.len() && (forall|j: int|
            0 <= j < requested@.len() ==> spec_maps_to_steam_name(
                *m,
                spec_dec_value(requested@[j]@),
                (#[trigger] r@[j])@,
            )),
{
    if requested.len() == 0 {
        sort_names(known)
    } else if by_steam_id {
        let pairs = m.map_steam_ids_to_names();
        let mut r: Vec<String> = Vec::new();
        let mut i: usize = 0;
        while i < requested.len()
            invariant
                i <= requested@.len(),
                r@.len() == i,
                pairs@.map_values(|p: (u32, String)| (p.0, p.1@)) == spec_steam_pairs(m.0@),
                forall|j: int|
                    0 <= j < i ==> spec_maps_to_steam_name(
                        *m,
                        spec_dec_value(requested@[j]@),
                        (#[trigger] r@[j])@,
                    ),
            decreases requested@.len() - i,
        {
            let chars = str_to_chars(requested[i].as_str());
            match parse_u32_chars(&chars) {
                Some(id) => {
                    let mut found: Option<String> = None;
                    let mut q: usize = 0;
                    while q < pairs.len()
                        invariant
                            q <= pairs@.len(),
                            found is None ==> forall|w: int|
                                0 <= w < q ==> (#[trigger] pairs@[w]).0 != id,
                            found matches Some(name) ==> spec_maps_to_steam_name(
                                *m,
                                id as nat,
                                name@,
                            ),
                        decreases pairs@.len() - q,
                    {
                        if pairs[q].0 == id {
                            found = Some(pairs[q].1.clone());
                            proof {
                                assert(spec_steam_pairs(m.0@)[q as int] == (pairs@[q as int].0,
                                pairs@[q as int].1@));
                                assert(spec_maps_to_steam_name(
                                    *m,
                                    id as nat,
                                    pairs@[q as int].1@,
                                ));
                            }
                            break ;
                        }
                        q += 1;
                    }
                    match found {
                        Some(name) => {
                            r.push(name);
                        },
                        None => {
                            // every requested id resolves, so a pair exists
                            proof {
                                assert(!spec_invalid_request(
                                    known@,
                                    by_steam_id,
                                    *m,
                                    requested@[i as int]@,
                                ));
                                assert(spec_steam_id_known(*m, known@, id));
                                let p = choose|p: int|
                                    0 <= p < spec_steam_pairs(m.0@).len() && (#[trigger] spec_steam_pairs(m.0@)[p]).0 == id
                                        && spec_known_has(known@, spec_steam_pairs(m.0@)[p].1);
                                assert(pairs@[p].0 == id);
                                assert(false);
                            }
                            r.push(requested[i].clone());
                        },
                    }
                },
                None => {
                    proof {
                        assert(!spec_invalid_request(
                            known@,
                            by_steam_id,
                            *m,
                            requested@[i as int]@,
                        ));
                        assert(false);
                    }
                    r.push(requested[i].clone());
                },
            }
            i += 1;
        }
        r
    } else {
        let mut r: Vec<String> = Vec::new();
        let mut i: usize = 0;
        while i < requested.len()
            invariant
                i <= requested@.len(),
                r@.len() == i,
                forall|j: int| 0 <= j < i ==> r@[j] == requested@[j],
            decreases requested@.len() - i,
        {
            r.push(requested[i].clone());
            i += 1;
        }
        proof {
            assert(r@ =~= requested@.map_values(|s: String| s));
        }
        r
    }
}

} // verus!
