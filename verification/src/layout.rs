//! The on-disk backup layout, modelled as data: per subject an ordered chain
//! of full backups, each carrying its differential children. The layout
//! decides what a new generation contains, prunes by retention, and
//! reconstructs the effective state of any generation by chain overlay.

use vstd::prelude::*;
use crate::path::{StrictPath, RegistryItem, RedirectConfig, spec_redirected, game_file_target, unportable_of, from_portable};
use crate::scan::{ScanInfo, ScannedFile, ScannedRegistry};
use crate::strutil::{str_eq, str_to_chars, chars_to_string, u64_to_dec_chars, spec_dec_digits};
use crate::scan::append_chars;

verus! {

/// How a stored backup is referred to: the newest one, or one by name.
#[derive(Clone, Debug, PartialEq, Eq)]
pub enum BackupId {
    Latest,
    Named(String),
}

/// Whether a stored backup is self-contained or records changes only.
#[derive(Clone, Copy, Debug, PartialEq, Eq, Structural)]
pub enum BackupKind {
    Full,
    Differential,
}

/// One stored generation, as listed to callers.
#[derive(Clone, Debug, PartialEq, Eq)]
pub struct Backup {
    pub name: String,
    pub when: u64,
    pub comment: Option<String>,
    pub kind: BackupKind,
}

impl Backup {
    /// An equal copy.
    pub fn duplicate(&self) -> (r: Self)
        ensures
            r == *self,
    {
        Backup {
            name: self.name.clone(),
            when: self.when,
            comment: match &self.comment {
                Some(c) => Some(c.clone()),
                None => None,
            },
            kind: self.kind,
        }
    }

    pub fn id(&self) -> (r: BackupId)
        ensures
            r matches BackupId::Named(n) && n@ == self.name@,
    {
        BackupId::Named(self.name.clone())
    }
}

/// The captured state of one file or registry key: content hash (or
/// exported content) and byte size.
#[derive(Clone, Debug, PartialEq, Eq)]
pub struct EntryState {
    pub hash: String,
    pub size: u64,
}

/// One captured item of a full backup: a portable key mapped to its state.
#[derive(Clone, Debug, PartialEq, Eq)]
pub struct EntryRecord {
    pub key: String,
    pub hash: String,
    pub size: u64,
}

/// One recorded change of a differential backup: a new state, or `None` as
/// a deletion marker.
#[derive(Clone, Debug, PartialEq, Eq)]
pub struct DiffEntryRecord {
    pub key: String,
    pub change: Option<EntryState>,
}

/// A differential generation: a name, a timestamp, and the changes it
/// records relative to the chain state before it.
#[derive(Clone, Debug, PartialEq, Eq)]
pub struct DiffBackupRecord {
    pub name: String,
    pub when: u64,
    pub comment: Option<String>,
    pub files: Vec<DiffEntryRecord>,
    pub registry: Vec<DiffEntryRecord>,
}

/// A full generation with its dependent differential children, in
/// chronological order.
#[derive(Clone, Debug, PartialEq, Eq)]
pub struct FullBackupRecord {
    pub name: String,
    pub when: u64,
    pub comment: Option<String>,
    pub files: Vec<EntryRecord>,
    pub registry: Vec<EntryRecord>,
    pub children: Vec<DiffBackupRecord>,
}

/// How many full and differential backups are kept per subject.
#[derive(Clone, Copy, Debug, PartialEq, Eq, Structural)]
pub struct Retention {
    pub full: u8,
    pub differential: u8,
}

impl Retention {
    pub fn new(full: u8, differential: u8) -> (r: Self)
        ensures
            r.full == full,
            r.differential == differential,
    {
        Retention { full, differential }
    }
}

/// The per-item failures of one backup or restore operation.
#[derive(Clone, Debug, PartialEq, Eq)]
pub struct BackupInfo {
    pub failed_files: Vec<crate::scan::ScannedFile>,
    pub failed_registry: Vec<crate::path::RegistryItem>,
}

impl Default for BackupInfo {
    fn default() -> (r: Self)
        ensures
            r.failed_files@.len() == 0,
            r.failed_registry@.len() == 0,
    {
        BackupInfo { failed_files: Vec::new(), failed_registry: Vec::new() }
    }
}

impl BackupInfo {
    /// True when every item succeeded.
    pub fn successful(&self) -> (r: bool)
        ensures
            r == (self.failed_files@.len() == 0 && self.failed_registry@.len() == 0),
    {
        self.failed_files.len() == 0 && self.failed_registry.len() == 0
    }
}

/// One subject's stored chains: full backups in chronological order.
#[derive(Clone, Debug, PartialEq, Eq)]
pub struct GameLayout {
    pub name: String,
    pub chain: Vec<FullBackupRecord>,
}

/// The whole backup root: one `GameLayout` per stored subject, plus the
/// retention limits that pruning applies.
#[derive(Clone, Debug, PartialEq, Eq)]
pub struct BackupLayout {
    pub retention: Retention,
    pub games: Vec<GameLayout>,
}

/// True when some record in `s` carries key `k`.
pub open spec fn entries_has(s: Seq<EntryRecord>, k: Seq<char>) -> bool {
    exists|i: int| 0 <= i < s.len() && (#[trigger] s[i]).key@ == k
}

/// The state recorded for key `k`; meaningful when `entries_has` holds and
/// keys are unique.
pub open spec fn entries_val(s: Seq<EntryRecord>, k: Seq<char>) -> (Seq<char>, u64) {
    let i = choose|i: int| 0 <= i < s.len() && (#[trigger] s[i]).key@ == k;
    (s[i].hash@, s[i].size)
}

/// Well-formed captured state: keys are unique.
pub open spec fn wf_entries(s: Seq<EntryRecord>) -> bool {
    forall|i: int, j: int| 0 <= i < j < s.len() ==> (#[trigger] s[i]).key@ != (#[trigger] s[j]).key@
}

/// True when the diff records key `k`.
pub open spec fn diff_has(d: Seq<DiffEntryRecord>, k: Seq<char>) -> bool {
    exists|i: int| 0 <= i < d.len() && (#[trigger] d[i]).key@ == k
}

/// The change the diff records for key `k`: a new state, or `None` as a
/// deletion; meaningful when `diff_has` holds and keys are unique.
pub open spec fn diff_val(d: Seq<DiffEntryRecord>, k: Seq<char>) -> Option<(Seq<char>, u64)> {
    let i = choose|i: int| 0 <= i < d.len() && (#[trigger] d[i]).key@ == k;
    match d[i].change {
        Some(st) => Some((st.hash@, st.size)),
        None => None,
    }
}

/// Well-formed diff: keys are unique.
pub open spec fn wf_diff(d: Seq<DiffEntryRecord>) -> bool {
    forall|i: int, j: int| 0 <= i < j < d.len() ==> (#[trigger] d[i]).key@ != (#[trigger] d[j]).key@
}

#[verifier::loop_isolation(false)]
fn find_entry(v: &Vec<EntryRecord>, key: &String) -> (r: Option<usize>)
    ensures
        r is Some ==> r->0 < v@.len() && v@[r->0 as int].key@ == key@,
        r is None ==> forall|i: int| 0 <= i < v@.len() ==> v@[i].key@ != key@,
{
    let mut i: usize = 0;
    while i < v.len()
        invariant
            i <= v@.len(),
            forall|j: int| 0 <= j < i ==> v@[j].key@ != key@,
        decreases v@.len() - i,
    {
        if str_eq(v[i].key.as_str(), key.as_str()) {
            return Some(i);
        }
        i += 1;
    }
    None
}

/// Records `key` as having the given state, replacing any previous record.
#[verifier::loop_isolation(false)]
fn upsert_entry(v: &mut Vec<EntryRecord>, key: &String, hash: &String, size: u64)
    requires
        wf_entries(old(v)@),
    ensures
        wf_entries(final(v)@),
        forall|k: Seq<char>|
            #[trigger] entries_has(final(v)@, k) == (entries_has(old(v)@, k) || k == key@),
        forall|k: Seq<char>|
            entries_has(final(v)@, k) && k != key@ ==> #[trigger] entries_val(final(v)@, k)
                == entries_val(old(v)@, k),
        entries_val(final(v)@, key@) == (hash@, size as u64),
{
    let found = find_entry(v, key);
    let rec = EntryRecord { key: key.clone(), hash: hash.clone(), size };
    match found {
        Some(j) => {
            v[j] = rec;
            proof {
                let ov = old(v)@;
                let nv = final(v)@;
                assert(nv[j as int].key@ == key@);
                assert forall|k: Seq<char>|
                    #[trigger] entries_has(nv, k) == (entries_has(ov, k) || k == key@) by {
                    if entries_has(nv, k) {
                        let i = choose|i: int| 0 <= i < nv.len() && (#[trigger] nv[i]).key@ == k;
                        if i == j {
                            assert(k == key@);
                        } else {
                            assert(ov[i].key@ == k);
                            assert(entries_has(ov, k));
                        }
                    }
                    if entries_has(ov, k) {
                        let i = choose|i: int| 0 <= i < ov.len() && (#[trigger] ov[i]).key@ == k;
                        if i == j {
                            assert(k == key@);
                            assert(nv[j as int].key@ == k);
                        } else {
                            assert(nv[i].key@ == k);
                        }
                        assert(entries_has(nv, k));
                    }
                    if k == key@ {
                        assert(nv[j as int].key@ == k);
                        assert(entries_has(nv, k));
                    }
                }
                assert forall|k: Seq<char>|
                    entries_has(nv, k) && k != key@ implies #[trigger] entries_val(nv, k)
                        == entries_val(ov, k) by {
                    let i = choose|i: int| 0 <= i < nv.len() && (#[trigger] nv[i]).key@ == k;
                    assert(i != j);
                    assert(ov[i].key@ == k);
                    let i2 = choose|i2: int| 0 <= i2 < ov.len() && (#[trigger] ov[i2]).key@ == k;
                    assert(i2 == i || (i2 != j && ov[i2].key@ == ov[i].key@));
                    assert(i2 == i);
                    assert(entries_val(nv, k) == (nv[i].hash@, nv[i].size));
                    assert(entries_val(ov, k) == (ov[i].hash@, ov[i].size));
                }
                let i = choose|i: int| 0 <= i < nv.len() && (#[trigger] nv[i]).key@ == key@;
                assert(i == j);
                assert(entries_val(nv, key@) == (hash@, size as u64));
            }
        },
        None => {
            v.push(rec);
            proof {
                let ov = old(v)@;
                let nv = final(v)@;
                let last = nv.len() - 1;
                assert(nv[last].key@ == key@);
                assert forall|k: Seq<char>|
                    #[trigger] entries_has(nv, k) == (entries_has(ov, k) || k == key@) by {
                    if entries_has(nv, k) {
                        let i = choose|i: int| 0 <= i < nv.len() && (#[trigger] nv[i]).key@ == k;
                        if i == last {
                            assert(k == key@);
                        } else {
                            assert(ov[i].key@ == k);
                            assert(entries_has(ov, k));
                        }
                    }
                    if entries_has(ov, k) {
                        let i = choose|i: int| 0 <= i < ov.len() && (#[trigger] ov[i]).key@ == k;
                        assert(nv[i].key@ == k);
                        assert(entries_has(nv, k));
                    }
                    if k == key@ {
                        assert(entries_has(nv, k));
                    }
                }
                assert forall|k: Seq<char>|
                    entries_has(nv, k) && k != key@ implies #[trigger] entries_val(nv, k)
                        == entries_val(ov, k) by {
                    let i = choose|i: int| 0 <= i < nv.len() && (#[trigger] nv[i]).key@ == k;
                    assert(i != last);
                    assert(ov[i].key@ == k);
                    let i2 = choose|i2: int| 0 <= i2 < ov.len() && (#[trigger] ov[i2]).key@ == k;
                    assert(i2 == i);
                    assert(entries_val(nv, k) == (nv[i].hash@, nv[i].size));
                }
                let i = choose|i: int| 0 <= i < nv.len() && (#[trigger] nv[i]).key@ == key@;
                assert(i == last);
            }
        },
    }
}

/// Removes any record for `key`.
#[verifier::loop_isolation(false)]
fn remove_entry(v: &mut Vec<EntryRecord>, key: &String)
    requires
        wf_entries(old(v)@),
    ensures
        wf_entries(final(v)@),
        forall|k: Seq<char>|
            #[trigger] entries_has(final(v)@, k) == (entries_has(old(v)@, k) && k != key@),
        forall|k: Seq<char>|
            entries_has(final(v)@, k) ==> #[trigger] entries_val(final(v)@, k) == entries_val(
                old(v)@,
                k,
            ),
{
    let found = find_entry(v, key);
    match found {
        Some(j) => {
            v.remove(j);
            proof {
                let ov = old(v)@;
                let nv = final(v)@;
                assert(nv =~= ov.remove(j as int));
                assert forall|k: Seq<char>|
                    #[trigger] entries_has(nv, k) == (entries_has(ov, k) && k != key@) by {
                    if entries_has(nv, k) {
                        let i = choose|i: int| 0 <= i < nv.len() && (#[trigger] nv[i]).key@ == k;
                        if i < j {
                            assert(ov[i].key@ == k);
                            assert(entries_has(ov, k));
                            assert(k != key@);
                        } else {
                            assert(ov[i + 1].key@ == k);
                            assert(entries_has(ov, k));
                            assert(k != key@);
                        }
                    }
                    if entries_has(ov, k) && k != key@ {
                        let i = choose|i: int| 0 <= i < ov.len() && (#[trigger] ov[i]).key@ == k;
                        assert(i != j);
                        if i < j {
                            assert(nv[i].key@ == k);
                        } else {
                            assert(nv[i - 1].key@ == k);
                        }
                        assert(entries_has(nv, k));
                    }
                }
                assert forall|k: Seq<char>|
                    entries_has(nv, k) implies #[trigger] entries_val(nv, k) == entries_val(
                        ov,
                        k,
                    ) by {
                    let i = choose|i: int| 0 <= i < nv.len() && (#[trigger] nv[i]).key@ == k;
                    let oi: int = if i < j {
                        i
                    } else {
                        i + 1
                    };
                    assert(ov[oi].key@ == k);
                    let i2 = choose|i2: int| 0 <= i2 < ov.len() && (#[trigger] ov[i2]).key@ == k;
                    assert(i2 == oi);
                    assert(entries_val(nv, k) == (nv[i].hash@, nv[i].size));
                    assert(entries_val(ov, k) == (ov[oi].hash@, ov[oi].size));
                }
            }
        },
        None => {
            proof {
                assert forall|k: Seq<char>|
                    #[trigger] entries_has(final(v)@, k) == (entries_has(old(v)@, k) && k
                        != key@) by {
                    if entries_has(old(v)@, k) {
                        let i = choose|i: int|
                            0 <= i < old(v)@.len() && (#[trigger] old(v)@[i]).key@ == k;
                        assert(k != key@);
                    }
                }
            }
        },
    }
}

/// The diff list of one differential generation, for files or registry.
pub open spec fn diff_of(d: DiffBackupRecord, reg: bool) -> Seq<DiffEntryRecord> {
    if reg {
        d.registry@
    } else {
        d.files@
    }
}

/// The base list of a full generation, for files or registry.
pub open spec fn base_of(f: FullBackupRecord, reg: bool) -> Seq<EntryRecord> {
    if reg {
        f.registry@
    } else {
        f.files@
    }
}

/// The effective state of key `k` after overlaying the first `upto`
/// differential generations onto the full backup's captured state: the
/// newest recorded change wins, and an untouched key keeps the base state.
pub open spec fn spec_chain_lookup(
    base: Seq<EntryRecord>,
    children: Seq<DiffBackupRecord>,
    upto: int,
    reg: bool,
    k: Seq<char>,
) -> Option<(Seq<char>, u64)>
    decreases upto,
{
    if upto <= 0 {
        if entries_has(base, k) {
            Some(entries_val(base, k))
        } else {
            None
        }
    } else {
        let d = diff_of(children[upto - 1], reg);
        if diff_has(d, k) {
            diff_val(d, k)
        } else {
            spec_chain_lookup(base, children, upto - 1, reg, k)
        }
    }
}

/// Copies a record list.
#[verifier::loop_isolation(false)]
fn clone_entries(v: &Vec<EntryRecord>) -> (r: Vec<EntryRecord>)
    ensures
        r@ == v@,
{
    let mut r: Vec<EntryRecord> = Vec::new();
    let mut i: usize = 0;
    while i < v.len()
        invariant
            i <= v@.len(),
            r@.len() == i,
            forall|j: int| 0 <= j < i ==> r@[j] == v@[j],
        decreases v@.len() - i,
    {
        r.push(EntryRecord {
            key: v[i].key.clone(),
            hash: v[i].hash.clone(),
            size: v[i].size,
        });
        i += 1;
    }
    assert(r@ =~= v@);
    r
}

/// Reconstructs the effective state after the first `upto` differential
/// generations, as a well-formed record list agreeing with
/// `spec_chain_lookup` on every key.
#[verifier::loop_isolation(false)]
pub fn effective_entries(
    base: &Vec<EntryRecord>,
    children: &Vec<DiffBackupRecord>,
    upto: usize,
    reg: bool,
) -> (r: Vec<EntryRecord>)
    requires
        wf_entries(base@),
        upto <= children@.len(),
        forall|i: int| 0 <= i < children@.len() ==> wf_diff(diff_of(#[trigger] children@[i], reg)),
    ensures
        wf_entries(r@),
        forall|k: Seq<char>|
            (#[trigger] entries_has(r@, k) == (spec_chain_lookup(
                base@,
                children@,
                upto as int,
                reg,
                k,
            ) is Some)) && (entries_has(r@, k) ==> spec_chain_lookup(
                base@,
                children@,
                upto as int,
                reg,
                k,
            ) == Some(entries_val(r@, k))),
{
    let mut r = clone_entries(base);
    let mut c: usize = 0;
    while c < upto
        invariant
            c <= upto,
            wf_entries(r@),
            forall|k: Seq<char>|
                (#[trigger] entries_has(r@, k) == (spec_chain_lookup(
                    base@,
                    children@,
                    c as int,
                    reg,
                    k,
                ) is Some)) && (entries_has(r@, k) ==> spec_chain_lookup(
                    base@,
                    children@,
                    c as int,
                    reg,
                    k,
                ) == Some(entries_val(r@, k))),
        decreases upto - c,
    {
        let child = &children[c];
        let d: &Vec<DiffEntryRecord> = if reg {
            &child.registry
        } else {
            &child.files
        };
        proof {
            assert(d@ == diff_of(children@[c as int], reg));
        }
        let ghost r_at_child = r@;
        let mut t: usize = 0;
        while t < d.len()
            invariant
                t <= d@.len(),
                d@ == diff_of(children@[c as int], reg),
                wf_diff(d@),
                wf_entries(r@),
                // keys touched by the processed prefix follow the diff;
                // untouched keys keep the state before this child
                forall|k: Seq<char>|
                    #[trigger] entries_has(r@, k) == (if diff_has(d@.subrange(0, t as int), k) {
                        diff_val(d@.subrange(0, t as int), k) is Some
                    } else {
                        entries_has(r_at_child, k)
                    }),
                forall|k: Seq<char>|
                    entries_has(r@, k) ==> Some(#[trigger] entries_val(r@, k)) == (if diff_has(
                        d@.subrange(0, t as int),
                        k,
                    ) {
                        diff_val(d@.subrange(0, t as int), k)
                    } else {
                        Some(entries_val(r_at_child, k))
                    }),
            decreases d@.len() - t,
        {
            let ghost dpre = d@.subrange(0, t as int);
            let ghost dnxt = d@.subrange(0, t + 1);
            proof {
                assert(forall|j: int| 0 <= j < t ==> dnxt[j] == d@[j]);
                assert(dnxt[t as int] == d@[t as int]);
                // the new record's key is fresh within the prefix
                assert forall|k: Seq<char>| #[trigger] diff_has(dnxt, k) == (diff_has(dpre, k)
                    || k == d@[t as int].key@) by {
                    if diff_has(dnxt, k) {
                        let i = choose|i: int| 0 <= i < dnxt.len() && (#[trigger] dnxt[i]).key@ == k;
                        if i < t {
                            assert(dpre[i].key@ == k);
                            assert(diff_has(dpre, k));
                        }
                    }
                    if diff_has(dpre, k) {
                        let i = choose|i: int| 0 <= i < dpre.len() && (#[trigger] dpre[i]).key@ == k;
                        assert(dnxt[i].key@ == k);
                        assert(diff_has(dnxt, k));
                    }
                    if k == d@[t as int].key@ {
                        assert(dnxt[t as int].key@ == k);
                        assert(diff_has(dnxt, k));
                    }
                }
                assert forall|k: Seq<char>|
                    diff_has(dnxt, k) implies #[trigger] diff_val(dnxt, k) == (if k == d@[
                    t as int].key@ {
                    match d@[t as int].change {
                        Some(st) => Some((st.hash@, st.size)),
                        None => None,
                    }
                } else {
                    diff_val(dpre, k)
                }) by {
                    let i = choose|i: int| 0 <= i < dnxt.len() && (#[trigger] dnxt[i]).key@ == k;
                    if k == d@[t as int].key@ {
                        // uniqueness within the diff pins the witness
                        if i < t {
                            assert(d@[i].key@ == d@[t as int].key@);
                            assert(false);
                        }
                        assert(dnxt[i] == d@[t as int]);
                    } else {
                        assert(i < t);
                        assert(dpre[i].key@ == k);
                        let i2 = choose|i2: int|
                            0 <= i2 < dpre.len() && (#[trigger] dpre[i2]).key@ == k;
                        assert(i2 == i) by {
                            if i2 != i {
                                assert(d@[i2].key@ == d@[i].key@);
                            }
                        }
                        assert(diff_val(dnxt, k) == match dnxt[i].change {
                            Some(st) => Some((st.hash@, st.size)),
                            None => None,
                        });
                        assert(diff_val(dpre, k) == match dpre[i2].change {
                            Some(st) => Some((st.hash@, st.size)),
                            None => None,
                        });
                    }
                }
            }
            match &d[t].change {
                Some(st) => {
                    upsert_entry(&mut r, &d[t].key, &st.hash, st.size);
                },
                None => {
                    remove_entry(&mut r, &d[t].key);
                },
            }
            t += 1;
        }
        proof {
            assert(d@.subrange(0, d@.len() as int) =~= d@);
        }
        c += 1;
    }
    r
}

/// The differences between the current state and a previous effective
/// state: a record for every key whose state is new or changed, and a
/// deletion marker for every key present before and absent now.
#[verifier::loop_isolation(false)]
pub fn compute_diff(current: &Vec<EntryRecord>, previous: &Vec<EntryRecord>) -> (r: Vec<
    DiffEntryRecord,
>)
    requires
        wf_entries(current@),
        wf_entries(previous@),
    ensures
        wf_diff(r@),
        forall|k: Seq<char>|
            #[trigger] diff_has(r@, k) == ((entries_has(current@, k) && (!entries_has(
                previous@,
                k,
            ) || entries_val(previous@, k) != entries_val(current@, k))) || (entries_has(
                previous@,
                k,
            ) && !entries_has(current@, k))),
        forall|k: Seq<char>|
            diff_has(r@, k) && entries_has(current@, k) ==> #[trigger] diff_val(r@, k) == Some(
                entries_val(current@, k),
            ),
        forall|k: Seq<char>|
            diff_has(r@, k) && !entries_has(current@, k) ==> #[trigger] diff_val(r@, k) is None,
{
    let mut r: Vec<DiffEntryRecord> = Vec::new();
    let mut i: usize = 0;
    while i < current.len()
        invariant
            i <= current@.len(),
            wf_diff(r@),
            forall|k: Seq<char>|
                #[trigger] diff_has(r@, k) == (entries_has(current@.subrange(0, i as int), k) && (
                !entries_has(previous@, k) || entries_val(previous@, k) != entries_val(
                    current@,
                    k,
                ))),
            forall|k: Seq<char>|
                diff_has(r@, k) ==> #[trigger] diff_val(r@, k) == Some(entries_val(current@, k)),
        decreases current@.len() - i,
    {
        let ghost cpre = current@.subrange(0, i as int);
        let ghost cnxt = current@.subrange(0, i + 1);
        proof {
            assert(forall|j: int| 0 <= j < i ==> cnxt[j] == current@[j]);
            assert(cnxt[i as int] == current@[i as int]);
            assert forall|k: Seq<char>| #[trigger] entries_has(cnxt, k) == (entries_has(cpre, k)
                || k == current@[i as int].key@) by {
                if entries_has(cnxt, k) {
                    let q = choose|q: int| 0 <= q < cnxt.len() && (#[trigger] cnxt[q]).key@ == k;
                    if q < i {
                        assert(cpre[q].key@ == k);
                        assert(entries_has(cpre, k));
                    }
                }
                if entries_has(cpre, k) {
                    let q = choose|q: int| 0 <= q < cpre.len() && (#[trigger] cpre[q]).key@ == k;
                    assert(cnxt[q].key@ == k);
                    assert(entries_has(cnxt, k));
                }
                if k == current@[i as int].key@ {
                    assert(cnxt[i as int].key@ == k);
                    assert(entries_has(cnxt, k));
                }
            }
        }
        let ckey = &current[i].key;
        let changed: bool = match find_entry(previous, ckey) {
            Some(j) => {
                let same = str_eq(previous[j].hash.as_str(), current[i].hash.as_str())
                    && previous[j].size == current[i].size;
                proof {
                    assert(entries_has(previous@, ckey@));
                    let q = choose|q: int|
                        0 <= q < previous@.len() && (#[trigger] previous@[q]).key@ == ckey@;
                    assert(q == j);
                    let q2 = choose|q2: int|
                        0 <= q2 < current@.len() && (#[trigger] current@[q2]).key@ == ckey@;
                    assert(q2 == i);
                    assert(entries_val(previous@, ckey@) == (previous@[j as int].hash@,
                    previous@[j as int].size));
                    assert(entries_val(current@, ckey@) == (current@[i as int].hash@,
                    current@[i as int].size));
                }
                !same
            },
            None => {
                proof {
                    if entries_has(previous@, ckey@) {
                        let q = choose|q: int|
                            0 <= q < previous@.len() && (#[trigger] previous@[q]).key@ == ckey@;
                        assert(false);
                    }
                }
                true
            },
        };
        if changed {
            let ghost r_prev = r@;
            proof {
                if diff_has(r@, ckey@) {
                    assert(entries_has(cpre, ckey@));
                    let q = choose|q: int| 0 <= q < cpre.len() && (#[trigger] cpre[q]).key@ == ckey@;
                    assert(current@[q].key@ == current@[i as int].key@);
                    assert(false);
                }
            }
            r.push(DiffEntryRecord {
                key: ckey.clone(),
                change: Some(EntryState { hash: current[i].hash.clone(), size: current[i].size }),
            });
            proof {
                let last = r@.len() - 1;
                assert(r@[last].key@ == ckey@);
                assert forall|k: Seq<char>| #[trigger] diff_has(r@, k) == (diff_has(r_prev, k)
                    || k == ckey@) by {
                    if diff_has(r@, k) {
                        let q = choose|q: int| 0 <= q < r@.len() && (#[trigger] r@[q]).key@ == k;
                        if q < last {
                            assert(r_prev[q].key@ == k);
                            assert(diff_has(r_prev, k));
                        }
                    }
                    if diff_has(r_prev, k) {
                        let q = choose|q: int|
                            0 <= q < r_prev.len() && (#[trigger] r_prev[q]).key@ == k;
                        assert(r@[q].key@ == k);
                        assert(diff_has(r@, k));
                    }
                    if k == ckey@ {
                        assert(diff_has(r@, k));
                    }
                }
                assert forall|k: Seq<char>|
                    diff_has(r@, k) implies #[trigger] diff_val(r@, k) == Some(entries_val(
                        current@,
                        k,
                    )) by {
                    let q = choose|q: int| 0 <= q < r@.len() && (#[trigger] r@[q]).key@ == k;
                    if q < last {
                        assert(r_prev[q].key@ == k);
                        assert(diff_has(r_prev, k));
                        let q2 = choose|q2: int|
                            0 <= q2 < r_prev.len() && (#[trigger] r_prev[q2]).key@ == k;
                        assert(q2 == q) by {
                            if q2 != q {
                                assert(r@[q2].key@ == r@[q].key@);
                            }
                        }
                        assert(diff_val(r@, k) == match r@[q].change {
                            Some(st) => Some((st.hash@, st.size)),
                            None => None,
                        });
                        assert(diff_val(r_prev, k) == match r_prev[q2].change {
                            Some(st) => Some((st.hash@, st.size)),
                            None => None,
                        });
                    } else {
                        assert(k == ckey@);
                        let q2 = choose|q2: int|
                            0 <= q2 < current@.len() && (#[trigger] current@[q2]).key@ == k;
                        assert(q2 == i);
                        assert(r@[q] == r@[last]);
                        assert(diff_val(r@, k) == Some((current@[i as int].hash@,
                        current@[i as int].size)));
                    }
                }
            }
        }
        i += 1;
    }
    proof {
        assert(current@.subrange(0, current@.len() as int) =~= current@);
    }
    let ghost r_mid = r@;
    let mut p: usize = 0;
    while p < previous.len()
        invariant
            p <= previous@.len(),
            wf_diff(r@),
            forall|k: Seq<char>|
                #[trigger] diff_has(r@, k) == (diff_has(r_mid, k) || (entries_has(
                    previous@.subrange(0, p as int),
                    k,
                ) && !entries_has(current@, k))),
            forall|k: Seq<char>|
                diff_has(r_mid, k) ==> diff_has(r@, k) && #[trigger] diff_val(r@, k) == diff_val(
                    r_mid,
                    k,
                ),
            forall|k: Seq<char>|
                diff_has(r@, k) && !diff_has(r_mid, k) ==> #[trigger] diff_val(r@, k) is None,
            forall|k: Seq<char>| diff_has(r_mid, k) ==> entries_has(current@, k) || !entries_has(
                previous@,
                k,
            ) || entries_val(previous@, k) != entries_val(current@, k),
        decreases previous@.len() - p,
    {
        let ghost ppre = previous@.subrange(0, p as int);
        let ghost pnxt = previous@.subrange(0, p + 1);
        proof {
            assert(forall|j: int| 0 <= j < p ==> pnxt[j] == previous@[j]);
            assert(pnxt[p as int] == previous@[p as int]);
            assert forall|k: Seq<char>| #[trigger] entries_has(pnxt, k) == (entries_has(ppre, k)
                || k == previous@[p as int].key@) by {
                if entries_has(pnxt, k) {
                    let q = choose|q: int| 0 <= q < pnxt.len() && (#[trigger] pnxt[q]).key@ == k;
                    if q < p {
                        assert(ppre[q].key@ == k);
                        assert(entries_has(ppre, k));
                    }
                }
                if entries_has(ppre, k) {
                    let q = choose|q: int| 0 <= q < ppre.len() && (#[trigger] ppre[q]).key@ == k;
                    assert(pnxt[q].key@ == k);
                    assert(entries_has(pnxt, k));
                }
                if k == previous@[p as int].key@ {
                    assert(pnxt[p as int].key@ == k);
                    assert(entries_has(pnxt, k));
                }
            }
        }
        let pkey = &previous[p].key;
        let gone: bool = match find_entry(current, pkey) {
            Some(_) => false,
            None => {
                proof {
                    if entries_has(current@, pkey@) {
                        let q = choose|q: int|
                            0 <= q < current@.len() && (#[trigger] current@[q]).key@ == pkey@;
                        assert(false);
                    }
                }
                true
            },
        };
        if gone {
            let ghost r_prev = r@;
            proof {
                if diff_has(r@, pkey@) {
                    assert(entries_has(current@, pkey@) || !diff_has(r_mid, pkey@));
                    if diff_has(r_mid, pkey@) {
                        assert(false);
                    } else {
                        assert(entries_has(ppre, pkey@));
                        let q = choose|q: int|
                            0 <= q < ppre.len() && (#[trigger] ppre[q]).key@ == pkey@;
                        assert(previous@[q].key@ == previous@[p as int].key@);
                        assert(false);
                    }
                }
            }
            r.push(DiffEntryRecord { key: pkey.clone(), change: None });
            proof {
                let last = r@.len() - 1;
                assert(r@[last].key@ == pkey@);
                assert forall|k: Seq<char>| #[trigger] diff_has(r@, k) == (diff_has(r_prev, k)
                    || k == pkey@) by {
                    if diff_has(r@, k) {
                        let q = choose|q: int| 0 <= q < r@.len() && (#[trigger] r@[q]).key@ == k;
                        if q < last {
                            assert(r_prev[q].key@ == k);
                            assert(diff_has(r_prev, k));
                        }
                    }
                    if diff_has(r_prev, k) {
                        let q = choose|q: int|
                            0 <= q < r_prev.len() && (#[trigger] r_prev[q]).key@ == k;
                        assert(r@[q].key@ == k);
                        assert(diff_has(r@, k));
                    }
                    if k == pkey@ {
                        assert(diff_has(r@, k));
                    }
                }
                assert forall|k: Seq<char>|
                    diff_has(r@, k) implies #[trigger] diff_val(r@, k) == (if k == pkey@ {
                    None
                } else {
                    diff_val(r_prev, k)
                }) by {
                    let q = choose|q: int| 0 <= q < r@.len() && (#[trigger] r@[q]).key@ == k;
                    if k == pkey@ {
                        if q < last {
                            assert(r_prev[q].key@ == pkey@);
                            assert(diff_has(r_prev, pkey@));
                            assert(false);
                        }
                        assert(r@[q] == r@[last]);
                    } else {
                        assert(q < last);
                        assert(r_prev[q].key@ == k);
                        let q2 = choose|q2: int|
                            0 <= q2 < r_prev.len() && (#[trigger] r_prev[q2]).key@ == k;
                        assert(q2 == q) by {
                            if q2 != q {
                                assert(r@[q2].key@ == r@[q].key@);
                            }
                        }
                        assert(diff_val(r@, k) == match r@[q].change {
                            Some(st) => Some((st.hash@, st.size)),
                            None => None,
                        });
                        assert(diff_val(r_prev, k) == match r_prev[q2].change {
                            Some(st) => Some((st.hash@, st.size)),
                            None => None,
                        });
                    }
                }
            }
        }
        p += 1;
    }
    proof {
        assert(previous@.subrange(0, previous@.len() as int) =~= previous@);
    }
    r
}

/// True when some non-ignored scanned file carries the portable key `k`.
pub open spec fn spec_capture_has(files: Seq<ScannedFile>, k: Seq<char>) -> bool {
    exists|i: int|
        0 <= i < files.len() && !(#[trigger] files[i]).ignored && crate::path::portable_of(
            files[i].path.norm(),
        ) == k
}

/// Captures a scan's files as stored records: one per portable path, not
/// counting ignored files, each carrying that file's hash and size.
#[verifier::loop_isolation(false)]
pub fn scan_to_file_entries(files: &Vec<ScannedFile>) -> (r: Vec<EntryRecord>)
    ensures
        wf_entries(r@),
        forall|k: Seq<char>| #[trigger] entries_has(r@, k) == spec_capture_has(files@, k),
        forall|k: Seq<char>|
            #[trigger] entries_has(r@, k) ==> exists|i: int|
                0 <= i < files@.len() && !(#[trigger] files@[i]).ignored
                    && crate::path::portable_of(files@[i].path.norm()) == k && entries_val(r@, k)
                    == (files@[i].hash@, files@[i].size),
{
    let mut r: Vec<EntryRecord> = Vec::new();
    let mut i: usize = 0;
    while i < files.len()
        invariant
            i <= files@.len(),
            wf_entries(r@),
            forall|k: Seq<char>|
                #[trigger] entries_has(r@, k) == spec_capture_has(files@.subrange(0, i as int), k),
            forall|k: Seq<char>|
                #[trigger] entries_has(r@, k) ==> exists|q: int|
                    0 <= q < files@.len() && !(#[trigger] files@[q]).ignored
                        && crate::path::portable_of(files@[q].path.norm()) == k && entries_val(
                        r@,
                        k,
                    ) == (files@[q].hash@, files@[q].size),
        decreases files@.len() - i,
    {
        let ghost fpre = files@.subrange(0, i as int);
        let ghost fnxt = files@.subrange(0, i + 1);
        proof {
            assert(forall|j: int| 0 <= j < i ==> fnxt[j] == files@[j]);
            assert(fnxt[i as int] == files@[i as int]);
            assert forall|k: Seq<char>| #[trigger] spec_capture_has(fnxt, k) == (spec_capture_has(
                fpre,
                k,
            ) || (!files@[i as int].ignored && crate::path::portable_of(
                files@[i as int].path.norm(),
            ) == k)) by {
                if spec_capture_has(fnxt, k) {
                    let q = choose|q: int|
                        0 <= q < fnxt.len() && !(#[trigger] fnxt[q]).ignored
                            && crate::path::portable_of(fnxt[q].path.norm()) == k;
                    if q < i {
                        assert(!fpre[q].ignored && crate::path::portable_of(fpre[q].path.norm())
                            == k);
                        assert(spec_capture_has(fpre, k));
                    }
                }
                if spec_capture_has(fpre, k) {
                    let q = choose|q: int|
                        0 <= q < fpre.len() && !(#[trigger] fpre[q]).ignored
                            && crate::path::portable_of(fpre[q].path.norm()) == k;
                    assert(!fnxt[q].ignored && crate::path::portable_of(fnxt[q].path.norm()) == k);
                    assert(spec_capture_has(fnxt, k));
                }
                if !files@[i as int].ignored && crate::path::portable_of(
                    files@[i as int].path.norm(),
                ) == k {
                    assert(!fnxt[i as int].ignored && crate::path::portable_of(
                        fnxt[i as int].path.norm(),
                    ) == k);
                    assert(spec_capture_has(fnxt, k));
                }
            }
        }
        let f = &files[i];
        if !f.ignored {
            let key = f.path.to_portable();
            match find_entry(&r, &key) {
                Some(_) => {
                    proof {
                        assert(entries_has(r@, key@));
                    }
                },
                None => {
                    proof {
                        if entries_has(r@, key@) {
                            let q = choose|q: int|
                                0 <= q < r@.len() && (#[trigger] r@[q]).key@ == key@;
                            assert(false);
                        }
                    }
                    let ghost r_prev = r@;
                    r.push(EntryRecord { key, hash: f.hash.clone(), size: f.size });
                    proof {
                        let last = r@.len() - 1;
                        assert forall|k: Seq<char>| #[trigger] entries_has(r@, k) == (entries_has(
                            r_prev,
                            k,
                        ) || k == crate::path::portable_of(files@[i as int].path.norm())) by {
                            if entries_has(r@, k) {
                                let q = choose|q: int|
                                    0 <= q < r@.len() && (#[trigger] r@[q]).key@ == k;
                                if q < last {
                                    assert(r_prev[q].key@ == k);
                                    assert(entries_has(r_prev, k));
                                }
                            }
                            if entries_has(r_prev, k) {
                                let q = choose|q: int|
                                    0 <= q < r_prev.len() && (#[trigger] r_prev[q]).key@ == k;
                                assert(r@[q].key@ == k);
                                assert(entries_has(r@, k));
                            }
                            if k == crate::path::portable_of(files@[i as int].path.norm()) {
                                assert(r@[last].key@ == k);
                                assert(entries_has(r@, k));
                            }
                        }
                        assert forall|k: Seq<char>|
                            #[trigger] entries_has(r@, k) implies exists|q: int|
                                0 <= q < files@.len() && !(#[trigger] files@[q]).ignored
                                    && crate::path::portable_of(files@[q].path.norm()) == k
                                    && entries_val(r@, k) == (files@[q].hash@, files@[q].size) by {
                            let w = choose|w: int| 0 <= w < r@.len() && (#[trigger] r@[w]).key@ == k;
                            if w < last {
                                assert(r_prev[w].key@ == k);
                                assert(entries_has(r_prev, k));
                                let q = choose|q: int|
                                    0 <= q < files@.len() && !(#[trigger] files@[q]).ignored
                                        && crate::path::portable_of(files@[q].path.norm()) == k
                                        && entries_val(r_prev, k) == (files@[q].hash@,
                                    files@[q].size);
                                let w2 = choose|w2: int|
                                    0 <= w2 < r@.len() && (#[trigger] r@[w2]).key@ == k;
                                assert(w2 == w) by {
                                    if w2 != w {
                                        assert(r@[w2].key@ == r@[w].key@);
                                    }
                                }
                                let w3 = choose|w3: int|
                                    0 <= w3 < r_prev.len() && (#[trigger] r_prev[w3]).key@ == k;
                                assert(w3 == w) by {
                                    if w3 != w {
                                        assert(r_prev[w3].key@ == r_prev[w].key@);
                                    }
                                }
                                assert(entries_val(r@, k) == (r@[w].hash@, r@[w].size));
                                assert(entries_val(r_prev, k) == (r_prev[w].hash@, r_prev[w].size));
                                assert(!files@[q].ignored && crate::path::portable_of(
                                    files@[q].path.norm(),
                                ) == k && entries_val(r@, k) == (files@[q].hash@, files@[q].size));
                            } else {
                                assert(k == r@[last].key@);
                                let w2 = choose|w2: int|
                                    0 <= w2 < r@.len() && (#[trigger] r@[w2]).key@ == k;
                                assert(w2 == w) by {
                                    if w2 != w {
                                        assert(r@[w2].key@ == r@[w].key@);
                                    }
                                }
                                assert(entries_val(r@, k) == (files@[i as int].hash@,
                                files@[i as int].size));
                                assert(!files@[i as int].ignored && crate::path::portable_of(
                                    files@[i as int].path.norm(),
                                ) == k && entries_val(r@, k) == (files@[i as int].hash@,
                                files@[i as int].size));
                            }
                        }
                    }
                },
            }
        }
        i += 1;
    }
    proof {
        assert(files@.subrange(0, files@.len() as int) =~= files@);
    }
    r
}

/// True when some non-ignored scanned registry key carries path `k`.
pub open spec fn spec_reg_capture_has(regs: Seq<ScannedRegistry>, k: Seq<char>) -> bool {
    exists|i: int|
        0 <= i < regs.len() && !(#[trigger] regs[i]).ignored && regs[i].path.raw@ == k
}

/// Captures a scan's registry keys as stored records: one per key path, not
/// counting ignored keys, each carrying the exported content.
#[verifier::loop_isolation(false)]
pub fn scan_to_registry_entries(regs: &Vec<ScannedRegistry>) -> (r: Vec<EntryRecord>)
    ensures
        wf_entries(r@),
        forall|k: Seq<char>| #[trigger] entries_has(r@, k) == spec_reg_capture_has(regs@, k),
        forall|k: Seq<char>|
            #[trigger] entries_has(r@, k) ==> exists|i: int|
                0 <= i < regs@.len() && !(#[trigger] regs@[i]).ignored && regs@[i].path.raw@ == k
                    && entries_val(r@, k) == (regs@[i].content@, 0u64),
{
    let mut r: Vec<EntryRecord> = Vec::new();
    let mut i: usize = 0;
    while i < regs.len()
        invariant
            i <= regs@.len(),
            wf_entries(r@),
            forall|k: Seq<char>|
                #[trigger] entries_has(r@, k) == spec_reg_capture_has(
                    regs@.subrange(0, i as int),
                    k,
                ),
            forall|k: Seq<char>|
                #[trigger] entries_has(r@, k) ==> exists|q: int|
                    0 <= q < regs@.len() && !(#[trigger] regs@[q]).ignored && regs@[q].path.raw@
                        == k && entries_val(r@, k) == (regs@[q].content@, 0u64),
        decreases regs@.len() - i,
    {
        let ghost fpre = regs@.subrange(0, i as int);
        let ghost fnxt = regs@.subrange(0, i + 1);
        proof {
            assert(forall|j: int| 0 <= j < i ==> fnxt[j] == regs@[j]);
            assert(fnxt[i as int] == regs@[i as int]);
            assert forall|k: Seq<char>| #[trigger] spec_reg_capture_has(fnxt, k) == (
            spec_reg_capture_has(fpre, k) || (!regs@[i as int].ignored && regs@[i as int].path.raw@
                == k)) by {
                if spec_reg_capture_has(fnxt, k) {
                    let q = choose|q: int|
                        0 <= q < fnxt.len() && !(#[trigger] fnxt[q]).ignored && fnxt[q].path.raw@
                            == k;
                    if q < i {
                        assert(!fpre[q].ignored && fpre[q].path.raw@ == k);
                        assert(spec_reg_capture_has(fpre, k));
                    }
                }
                if spec_reg_capture_has(fpre, k) {
                    let q = choose|q: int|
                        0 <= q < fpre.len() && !(#[trigger] fpre[q]).ignored && fpre[q].path.raw@
                            == k;
                    assert(!fnxt[q].ignored && fnxt[q].path.raw@ == k);
                    assert(spec_reg_capture_has(fnxt, k));
                }
                if !regs@[i as int].ignored && regs@[i as int].path.raw@ == k {
                    assert(!fnxt[i as int].ignored && fnxt[i as int].path.raw@ == k);
                    assert(spec_reg_capture_has(fnxt, k));
                }
            }
        }
        let e = &regs[i];
        if !e.ignored {
            let key = e.path.render();
            match find_entry(&r, &key) {
                Some(_) => {
                    proof {
                        assert(entries_has(r@, key@));
                    }
                },
                None => {
                    proof {
                        if entries_has(r@, key@) {
                            let q = choose|q: int|
                                0 <= q < r@.len() && (#[trigger] r@[q]).key@ == key@;
                            assert(false);
                        }
                    }
                    let ghost r_prev = r@;
                    r.push(EntryRecord { key, hash: e.content.clone(), size: 0 });
                    proof {
                        let last = r@.len() - 1;
                        assert forall|k: Seq<char>| #[trigger] entries_has(r@, k) == (entries_has(
                            r_prev,
                            k,
                        ) || k == regs@[i as int].path.raw@) by {
                            if entries_has(r@, k) {
                                let q = choose|q: int|
                                    0 <= q < r@.len() && (#[trigger] r@[q]).key@ == k;
                                if q < last {
                                    assert(r_prev[q].key@ == k);
                                    assert(entries_has(r_prev, k));
                                }
                            }
                            if entries_has(r_prev, k) {
                                let q = choose|q: int|
                                    0 <= q < r_prev.len() && (#[trigger] r_prev[q]).key@ == k;
                                assert(r@[q].key@ == k);
                                assert(entries_has(r@, k));
                            }
                            if k == regs@[i as int].path.raw@ {
                                assert(r@[last].key@ == k);
                                assert(entries_has(r@, k));
                            }
                        }
                        assert forall|k: Seq<char>|
                            #[trigger] entries_has(r@, k) implies exists|q: int|
                                0 <= q < regs@.len() && !(#[trigger] regs@[q]).ignored && regs@[
                                q].path.raw@ == k && entries_val(r@, k) == (regs@[q].content@,
                                0u64) by {
                            let w = choose|w: int| 0 <= w < r@.len() && (#[trigger] r@[w]).key@ == k;
                            let w2 = choose|w2: int|
                                0 <= w2 < r@.len() && (#[trigger] r@[w2]).key@ == k;
                            assert(w2 == w) by {
                                if w2 != w {
                                    assert(r@[w2].key@ == r@[w].key@);
                                }
                            }
                            if w < last {
                                assert(r_prev[w].key@ == k);
                                assert(entries_has(r_prev, k));
                                let q = choose|q: int|
                                    0 <= q < regs@.len() && !(#[trigger] regs@[q]).ignored
                                        && regs@[q].path.raw@ == k && entries_val(r_prev, k) == (
                                    regs@[q].content@, 0u64);
                                let w3 = choose|w3: int|
                                    0 <= w3 < r_prev.len() && (#[trigger] r_prev[w3]).key@ == k;
                                assert(w3 == w) by {
                                    if w3 != w {
                                        assert(r_prev[w3].key@ == r_prev[w].key@);
                                    }
                                }
                                assert(entries_val(r@, k) == (r@[w].hash@, r@[w].size));
                                assert(entries_val(r_prev, k) == (r_prev[w].hash@, r_prev[w].size));
                                assert(!regs@[q].ignored && regs@[q].path.raw@ == k && entries_val(
                                    r@,
                                    k,
                                ) == (regs@[q].content@, 0u64));
                            } else {
                                assert(k == r@[last].key@);
                                assert(entries_val(r@, k) == (regs@[i as int].content@, 0u64));
                                assert(!regs@[i as int].ignored && regs@[i as int].path.raw@ == k
                                    && entries_val(r@, k) == (regs@[i as int].content@, 0u64));
                            }
                        }
                    }
                },
            }
        }
        i += 1;
    }
    proof {
        assert(regs@.subrange(0, regs@.len() as int) =~= regs@);
    }
    r
}

/// The generated name of a backup taken at epoch second `now`.
pub open spec fn spec_backup_name(now: nat) -> Seq<char> {
    "backup-"@ + spec_dec_digits(now)
}

/// Builds the name of a backup taken at epoch second `now`.
pub fn backup_name(now: u64) -> (r: String)
    ensures
        r@ == spec_backup_name(now as nat),
{
    let mut chars = str_to_chars("backup-");
    let digits = u64_to_dec_chars(now);
    append_chars(&mut chars, &digits);
    chars_to_string(&chars)
}

/// Copies a diff record list.
#[verifier::loop_isolation(false)]
fn clone_diffs(v: &Vec<DiffEntryRecord>) -> (r: Vec<DiffEntryRecord>)
    ensures
        r@ == v@,
{
    let mut r: Vec<DiffEntryRecord> = Vec::new();
    let mut i: usize = 0;
    while i < v.len()
        invariant
            i <= v@.len(),
            r@.len() == i,
            forall|j: int| 0 <= j < i ==> r@[j] == v@[j],
        decreases v@.len() - i,
    {
        let change = match &v[i].change {
            Some(st) => Some(EntryState { hash: st.hash.clone(), size: st.size }),
            None => None,
        };
        r.push(DiffEntryRecord { key: v[i].key.clone(), change });
        i += 1;
    }
    assert(r@ =~= v@);
    r
}

/// What one backup operation decided and captured. The captured file and
/// registry state is in `files` and `registry`; for a differential backup,
/// `diff_files` and `diff_registry` are the recorded changes.
#[derive(Clone, Debug, PartialEq, Eq)]
pub struct BackupPlan {
    pub kind: BackupKind,
    pub name: String,
    pub files: Vec<EntryRecord>,
    pub registry: Vec<EntryRecord>,
    pub diff_files: Vec<DiffEntryRecord>,
    pub diff_registry: Vec<DiffEntryRecord>,
}

impl GameLayout {
    /// Well-formed: every generation's captured lists and diffs carry
    /// unique keys.
    pub open spec fn wf(&self) -> bool {
        &&& forall|i: int|
            0 <= i < self.chain@.len() ==> wf_entries((#[trigger] self.chain@[i]).files@)
                && wf_entries(self.chain@[i].registry@)
        &&& forall|i: int, j: int|
            #![trigger self.chain@[i].children@[j]]
            0 <= i < self.chain@.len() && 0 <= j < self.chain@[i].children@.len() ==> wf_diff(
                self.chain@[i].children@[j].files@,
            ) && wf_diff(self.chain@[i].children@[j].registry@)
    }

    pub fn new(name: String) -> (r: Self)
        ensures
            r.wf(),
            r.name@ == name@,
            r.chain@.len() == 0,
    {
        GameLayout { name, chain: Vec::new() }
    }

    /// Stores one new generation of this subject and applies retention.
    ///
    /// The new generation is full when no chain exists yet or when no
    /// differential backups are retained at all; otherwise it is
    /// differential, recording exactly the keys whose state differs from
    /// the chain's effective state — including deletion markers — as
    /// `compute_diff` describes. Retention then keeps the newest
    /// `retention.full` full backups and, within the current chain, the
    /// newest `retention.differential` differential backups; a full backup
    /// that retained differential backups depend on is never pruned,
    /// because its children are pruned with it as one unit.
    #[verifier::loop_isolation(false)]
    pub fn back_up(&mut self, scan: &ScanInfo, retention: &Retention, now: u64) -> (plan:
        BackupPlan)
        requires
            old(self).wf(),
            retention.full >= 1,
        ensures
            final(self).wf(),
            final(self).name@ == old(self).name@,
            plan.name@ == spec_backup_name(now as nat),
            // what was captured from the scan
            wf_entries(plan.files@),
            forall|k: Seq<char>|
                #[trigger] entries_has(plan.files@, k) == spec_capture_has(scan.found_files@, k),
            forall|k: Seq<char>|
                #[trigger] entries_has(plan.files@, k) ==> exists|i: int|
                    0 <= i < scan.found_files@.len() && !(#[trigger] scan.found_files@[i]).ignored
                        && crate::path::portable_of(scan.found_files@[i].path.norm()) == k
                        && entries_val(plan.files@, k) == (scan.found_files@[i].hash@,
                    scan.found_files@[i].size),
            wf_entries(plan.registry@),
            forall|k: Seq<char>|
                #[trigger] entries_has(plan.registry@, k) == spec_reg_capture_has(
                    scan.found_registry_keys@,
                    k,
                ),
            // the decision between a fresh chain and a differential step
            plan.kind == (if old(self).chain@.len() == 0 || retention.differential == 0 {
                BackupKind::Full
            } else {
                BackupKind::Differential
            }),
            // a full backup starts a new chain and prunes the oldest ones
            plan.kind == BackupKind::Full ==> ({
                let olen = old(self).chain@.len() as int;
                let kept = if olen + 1 <= retention.full as int {
                    olen + 1
                } else {
                    retention.full as int
                };
                let shift = olen + 1 - kept;
                &&& final(self).chain@.len() == kept
                &&& forall|i: int|
                    0 <= i < kept - 1 ==> final(self).chain@[i] == old(self).chain@[shift + i]
                &&& final(self).chain@.last().name@ == plan.name@
                &&& final(self).chain@.last().when == now
                &&& final(self).chain@.last().comment is None
                &&& final(self).chain@.last().children@.len() == 0
                &&& final(self).chain@.last().files@ == plan.files@
                &&& final(self).chain@.last().registry@ == plan.registry@
            }),
            // a differential backup extends the current chain and prunes
            // its oldest differential generations
            plan.kind == BackupKind::Differential ==> ({
                let olen = old(self).chain@.len() as int;
                let of = old(self).chain@.last();
                let ocl = of.children@.len() as int;
                let kept_c = if ocl + 1 <= retention.differential as int {
                    ocl + 1
                } else {
                    retention.differential as int
                };
                let shift_c = ocl + 1 - kept_c;
                &&& final(self).chain@.len() == olen
                &&& forall|i: int| 0 <= i < olen - 1 ==> final(self).chain@[i] == old(self).chain@[i]
                &&& final(self).chain@.last().name@ == of.name@
                &&& final(self).chain@.last().when == of.when
                &&& final(self).chain@.last().files@ == of.files@
                &&& final(self).chain@.last().registry@ == of.registry@
                &&& final(self).chain@.last().children@.len() == kept_c
                &&& forall|j: int|
                    0 <= j < kept_c - 1 ==> final(self).chain@.last().children@[j] == of.children@[
                    shift_c + j]
                &&& final(self).chain@.last().children@.last().name@ == plan.name@
                &&& final(self).chain@.last().children@.last().when == now
                &&& final(self).chain@.last().children@.last().files@ == plan.diff_files@
                &&& final(self).chain@.last().children@.last().registry@ == plan.diff_registry@
            }),
            // what the differential records: exactly the changed keys,
            // with deletion markers, relative to the chain's effective state
            plan.kind == BackupKind::Differential ==> ({
                let of = old(self).chain@.last();
                let ocl = of.children@.len() as int;
                &&& wf_diff(plan.diff_files@)
                &&& forall|k: Seq<char>|
                    #[trigger] diff_has(plan.diff_files@, k) == ((entries_has(plan.files@, k) && (
                    spec_chain_lookup(of.files@, of.children@, ocl, false, k) is None
                        || spec_chain_lookup(of.files@, of.children@, ocl, false, k) != Some(
                        entries_val(plan.files@, k),
                    ))) || (spec_chain_lookup(of.files@, of.children@, ocl, false, k) is Some
                        && !entries_has(plan.files@, k)))
                &&& forall|k: Seq<char>|
                    diff_has(plan.diff_files@, k) && entries_has(plan.files@, k)
                        ==> #[trigger] diff_val(plan.diff_files@, k) == Some(entries_val(
                        plan.files@,
                        k,
                    ))
                &&& forall|k: Seq<char>|
                    diff_has(plan.diff_files@, k) && !entries_has(plan.files@, k)
                        ==> #[trigger] diff_val(plan.diff_files@, k) is None
                &&& wf_diff(plan.diff_registry@)
                &&& forall|k: Seq<char>|
                    #[trigger] diff_has(plan.diff_registry@, k) == ((entries_has(plan.registry@, k)
                        && (spec_chain_lookup(of.registry@, of.children@, ocl, true, k) is None
                        || spec_chain_lookup(of.registry@, of.children@, ocl, true, k) != Some(
                        entries_val(plan.registry@, k),
                    ))) || (spec_chain_lookup(of.registry@, of.children@, ocl, true, k) is Some
                        && !entries_has(plan.registry@, k)))
            }),
    {
        let files_cap = scan_to_file_entries(&scan.found_files);
        let reg_cap = scan_to_registry_entries(&scan.found_registry_keys);
        let name = backup_name(now);
        if self.chain.len() == 0 || retention.differential == 0 {
            let plan_files = clone_entries(&files_cap);
            let plan_reg = clone_entries(&reg_cap);
            self.chain.push(FullBackupRecord {
                name: name.clone(),
                when: now,
                comment: None,
                files: files_cap,
                registry: reg_cap,
                children: Vec::new(),
            });
            let ghost pushed = self.chain@;
            while self.chain.len() > retention.full as usize
                invariant
                    1 <= self.chain@.len() <= pushed.len(),
                    self.chain@.len() >= retention.full as int || self.chain@.len()
                        == pushed.len(),
                    self.chain@ == pushed.skip(pushed.len() - self.chain@.len()),
                    self.name@ == old(self).name@,
                decreases self.chain@.len(),
            {
                let ghost before = self.chain@;
                self.chain.remove(0);
                proof {
                    assert(self.chain@ =~= before.skip(1));
                    assert(before.skip(1) =~= pushed.skip(pushed.len() - before.len() + 1));
                }
            }
            proof {
                let d = pushed.len() - self.chain@.len();
                assert(forall|i: int|
                    0 <= i < self.chain@.len() ==> self.chain@[i] == pushed[d + i]);
                assert(self.chain@.last() == pushed.last());
            }
            BackupPlan {
                kind: BackupKind::Full,
                name,
                files: plan_files,
                registry: plan_reg,
                diff_files: Vec::new(),
                diff_registry: Vec::new(),
            }
        } else {
            let li = self.chain.len() - 1;
            let mut lastf = self.chain.remove(li);
            let ghost of = old(self).chain@.last();
            proof {
                assert(lastf == of);
                assert(self.chain@ =~= old(self).chain@.subrange(0, li as int));
            }
            let cl = lastf.children.len();
            let prev_files = effective_entries(&lastf.files, &lastf.children, cl, false);
            let prev_reg = effective_entries(&lastf.registry, &lastf.children, cl, true);
            let diff_files = compute_diff(&files_cap, &prev_files);
            let diff_reg = compute_diff(&reg_cap, &prev_reg);
            let plan_files = clone_entries(&files_cap);
            let plan_reg = clone_entries(&reg_cap);
            let plan_diff_files = clone_diffs(&diff_files);
            let plan_diff_reg = clone_diffs(&diff_reg);
            lastf.children.push(DiffBackupRecord {
                name: name.clone(),
                when: now,
                comment: None,
                files: diff_files,
                registry: diff_reg,
            });
            let ghost pushed_c = lastf.children@;
            while lastf.children.len() > retention.differential as usize
                invariant
                    1 <= lastf.children@.len() <= pushed_c.len(),
                    lastf.children@.len() >= retention.differential as int || lastf.children@.len()
                        == pushed_c.len(),
                    lastf.children@ == pushed_c.skip(pushed_c.len() - lastf.children@.len()),
                    lastf.name == of.name,
                    lastf.when == of.when,
                    lastf.comment == of.comment,
                    lastf.files == of.files,
                    lastf.registry == of.registry,
                decreases lastf.children@.len(),
            {
                let ghost before = lastf.children@;
                lastf.children.remove(0);
                proof {
                    assert(lastf.children@ =~= before.skip(1));
                    assert(before.skip(1) =~= pushed_c.skip(pushed_c.len() - before.len() + 1));
                }
            }
            proof {
                let d = pushed_c.len() - lastf.children@.len();
                assert(forall|j: int|
                    0 <= j < lastf.children@.len() ==> lastf.children@[j] == pushed_c[d + j]);
                assert(lastf.children@.last() == pushed_c.last());
            }
            self.chain.push(lastf);
            proof {
                assert(final(self).chain@.len() == old(self).chain@.len());
                assert(forall|i: int|
                    0 <= i < old(self).chain@.len() - 1 ==> final(self).chain@[i] == old(
                    self).chain@[i]);
            }
            BackupPlan {
                kind: BackupKind::Differential,
                name,
                files: plan_files,
                registry: plan_reg,
                diff_files: plan_diff_files,
                diff_registry: plan_diff_reg,
            }
        }
    }
}

/// How many generations a chain stores in total.
pub open spec fn spec_gen_count(chain: Seq<FullBackupRecord>) -> nat
    decreases chain.len(),
{
    if chain.len() == 0 {
        0
    } else {
        spec_gen_count(chain.drop_last()) + 1 + chain.last().children@.len()
    }
}

/// The position of the generation `(fi, upto)` in the flat, chain-ordered
/// listing: every generation of the earlier fulls, then the full `fi`
/// itself, then `upto` of its children.
pub open spec fn spec_gen_index(chain: Seq<FullBackupRecord>, fi: int, upto: int) -> int {
    spec_gen_count(chain.subrange(0, fi)) as int + upto
}

/// Unfolds the generation count over one more full backup.
pub proof fn lemma_gen_count_step(chain: Seq<FullBackupRecord>, f: int)
    requires
        0 <= f < chain.len(),
    ensures
        spec_gen_count(chain.subrange(0, f + 1)) == spec_gen_count(chain.subrange(0, f)) + 1
            + chain[f].children@.len(),
{
    assert(chain.subrange(0, f + 1).drop_last() =~= chain.subrange(0, f));
    assert(chain.subrange(0, f + 1).last() == chain[f]);
}

/// The generation count grows along the chain.
pub proof fn lemma_gen_count_mono(chain: Seq<FullBackupRecord>, a: int, b: int)
    requires
        0 <= a <= b <= chain.len(),
    ensures
        spec_gen_count(chain.subrange(0, a)) <= spec_gen_count(chain.subrange(0, b)),
    decreases b - a,
{
    if a < b {
        lemma_gen_count_step(chain, b - 1);
        lemma_gen_count_mono(chain, a, b - 1);
    }
}

/// True when the flat listing `r` shows the generation `(fi, upto)` at its
/// chain-ordered position, with that generation's name, timestamp, and kind.
pub open spec fn spec_listed_gen(
    chain: Seq<FullBackupRecord>,
    r: Seq<Backup>,
    fi: int,
    upto: int,
) -> bool {
    &&& 0 <= spec_gen_index(chain, fi, upto) < r.len()
    &&& r[spec_gen_index(chain, fi, upto)].name@ == spec_gen_name(chain, fi, upto)
    &&& (upto == 0 ==> r[spec_gen_index(chain, fi, upto)].when == chain[fi].when && r[
    spec_gen_index(chain, fi, upto)].kind == BackupKind::Full)
    &&& (upto > 0 ==> r[spec_gen_index(chain, fi, upto)].when == chain[fi].children@[upto - 1].when
        && r[spec_gen_index(chain, fi, upto)].kind == BackupKind::Differential)
}

/// True when position `(fi, upto)` is a generation of the chain: the full
/// backup `fi` itself for `upto == 0`, or its differential child
/// `upto - 1`.
pub open spec fn spec_gen_at(chain: Seq<FullBackupRecord>, fi: int, upto: int) -> bool {
    0 <= fi < chain.len() && 0 <= upto <= chain[fi].children@.len()
}

/// The name of the generation at `(fi, upto)`.
pub open spec fn spec_gen_name(chain: Seq<FullBackupRecord>, fi: int, upto: int) -> Seq<char> {
    if upto == 0 {
        chain[fi].name@
    } else {
        chain[fi].children@[upto - 1].name@
    }
}

/// True when the identifier resolves to position `(fi, upto)`: `Latest`
/// names the newest generation, and a name names its generation.
pub open spec fn spec_resolves_to(
    chain: Seq<FullBackupRecord>,
    id: BackupId,
    fi: int,
    upto: int,
) -> bool {
    match id {
        BackupId::Latest => chain.len() > 0 && fi == chain.len() - 1 && upto == chain.last(
        ).children@.len(),
        BackupId::Named(n) => spec_gen_at(chain, fi, upto) && spec_gen_name(chain, fi, upto) == n@,
    }
}

/// True when some generation carries this name.
pub open spec fn spec_named_exists(chain: Seq<FullBackupRecord>, n: Seq<char>) -> bool {
    exists|fi: int, upto: int|
        spec_gen_at(chain, fi, upto) && #[trigger] spec_gen_name(chain, fi, upto) == n
}

impl GameLayout {
    /// Resolves a backup identifier against this chain.
    #[verifier::loop_isolation(false)]
    pub fn resolve(&self, id: &BackupId) -> (r: Option<(usize, usize)>)
        ensures
            r matches Some(p) ==> spec_resolves_to(self.chain@, *id, p.0 as int, p.1 as int),
            r is None ==> match id {
                BackupId::Latest => self.chain@.len() == 0,
                BackupId::Named(n) => !spec_named_exists(self.chain@, n@),
            },
    {
        match id {
            BackupId::Latest => {
                if self.chain.len() == 0 {
                    None
                } else {
                    let fi = self.chain.len() - 1;
                    Some((fi, self.chain[fi].children.len()))
                }
            },
            BackupId::Named(n) => {
                let mut fi: usize = 0;
                while fi < self.chain.len()
                    invariant
                        fi <= self.chain@.len(),
                        forall|f2: int, u2: int|
                            spec_gen_at(self.chain@, f2, u2) && f2 < fi
                                ==> #[trigger] spec_gen_name(self.chain@, f2, u2) != n@,
                    decreases self.chain@.len() - fi,
                {
                    if str_eq(self.chain[fi].name.as_str(), n.as_str()) {
                        proof {
                            assert(spec_gen_name(self.chain@, fi as int, 0) == n@);
                        }
                        return Some((fi, 0));
                    }
                    let mut j: usize = 0;
                    let cl = self.chain[fi].children.len();
                    while j < cl
                        invariant
                            j <= cl,
                            cl == self.chain@[fi as int].children@.len(),
                            fi < self.chain@.len(),
                            self.chain@[fi as int].name@ != n@,
                            forall|u2: int|
                                1 <= u2 <= j ==> #[trigger] spec_gen_name(
                                    self.chain@,
                                    fi as int,
                                    u2,
                                ) != n@,
                        decreases cl - j,
                    {
                        if str_eq(self.chain[fi].children[j].name.as_str(), n.as_str()) {
                            proof {
                                assert(spec_gen_name(self.chain@, fi as int, j + 1) == n@);
                            }
                            return Some((fi, j + 1));
                        }
                        proof {
                            assert(spec_gen_name(self.chain@, fi as int, j + 1)
                                == self.chain@[fi as int].children@[j as int].name@);
                        }
                        j += 1;
                    }
                    proof {
                        assert forall|u2: int|
                            0 <= u2 <= self.chain@[fi as int].children@.len() implies #[trigger] spec_gen_name(
                            self.chain@,
                            fi as int,
                            u2,
                        ) != n@ by {
                            if u2 == 0 {
                            } else {
                                assert(1 <= u2 <= cl);
                            }
                        }
                    }
                    fi += 1;
                }
                proof {
                    if spec_named_exists(self.chain@, n@) {
                        let (f2, u2) = choose|f2: int, u2: int|
                            spec_gen_at(self.chain@, f2, u2) && #[trigger] spec_gen_name(
                                self.chain@,
                                f2,
                                u2,
                            ) == n@;
                        assert(false);
                    }
                }
                None
            },
        }
    }

    /// The listed form of the generation at `(fi, upto)`.
    pub fn backup_at(&self, fi: usize, upto: usize) -> (r: Backup)
        requires
            spec_gen_at(self.chain@, fi as int, upto as int),
        ensures
            r.name@ == spec_gen_name(self.chain@, fi as int, upto as int),
            upto == 0 ==> r.when == self.chain@[fi as int].when && r.kind == BackupKind::Full,
            upto > 0 ==> r.when == self.chain@[fi as int].children@[upto - 1].when && r.kind
                == BackupKind::Differential,
    {
        if upto == 0 {
            Backup {
                name: self.chain[fi].name.clone(),
                when: self.chain[fi].when,
                comment: match &self.chain[fi].comment {
                    Some(c) => Some(c.clone()),
                    None => None,
                },
                kind: BackupKind::Full,
            }
        } else {
            Backup {
                name: self.chain[fi].children[upto - 1].name.clone(),
                when: self.chain[fi].children[upto - 1].when,
                comment: match &self.chain[fi].children[upto - 1].comment {
                    Some(c) => Some(c.clone()),
                    None => None,
                },
                kind: BackupKind::Differential,
            }
        }
    }

    /// Every stored generation, in chain order.
    #[verifier::loop_isolation(false)]
    pub fn backups(&self) -> (r: Vec<Backup>)
        ensures
            r@.len() == spec_gen_count(self.chain@),
            forall|fi: int, upto: int|
                #[trigger] spec_gen_at(self.chain@, fi, upto) ==> spec_listed_gen(
                    self.chain@,
                    r@,
                    fi,
                    upto,
                ),
    {
        let mut r: Vec<Backup> = Vec::new();
        let mut fi: usize = 0;
        assert(self.chain@.subrange(0, 0).len() == 0);
        while fi < self.chain.len()
            invariant
                fi <= self.chain@.len(),
                r@.len() == spec_gen_count(self.chain@.subrange(0, fi as int)),
                forall|f2: int, u2: int|
                    #[trigger] spec_gen_at(self.chain@, f2, u2) && f2 < fi ==> spec_listed_gen(
                        self.chain@,
                        r@,
                        f2,
                        u2,
                    ),
            decreases self.chain@.len() - fi,
        {
            let ghost pre = self.chain@.subrange(0, fi as int);
            let ghost nxt = self.chain@.subrange(0, fi + 1);
            let ghost r_outer = r@;
            proof {
                assert(nxt.drop_last() =~= pre);
                assert(nxt.last() == self.chain@[fi as int]);
            }
            r.push(self.backup_at(fi, 0));
            proof {
                assert(spec_gen_index(self.chain@, fi as int, 0) == r@.len() - 1);
                assert(spec_listed_gen(self.chain@, r@, fi as int, 0));
                assert forall|f2: int, u2: int|
                    #[trigger] spec_gen_at(self.chain@, f2, u2) && f2 < fi implies spec_listed_gen(
                    self.chain@,
                    r@,
                    f2,
                    u2,
                ) by {
                    assert(spec_listed_gen(self.chain@, r_outer, f2, u2));
                    assert(r@[spec_gen_index(self.chain@, f2, u2)] == r_outer[spec_gen_index(
                        self.chain@,
                        f2,
                        u2,
                    )]);
                }
            }
            let mut j: usize = 0;
            let cl = self.chain[fi].children.len();
            while j < cl
                invariant
                    j <= cl,
                    cl == self.chain@[fi as int].children@.len(),
                    fi < self.chain@.len(),
                    r@.len() == spec_gen_count(self.chain@.subrange(0, fi as int)) + 1 + j,
                    forall|f2: int, u2: int|
                        #[trigger] spec_gen_at(self.chain@, f2, u2) && f2 < fi ==> spec_listed_gen(
                            self.chain@,
                            r@,
                            f2,
                            u2,
                        ),
                    forall|u2: int|
                        0 <= u2 <= j ==> #[trigger] spec_listed_gen(
                            self.chain@,
                            r@,
                            fi as int,
                            u2,
                        ),
                decreases cl - j,
            {
                let ghost r_prev = r@;
                r.push(self.backup_at(fi, j + 1));
                proof {
                    assert(spec_gen_index(self.chain@, fi as int, j + 1) == r@.len() - 1);
                    assert(spec_listed_gen(self.chain@, r@, fi as int, j + 1));
                    assert forall|u2: int|
                        0 <= u2 <= j implies #[trigger] spec_listed_gen(
                        self.chain@,
                        r@,
                        fi as int,
                        u2,
                    ) by {
                        assert(spec_listed_gen(self.chain@, r_prev, fi as int, u2));
                        assert(r@[spec_gen_index(self.chain@, fi as int, u2)] == r_prev[
                        spec_gen_index(self.chain@, fi as int, u2)]);
                    }
                    assert forall|f2: int, u2: int|
                        #[trigger] spec_gen_at(self.chain@, f2, u2) && f2 < fi
                        implies spec_listed_gen(self.chain@, r@, f2, u2) by {
                        assert(spec_listed_gen(self.chain@, r_prev, f2, u2));
                        assert(r@[spec_gen_index(self.chain@, f2, u2)] == r_prev[spec_gen_index(
                            self.chain@,
                            f2,
                            u2,
                        )]);
                    }
                }
                j += 1;
            }
            proof {
                lemma_gen_count_step(self.chain@, fi as int);
                assert forall|f2: int, u2: int|
                    #[trigger] spec_gen_at(self.chain@, f2, u2) && f2 < fi + 1
                    implies spec_listed_gen(self.chain@, r@, f2, u2) by {
                    if f2 < fi {
                        lemma_gen_count_mono(self.chain@, f2 + 1, fi as int);
                        lemma_gen_count_step(self.chain@, f2);
                    } else {
                        assert(f2 == fi);
                        assert(spec_listed_gen(self.chain@, r@, fi as int, u2));
                    }
                }
            }
            fi += 1;
        }
        proof {
            assert(self.chain@.subrange(0, self.chain@.len() as int) =~= self.chain@);
            assert forall|fi2: int, upto2: int|
                #[trigger] spec_gen_at(self.chain@, fi2, upto2) implies spec_listed_gen(
                self.chain@,
                r@,
                fi2,
                upto2,
            ) by {
                assert(fi2 < fi);
            }
        }
        r
    }

    /// The newest stored generation, if any.
    pub fn latest_backup(&self) -> (r: Option<Backup>)
        ensures
            (r is Some) == (self.chain@.len() > 0),
            r matches Some(b) ==> b.name@ == spec_gen_name(
                self.chain@,
                self.chain@.len() - 1,
                self.chain@.last().children@.len() as int,
            ),
    {
        match self.resolve(&BackupId::Latest) {
            Some((fi, upto)) => Some(self.backup_at(fi, upto)),
            None => None,
        }
    }
}

/// Chain overlay law: the effective state of the newest generation of a
/// chain with one full and two differential backups is the overlay of all
/// three in order — the second differential wins where it records a key,
/// then the first, then the full capture. In particular a key deleted by
/// the first differential and re-added by the second is present at the
/// newest generation, with the re-added state.
pub proof fn lemma_chain_overlay(full: FullBackupRecord, k: Seq<char>)
    requires
        full.children@.len() == 2,
    ensures
        spec_chain_lookup(full.files@, full.children@, 2, false, k) == (if diff_has(
            full.children@[1].files@,
            k,
        ) {
            diff_val(full.children@[1].files@, k)
        } else if diff_has(full.children@[0].files@, k) {
            diff_val(full.children@[0].files@, k)
        } else if entries_has(full.files@, k) {
            Some(entries_val(full.files@, k))
        } else {
            None
        }),
{
    assert(diff_of(full.children@[1], false) == full.children@[1].files@);
    assert(diff_of(full.children@[0], false) == full.children@[0].files@);
    assert(spec_chain_lookup(full.files@, full.children@, 1, false, k) == (if diff_has(
        full.children@[0].files@,
        k,
    ) {
        diff_val(full.children@[0].files@, k)
    } else {
        spec_chain_lookup(full.files@, full.children@, 0, false, k)
    }));
}

/// The re-add half of the overlay law, spelled out: deleting a key in the
/// first differential generation and re-adding it in the second leaves it
/// present at the newest generation, with the re-added state.
pub proof fn lemma_chain_overlay_readd(
    full: FullBackupRecord,
    k: Seq<char>,
    h: Seq<char>,
    s: u64,
)
    requires
        full.children@.len() == 2,
        diff_has(full.children@[0].files@, k),
        diff_val(full.children@[0].files@, k) is None,
        diff_has(full.children@[1].files@, k),
        diff_val(full.children@[1].files@, k) == Some((h, s)),
    ensures
        spec_chain_lookup(full.files@, full.children@, 2, false, k) == Some((h, s)),
{
    lemma_chain_overlay(full, k);
}

/// Presents reconstructed file records as scan results: one scanned file
/// per record, at the concrete path the portable key maps back to,
/// carrying the stored hash and size.
#[verifier::loop_isolation(false)]
pub fn as_scanned_files(eff: &Vec<EntryRecord>) -> (r: Vec<ScannedFile>)
    ensures
        r@.len() == eff@.len(),
        forall|j: int|
            0 <= j < eff@.len() ==> (#[trigger] r@[j]).path.raw@ == unportable_of(eff@[j].key@)
                && r@[j].hash@ == eff@[j].hash@ && r@[j].size == eff@[j].size && !r@[j].ignored
                && r@[j].original_path is None,
{
    let mut found_files: Vec<ScannedFile> = Vec::new();
    let mut i: usize = 0;
    while i < eff.len()
        invariant
            i <= eff@.len(),
            found_files@.len() == i,
            forall|j: int|
                0 <= j < i ==> (#[trigger] found_files@[j]).path.raw@ == unportable_of(
                    eff@[j].key@,
                ) && found_files@[j].hash@ == eff@[j].hash@ && found_files@[j].size == eff@[j].size
                    && !found_files@[j].ignored && found_files@[j].original_path is None,
        decreases eff@.len() - i,
    {
        let target = from_portable(eff[i].key.as_str());
        found_files.push(ScannedFile {
            path: target,
            size: eff[i].size,
            hash: eff[i].hash.clone(),
            original_path: None,
            ignored: false,
            container: None,
        });
        i += 1;
    }
    found_files
}

/// Presents reconstructed registry records as scan results carrying the
/// stored content.
#[verifier::loop_isolation(false)]
pub fn as_scanned_registry(eff: &Vec<EntryRecord>) -> (r: Vec<ScannedRegistry>)
    ensures
        r@.len() == eff@.len(),
        forall|j: int|
            0 <= j < eff@.len() ==> (#[trigger] r@[j]).path.raw@ == eff@[j].key@ && r@[j].content@
                == eff@[j].hash@ && !r@[j].ignored,
{
    let mut found: Vec<ScannedRegistry> = Vec::new();
    let mut q: usize = 0;
    while q < eff.len()
        invariant
            q <= eff@.len(),
            found@.len() == q,
            forall|j: int|
                0 <= j < q ==> (#[trigger] found@[j]).path.raw@ == eff@[j].key@ && found@[
                j].content@ == eff@[j].hash@ && !found@[j].ignored,
        decreases eff@.len() - q,
    {
        found.push(ScannedRegistry {
            path: RegistryItem::new(eff[q].key.clone()),
            content: eff[q].hash.clone(),
            ignored: false,
        });
        q += 1;
    }
    found
}

/// True when some scanned file carries the state `v` at the concrete path
/// the portable key `k` maps back to.
pub open spec fn spec_files_have_key(
    files: Seq<ScannedFile>,
    k: Seq<char>,
    v: (Seq<char>, u64),
) -> bool {
    exists|j: int|
        0 <= j < files.len() && (#[trigger] files[j]).path.raw@ == unportable_of(k) && files[
        j].hash@ == v.0 && files[j].size == v.1
}

/// True when a scanned file shows the effective state of some key of the
/// generation at `(fi, upto)`.
pub open spec fn spec_file_from_key(
    chain: Seq<FullBackupRecord>,
    fi: int,
    upto: int,
    f: ScannedFile,
) -> bool {
    exists|k: Seq<char>|
        (#[trigger] spec_chain_lookup(chain[fi].files@, chain[fi].children@, upto, false, k))
            == Some((f.hash@, f.size)) && f.path.raw@ == unportable_of(k)
}

/// The found files of a restoration scan correspond exactly to the
/// effective file state of the generation at `(fi, upto)`: every found file
/// shows one key's stored hash and size at that key's concrete path, and
/// every key of the effective state appears among the found files.
pub open spec fn spec_restored_files_match(
    chain: Seq<FullBackupRecord>,
    fi: int,
    upto: int,
    files: Seq<ScannedFile>,
) -> bool {
    &&& forall|j: int|
        0 <= j < files.len() ==> spec_file_from_key(chain, fi, upto, #[trigger] files[j])
            && !files[j].ignored
    &&& forall|k: Seq<char>|
        (#[trigger] spec_chain_lookup(chain[fi].files@, chain[fi].children@, upto, false, k))
            is Some ==> spec_files_have_key(
            files,
            k,
            spec_chain_lookup(chain[fi].files@, chain[fi].children@, upto, false, k)->0,
        )
}

/// True when some scanned registry key has path `k`.
pub open spec fn spec_regs_have(regs: Seq<ScannedRegistry>, k: Seq<char>) -> bool {
    exists|j: int| 0 <= j < regs.len() && (#[trigger] regs[j]).path.raw@ == k
}

/// The found registry keys of a restoration scan correspond exactly to the
/// effective registry state of the generation at `(fi, upto)`.
pub open spec fn spec_restored_registry_match(
    chain: Seq<FullBackupRecord>,
    fi: int,
    upto: int,
    regs: Seq<ScannedRegistry>,
) -> bool {
    &&& forall|j: int|
        0 <= j < regs.len() ==> spec_chain_lookup(
            chain[fi].registry@,
            chain[fi].children@,
            upto,
            true,
            (#[trigger] regs[j]).path.raw@,
        ) is Some && (spec_chain_lookup(
            chain[fi].registry@,
            chain[fi].children@,
            upto,
            true,
            regs[j].path.raw@,
        )->0).0 == regs[j].content@ && !regs[j].ignored
    &&& forall|k: Seq<char>|
        (#[trigger] spec_chain_lookup(chain[fi].registry@, chain[fi].children@, upto, true, k))
            is Some ==> spec_regs_have(regs, k)
}

/// The per-key facts of `effective_entries`, carried through the
/// `as_scanned_files` presentation, give the file correspondence.
proof fn lemma_restored_files_match(
    chain: Seq<FullBackupRecord>,
    fi: int,
    upto: int,
    eff: Seq<EntryRecord>,
    files: Seq<ScannedFile>,
)
    requires
        0 <= fi < chain.len(),
        wf_entries(eff),
        forall|k: Seq<char>|
            #[trigger] entries_has(eff, k) == (spec_chain_lookup(
                chain[fi].files@,
                chain[fi].children@,
                upto,
                false,
                k,
            ) is Some),
        forall|k: Seq<char>|
            #[trigger] entries_has(eff, k) ==> spec_chain_lookup(
                chain[fi].files@,
                chain[fi].children@,
                upto,
                false,
                k,
            ) == Some(entries_val(eff, k)),
        files.len() == eff.len(),
        forall|j: int|
            0 <= j < eff.len() ==> (#[trigger] files[j]).path.raw@ == unportable_of(eff[j].key@)
                && files[j].hash@ == eff[j].hash@ && files[j].size == eff[j].size
                && !files[j].ignored,
    ensures
        spec_restored_files_match(chain, fi, upto, files),
{
    assert forall|j: int|
        0 <= j < files.len() implies spec_file_from_key(chain, fi, upto, #[trigger] files[j])
            && !files[j].ignored by {
        let k = eff[j].key@;
        assert(entries_has(eff, k)) by {
            assert((eff[j]).key@ == k);
        }
        let w = choose|w: int| 0 <= w < eff.len() && (#[trigger] eff[w]).key@ == k;
        assert(w == j) by {
            if w != j {
                assert(eff[w].key@ == eff[j].key@);
            }
        }
        assert(entries_val(eff, k) == (eff[j].hash@, eff[j].size));
        assert(spec_chain_lookup(chain[fi].files@, chain[fi].children@, upto, false, k) == Some(
            (files[j].hash@, files[j].size),
        ));
    }
    assert forall|k: Seq<char>|
        (#[trigger] spec_chain_lookup(chain[fi].files@, chain[fi].children@, upto, false, k))
            is Some implies spec_files_have_key(
        files,
        k,
        spec_chain_lookup(chain[fi].files@, chain[fi].children@, upto, false, k)->0,
    ) by {
        assert(entries_has(eff, k));
        let w = choose|w: int| 0 <= w < eff.len() && (#[trigger] eff[w]).key@ == k;
        assert(files[w].path.raw@ == unportable_of(k));
        assert(entries_val(eff, k) == (eff[w].hash@, eff[w].size));
        assert(spec_chain_lookup(chain[fi].files@, chain[fi].children@, upto, false, k) == Some(
            (files[w].hash@, files[w].size),
        ));
    }
}

/// The per-key facts of `effective_entries`, carried through the
/// `as_scanned_registry` presentation, give the registry correspondence.
proof fn lemma_restored_registry_match(
    chain: Seq<FullBackupRecord>,
    fi: int,
    upto: int,
    eff: Seq<EntryRecord>,
    regs: Seq<ScannedRegistry>,
)
    requires
        0 <= fi < chain.len(),
        wf_entries(eff),
        forall|k: Seq<char>|
            #[trigger] entries_has(eff, k) == (spec_chain_lookup(
                chain[fi].registry@,
                chain[fi].children@,
                upto,
                true,
                k,
            ) is Some),
        forall|k: Seq<char>|
            #[trigger] entries_has(eff, k) ==> spec_chain_lookup(
                chain[fi].registry@,
                chain[fi].children@,
                upto,
                true,
                k,
            ) == Some(entries_val(eff, k)),
        regs.len() == eff.len(),
        forall|j: int|
            0 <= j < eff.len() ==> (#[trigger] regs[j]).path.raw@ == eff[j].key@ && regs[j].content@
                == eff[j].hash@ && !regs[j].ignored,
    ensures
        spec_restored_registry_match(chain, fi, upto, regs),
{
    assert forall|j: int|
        0 <= j < regs.len() implies spec_chain_lookup(
            chain[fi].registry@,
            chain[fi].children@,
            upto,
            true,
            (#[trigger] regs[j]).path.raw@,
        ) is Some && (spec_chain_lookup(
        chain[fi].registry@,
        chain[fi].children@,
        upto,
        true,
        regs[j].path.raw@,
    )->0).0 == regs[j].content@ && !regs[j].ignored by {
        let k = eff[j].key@;
        assert(entries_has(eff, k)) by {
            assert((eff[j]).key@ == k);
        }
        let w = choose|w: int| 0 <= w < eff.len() && (#[trigger] eff[w]).key@ == k;
        assert(w == j) by {
            if w != j {
                assert(eff[w].key@ == eff[j].key@);
            }
        }
        assert(entries_val(eff, k) == (eff[j].hash@, eff[j].size));
    }
    assert forall|k: Seq<char>|
        (#[trigger] spec_chain_lookup(chain[fi].registry@, chain[fi].children@, upto, true, k))
            is Some implies spec_regs_have(regs, k) by {
        assert(entries_has(eff, k));
        let w = choose|w: int| 0 <= w < eff.len() && (#[trigger] eff[w]).key@ == k;
        assert(regs[w].path.raw@ == k);
    }
}

/// Reads a stored backup instead of the live system: resolves the
/// identifier against the subject's chain, reconstructs the effective file
/// and registry state of that generation by chain overlay (`effective_entries`
/// presented through `as_scanned_files` and `as_scanned_registry`), and
/// lists every stored generation. When the subject has no backups, or the
/// named identifier does not exist, the scan comes back empty with no
/// backup selected.
#[verifier::loop_isolation(false)]
pub fn scan_game_for_restoration(name: &String, id: &BackupId, layout: &GameLayout) -> (r:
    ScanInfo)
    requires
        layout.wf(),
    ensures
        r.game_name@ == name@,
        r.available_backups@.len() == spec_gen_count(layout.chain@),
        (r.backup is Some) == match id {
            BackupId::Latest => layout.chain@.len() > 0,
            BackupId::Named(n) => spec_named_exists(layout.chain@, n@),
        },
        r.backup is None ==> r.found_files@.len() == 0 && r.found_registry_keys@.len() == 0,
        r.backup is Some ==> exists|fi: int, upto: int|
            #[trigger] spec_resolves_to(layout.chain@, *id, fi, upto) && r.backup->0.name@
                == spec_gen_name(layout.chain@, fi, upto) && spec_restored_files_match(
                layout.chain@,
                fi,
                upto,
                r.found_files@,
            ) && spec_restored_registry_match(
                layout.chain@,
                fi,
                upto,
                r.found_registry_keys@,
            ),
{
    let available_backups = layout.backups();
    match layout.resolve(id) {
        None => {
            ScanInfo {
                game_name: name.clone(),
                found_files: Vec::new(),
                found_registry_keys: Vec::new(),
                available_backups,
                backup: None,
            }
        },
        Some((fi, upto)) => {
            let eff_files = effective_entries(
                &layout.chain[fi].files,
                &layout.chain[fi].children,
                upto,
                false,
            );
            let eff_reg = effective_entries(
                &layout.chain[fi].registry,
                &layout.chain[fi].children,
                upto,
                true,
            );
            let found_files = as_scanned_files(&eff_files);
            let found_registry_keys = as_scanned_registry(&eff_reg);
            let selected = layout.backup_at(fi, upto);
            proof {
                assert(spec_resolves_to(layout.chain@, *id, fi as int, upto as int));
                assert(selected.name@ == spec_gen_name(layout.chain@, fi as int, upto as int));
                lemma_restored_files_match(
                    layout.chain@,
                    fi as int,
                    upto as int,
                    eff_files@,
                    found_files@,
                );
                lemma_restored_registry_match(
                    layout.chain@,
                    fi as int,
                    upto as int,
                    eff_reg@,
                    found_registry_keys@,
                );
            }
            ScanInfo {
                game_name: name.clone(),
                found_files,
                found_registry_keys,
                available_backups,
                backup: Some(selected),
            }
        },
    }
}

/// One file write a restore performs: the destination after redirects, and
/// the stored content to place there.
#[derive(Clone, Debug, PartialEq, Eq)]
pub struct RestoreFileStep {
    pub target: StrictPath,
    pub hash: String,
    pub size: u64,
}

/// Everything a restore writes: file contents to their redirected
/// destinations, and registry content to import.
#[derive(Clone, Debug, PartialEq, Eq)]
pub struct RestorePlan {
    pub files: Vec<RestoreFileStep>,
    pub registry: Vec<ScannedRegistry>,
}

/// The file writes a restore performs, as (target, hash, size) triples:
/// one per file of the scan that is not ignored, at the location the
/// restore-direction redirects choose.
pub open spec fn spec_restore_files(
    files: Seq<ScannedFile>,
    redirects: Seq<RedirectConfig>,
) -> Seq<(Seq<char>, Seq<char>, u64)>
    decreases files.len(),
{
    if files.len() == 0 {
        Seq::empty()
    } else {
        let rest = spec_restore_files(files.drop_last(), redirects);
        let f = files.last();
        if f.ignored {
            rest
        } else {
            let origin = if f.original_path is Some {
                f.original_path->0.norm()
            } else {
                f.path.norm()
            };
            rest.push((spec_redirected(origin, redirects, true), f.hash@, f.size))
        }
    }
}

/// The registry imports a restore performs: the scanned keys that are not
/// ignored, in order.
pub open spec fn spec_restore_registry(regs: Seq<ScannedRegistry>) -> Seq<ScannedRegistry>
    decreases regs.len(),
{
    if regs.len() == 0 {
        Seq::empty()
    } else {
        let rest = spec_restore_registry(regs.drop_last());
        if regs.last().ignored {
            rest
        } else {
            rest.push(regs.last())
        }
    }
}

/// Plans a restore: for each file of the selected backup's scan, the
/// destination after applying the redirects in the restore direction and
/// the stored content to write there; ignored items are skipped.
#[verifier::loop_isolation(false)]
pub fn restore_plan(scan: &ScanInfo, redirects: &Vec<RedirectConfig>) -> (r: RestorePlan)
    ensures
        r.files@.map_values(|s: RestoreFileStep| (s.target.raw@, s.hash@, s.size))
            == spec_restore_files(scan.found_files@, redirects@),
        r.registry@ == spec_restore_registry(scan.found_registry_keys@),
{
    let mut files: Vec<RestoreFileStep> = Vec::new();
    let mut i: usize = 0;
    assert(files@.map_values(|s: RestoreFileStep| (s.target.raw@, s.hash@, s.size))
        =~= spec_restore_files(scan.found_files@.subrange(0, 0), redirects@));
    while i < scan.found_files.len()
        invariant
            i <= scan.found_files@.len(),
            files@.map_values(|s: RestoreFileStep| (s.target.raw@, s.hash@, s.size))
                == spec_restore_files(scan.found_files@.subrange(0, i as int), redirects@),
        decreases scan.found_files@.len() - i,
    {
        let ghost pre = scan.found_files@.subrange(0, i as int);
        let ghost nxt = scan.found_files@.subrange(0, i + 1);
        proof {
            assert(nxt.drop_last() =~= pre);
            assert(nxt.last() == scan.found_files@[i as int]);
        }
        let f = &scan.found_files[i];
        if !f.ignored {
            let target = game_file_target(f.original_path(), redirects, true);
            files.push(RestoreFileStep { target, hash: f.hash.clone(), size: f.size });
            proof {
                assert(files@.map_values(|s: RestoreFileStep| (s.target.raw@, s.hash@, s.size))
                    =~= spec_restore_files(nxt, redirects@));
            }
        }
        i += 1;
    }
    proof {
        assert(scan.found_files@.subrange(0, scan.found_files@.len() as int)
            =~= scan.found_files@);
    }
    let mut registry: Vec<ScannedRegistry> = Vec::new();
    let mut q: usize = 0;
    assert(registry@ =~= spec_restore_registry(scan.found_registry_keys@.subrange(0, 0)));
    while q < scan.found_registry_keys.len()
        invariant
            q <= scan.found_registry_keys@.len(),
            registry@ == spec_restore_registry(scan.found_registry_keys@.subrange(0, q as int)),
        decreases scan.found_registry_keys@.len() - q,
    {
        let ghost pre = scan.found_registry_keys@.subrange(0, q as int);
        let ghost nxt = scan.found_registry_keys@.subrange(0, q + 1);
        proof {
            assert(nxt.drop_last() =~= pre);
            assert(nxt.last() == scan.found_registry_keys@[q as int]);
        }
        let e = &scan.found_registry_keys[q];
        if !e.ignored {
            registry.push(ScannedRegistry {
                path: e.path.duplicate(),
                content: e.content.clone(),
                ignored: false,
            });
            proof {
                assert(registry@.last() == scan.found_registry_keys@[q as int]) by {
                    assert(registry@.last().path == scan.found_registry_keys@[q as int].path);
                    assert(registry@.last().content == scan.found_registry_keys@[q as int].content);
                }
                assert(registry@ =~= spec_restore_registry(nxt));
            }
        }
        q += 1;
    }
    proof {
        assert(scan.found_registry_keys@.subrange(0, scan.found_registry_keys@.len() as int)
            =~= scan.found_registry_keys@);
    }
    RestorePlan { files, registry }
}

/// The names of the subjects whose layouts store at least one backup, in
/// order.
pub open spec fn spec_restorable(games: Seq<GameLayout>) -> Seq<Seq<char>>
    decreases games.len(),
{
    if games.len() == 0 {
        Seq::empty()
    } else {
        let rest = spec_restorable(games.drop_last());
        if games.last().chain@.len() > 0 {
            rest.push(games.last().name@)
        } else {
            rest
        }
    }
}

impl BackupLayout {
    /// An empty layout under the given retention limits.
    pub fn new(retention: Retention) -> (r: Self)
        ensures
            r.retention == retention,
            r.games@.len() == 0,
    {
        BackupLayout { retention, games: Vec::new() }
    }

    /// The names of the subjects with at least one stored backup.
    #[verifier::loop_isolation(false)]
    pub fn restorable_games(&self) -> (r: Vec<String>)
        ensures
            r@.map_values(|s: String| s@) == spec_restorable(self.games@),
    {
        let mut r: Vec<String> = Vec::new();
        let mut i: usize = 0;
        assert(r@.map_values(|s: String| s@) =~= spec_restorable(self.games@.subrange(0, 0)));
        while i < self.games.len()
            invariant
                i <= self.games@.len(),
                r@.map_values(|s: String| s@) == spec_restorable(self.games@.subrange(0, i as int)),
            decreases self.games@.len() - i,
        {
            let ghost pre = self.games@.subrange(0, i as int);
            let ghost nxt = self.games@.subrange(0, i + 1);
            proof {
                assert(nxt.drop_last() =~= pre);
                assert(nxt.last() == self.games@[i as int]);
            }
            if self.games[i].chain.len() > 0 {
                r.push(self.games[i].name.clone());
                proof {
                    assert(r@.map_values(|s: String| s@) =~= spec_restorable(nxt));
                }
            }
            i += 1;
        }
        proof {
            assert(self.games@.subrange(0, self.games@.len() as int) =~= self.games@);
        }
        r
    }

    /// The position of a subject's layout.
    #[verifier::loop_isolation(false)]
    pub fn find_game(&self, name: &String) -> (r: Option<usize>)
        ensures
            r matches Some(i) ==> i < self.games@.len() && self.games@[i as int].name@ == name@,
            r is None ==> forall|i: int| 0 <= i < self.games@.len() ==> self.games@[i].name@ != name@,
    {
        let mut i: usize = 0;
        while i < self.games.len()
            invariant
                i <= self.games@.len(),
                forall|j: int| 0 <= j < i ==> self.games@[j].name@ != name@,
            decreases self.games@.len() - i,
        {
            if str_eq(self.games[i].name.as_str(), name.as_str()) {
                return Some(i);
            }
            i += 1;
        }
        None
    }
}

} // verus!
