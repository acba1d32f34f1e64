//! Cross-subject duplicate detection.
//!
//! A process-lifetime index maps a content identity — a file's content hash,
//! or a registry key path — to the subjects whose scans referenced it. An
//! identity is duplicated when at least two distinct subjects reference it.

use vstd::prelude::*;
use crate::path::RegistryItem;
use crate::scan::{ScanInfo, ScannedFile};
use crate::strutil::str_eq;

verus! {

/// The subjects recorded under one identity.
#[derive(Clone, Debug, PartialEq, Eq)]
pub struct IdentityEntry {
    pub key: String,
    pub names: Vec<String>,
}

/// An index from identity to the subjects referencing it.
#[derive(Clone, Debug, PartialEq, Eq)]
pub struct IdentityIndex {
    pub entries: Vec<IdentityEntry>,
}

fn clone_string_vec(v: &Vec<String>) -> (r: Vec<String>)
    ensures
        r@.len() == v@.len(),
        forall|i: int| 0 <= i < v@.len() ==> r@[i] == v@[i],
{
    let mut r: Vec<String> = Vec::new();
    let mut j: usize = 0;
    while j < v.len()
        invariant
            j <= v@.len(),
            r@.len() == j,
            forall|i: int| 0 <= i < j ==> r@[i] == v@[i],
        decreases v.len() - j,
    {
        r.push(v[j].clone());
        j += 1;
    }
    r
}

/// True when some element of `v` reads `n`.
pub open spec fn seq_has_name(v: Seq<String>, n: Seq<char>) -> bool {
    exists|b: int| 0 <= b < v.len() && #[trigger] v[b]@ == n
}

impl IdentityIndex {
    /// Well-formed: identities are unique, no identity is listed without
    /// subjects, and no subject repeats under one identity.
    pub open spec fn wf(&self) -> bool {
        &&& forall|i: int, j: int|
            0 <= i < j < self.entries@.len() ==> self.entries@[i].key@ != self.entries@[j].key@
        &&& forall|i: int|
            0 <= i < self.entries@.len() ==> #[trigger] self.entries@[i].names@.len() > 0
        &&& forall|i: int, a: int, b: int|
            #![trigger self.entries@[i].names@[a], self.entries@[i].names@[b]]
            0 <= i < self.entries@.len() && 0 <= a < b < self.entries@[i].names@.len()
                ==> self.entries@[i].names@[a]@ != self.entries@[i].names@[b]@
    }

    /// Subject `n` is recorded under identity `k` at position `(i, a)`.
    pub open spec fn holds_at(&self, k: Seq<char>, n: Seq<char>, i: int, a: int) -> bool {
        0 <= i < self.entries@.len() && 0 <= a < self.entries@[i].names@.len()
            && self.entries@[i].key@ == k && self.entries@[i].names@[a]@ == n
    }

    /// True when subject `n` is recorded under identity `k` in the first
    /// `bound` entries.
    pub open spec fn holds_within(&self, bound: int, k: Seq<char>, n: Seq<char>) -> bool {
        exists|i: int, a: int| 0 <= i < bound && self.holds_at(k, n, i, a)
    }

    /// True when subject `n` is recorded under identity `k`.
    pub open spec fn holds(&self, k: Seq<char>, n: Seq<char>) -> bool {
        exists|i: int, a: int| self.holds_at(k, n, i, a)
    }

    /// True when at least two distinct subjects are recorded under `k`.
    pub open spec fn spec_duplicated(&self, k: Seq<char>) -> bool {
        exists|n1: Seq<char>, n2: Seq<char>| self.holds(k, n1) && self.holds(k, n2) && n1 != n2
    }

    /// True when nothing is recorded at all.
    pub open spec fn spec_empty(&self) -> bool {
        self.entries@.len() == 0
    }

    pub fn new() -> (r: Self)
        ensures
            r.wf(),
            r.spec_empty(),
    {
        IdentityIndex { entries: Vec::new() }
    }

    pub fn clear(&mut self)
        ensures
            final(self).wf(),
            final(self).spec_empty(),
    {
        self.entries.clear();
    }

    fn find_key(&self, key: &String) -> (r: Option<usize>)
        ensures
            r is Some ==> r->0 < self.entries@.len() && self.entries@[r->0 as int].key@ == key@,
            r is None ==> forall|i: int|
                0 <= i < self.entries@.len() ==> self.entries@[i].key@ != key@,
    {
        let mut i: usize = 0;
        while i < self.entries.len()
            invariant
                i <= self.entries@.len(),
                forall|j: int| 0 <= j < i ==> self.entries@[j].key@ != key@,
            decreases self.entries@.len() - i,
        {
            if str_eq(self.entries[i].key.as_str(), key.as_str()) {
                return Some(i);
            }
            i += 1;
        }
        None
    }

    /// Records subject `name` under identity `key`.
    pub fn insert_one(&mut self, key: &String, name: &String)
        requires
            old(self).wf(),
        ensures
            final(self).wf(),
            forall|k: Seq<char>, n: Seq<char>|
                final(self).holds(k, n) == (old(self).holds(k, n) || (k == key@ && n == name@)),
    {
        let found = self.find_key(key);
        match found {
            Some(i) => {
                let mut a: usize = 0;
                let entry_len = self.entries[i].names.len();
                while a < entry_len
                    invariant
                        *self == *old(self),
                        old(self).wf(),
                        0 <= i < self.entries@.len(),
                        entry_len == self.entries@[i as int].names@.len(),
                        a <= entry_len,
                        self.entries@[i as int].key@ == key@,
                        forall|b: int| 0 <= b < a ==> self.entries@[i as int].names@[b]@ != name@,
                    decreases entry_len - a,
                {
                    if str_eq(self.entries[i].names[a].as_str(), name.as_str()) {
                        // already recorded: membership is unchanged
                        proof {
                            assert(old(self).holds_at(key@, name@, i as int, a as int));
                            assert(old(self).holds(key@, name@));
                        }
                        return ;
                    }
                    a += 1;
                }
                let ghost prev = *self;
                let entry_key = self.entries[i].key.clone();
                let mut entry_names = clone_string_vec(&self.entries[i].names);
                entry_names.push(name.clone());
                let entry = IdentityEntry { key: entry_key, names: entry_names };
                self.entries[i] = entry;
                proof {
                    let plen = prev.entries@[i as int].names@.len();
                    assert(forall|b: int|
                        0 <= b < plen ==> final(self).entries@[i as int].names@[b]
                            == prev.entries@[i as int].names@[b]);
                    assert(final(self).entries@[i as int].names@[plen as int]@ == name@);
                    assert forall|k: Seq<char>, n: Seq<char>|
                        final(self).holds(k, n) == (prev.holds(k, n) || (k == key@ && n
                            == name@)) by {
                        if final(self).holds(k, n) {
                            let (ii, aa) = choose|ii: int, aa: int|
                                final(self).holds_at(k, n, ii, aa);
                            if ii == i {
                                if aa < plen {
                                    assert(prev.holds_at(k, n, ii, aa));
                                } else {
                                    assert(k == key@ && n == name@);
                                }
                            } else {
                                assert(prev.holds_at(k, n, ii, aa));
                            }
                        }
                        if prev.holds(k, n) {
                            let (ii, aa) = choose|ii: int, aa: int| prev.holds_at(k, n, ii, aa);
                            assert(final(self).holds_at(k, n, ii, aa));
                        }
                        if k == key@ && n == name@ {
                            assert(final(self).holds_at(k, n, i as int, plen as int));
                        }
                    }
                }
            },
            None => {
                let ghost prev = *self;
                let mut names: Vec<String> = Vec::new();
                names.push(name.clone());
                self.entries.push(IdentityEntry { key: key.clone(), names });
                proof {
                    let last = final(self).entries@.len() - 1;
                    assert(final(self).entries@[last].key@ == key@);
                    assert(final(self).entries@[last].names@[0]@ == name@);
                    assert forall|k: Seq<char>, n: Seq<char>|
                        final(self).holds(k, n) == (prev.holds(k, n) || (k == key@ && n
                            == name@)) by {
                        if final(self).holds(k, n) {
                            let (ii, aa) = choose|ii: int, aa: int|
                                final(self).holds_at(k, n, ii, aa);
                            if ii == last {
                                assert(k == key@ && n == name@);
                            } else {
                                assert(prev.holds_at(k, n, ii, aa));
                            }
                        }
                        if prev.holds(k, n) {
                            let (ii, aa) = choose|ii: int, aa: int| prev.holds_at(k, n, ii, aa);
                            assert(final(self).holds_at(k, n, ii, aa));
                        }
                        if k == key@ && n == name@ {
                            assert(final(self).holds_at(k, n, last, 0));
                        }
                    }
                }
            },
        }
    }

    /// Removes subject `name` from every identity; identities left without
    /// subjects disappear.
    #[verifier::rlimit(100)]
    #[verifier::spinoff_prover]
    pub fn remove_name(&mut self, name: &String)
        requires
            old(self).wf(),
        ensures
            final(self).wf(),
            forall|k: Seq<char>, n: Seq<char>|
                final(self).holds(k, n) == (old(self).holds(k, n) && n != name@),
    {
        let ghost prev = *self;
        let mut out: Vec<IdentityEntry> = Vec::new();
        let mut i: usize = 0;
        while i < self.entries.len()
            invariant
                *self == prev,
                prev.wf(),
                i <= prev.entries@.len(),
                // out holds exactly the surviving pairs from the first i entries
                forall|k: Seq<char>, n: Seq<char>|
                    #[trigger] (IdentityIndex { entries: out }).holds(k, n) == (prev.holds_within(
                        i as int,
                        k,
                        n,
                    ) && n != name@),
                (IdentityIndex { entries: out }).wf(),
                // surviving keys come from the processed prefix of the source
                forall|j: int|
                    0 <= j < out@.len() ==> exists|ii: int|
                        0 <= ii < i && prev.entries@[ii].key@ == #[trigger] out@[j].key@,
            decreases prev.entries@.len() - i,
        {
            let ghost out_prev = out;
            let mut kept: Vec<String> = Vec::new();
            let names_len = self.entries[i].names.len();
            let mut a: usize = 0;
            while a < names_len
                invariant
                    0 <= i < prev.entries@.len(),
                    *self == prev,
                    prev.wf(),
                    names_len == prev.entries@[i as int].names@.len(),
                    a <= names_len,
                    // kept = names of entry i among the first a, except `name`
                    forall|n: Seq<char>|
                        #[trigger] seq_has_name(kept@, n) == (seq_has_name(
                            prev.entries@[i as int].names@.subrange(0, a as int),
                            n,
                        ) && n != name@),
                    forall|x: int, y: int|
                        #![trigger kept@[x], kept@[y]]
                        0 <= x < y < kept@.len() ==> kept@[x]@ != kept@[y]@,
                decreases names_len - a,
            {
                let ghost names_prefix = prev.entries@[i as int].names@.subrange(0, a as int);
                let ghost names_next = prev.entries@[i as int].names@.subrange(0, a + 1);
                proof {
                    assert(names_next.drop_last() =~= names_prefix);
                    assert(names_next[a as int]@ == prev.entries@[i as int].names@[a as int]@);
                }
                if !str_eq(self.entries[i].names[a].as_str(), name.as_str()) {
                    let ghost kept_prev = kept;
                    kept.push(self.entries[i].names[a].clone());
                    proof {
                        let klast = kept@.len() - 1;
                        assert(kept@[klast]@ == prev.entries@[i as int].names@[a as int]@);
                        assert forall|x: int| 0 <= x < klast implies kept@[x]@ != kept@[klast]@ by {
                            if kept@[x]@ == kept@[klast]@ {
                                assert(kept_prev@[x]@ == kept@[x]@);
                                assert(seq_has_name(kept_prev@, kept_prev@[x]@));
                                assert(seq_has_name(names_prefix, kept_prev@[x]@));
                                let c = choose|c: int|
                                    0 <= c < names_prefix.len() && #[trigger] names_prefix[c]@
                                        == kept_prev@[x]@;
                                assert(prev.entries@[i as int].names@[c]@ == prev.entries@[
                                i as int].names@[a as int]@);
                                assert(false);
                            }
                        }
                        assert forall|n: Seq<char>|
                            #[trigger] seq_has_name(kept@, n) == (seq_has_name(names_next, n) && n
                                != name@) by {
                            if seq_has_name(kept@, n) {
                                let b = choose|b: int|
                                    0 <= b < kept@.len() && #[trigger] kept@[b]@ == n;
                                if b < kept_prev@.len() {
                                    assert(kept_prev@[b]@ == n);
                                    assert(seq_has_name(kept_prev@, n));
                                    let c = choose|c: int|
                                        0 <= c < names_prefix.len() && #[trigger] names_prefix[c]@
                                            == n;
                                    assert(names_next[c]@ == n);
                                } else {
                                    assert(names_next[a as int]@ == n);
                                }
                                assert(seq_has_name(names_next, n));
                            }
                            if seq_has_name(names_next, n) && n != name@ {
                                let b = choose|b: int|
                                    0 <= b < names_next.len() && #[trigger] names_next[b]@ == n;
                                if b < a {
                                    assert(names_prefix[b]@ == n);
                                    assert(seq_has_name(names_prefix, n));
                                    assert(seq_has_name(kept_prev@, n));
                                    let c = choose|c: int|
                                        0 <= c < kept_prev@.len() && #[trigger] kept_prev@[c]@
                                            == n;
                                    assert(kept@[c]@ == n);
                                } else {
                                    assert(kept@[klast]@ == n);
                                }
                                assert(seq_has_name(kept@, n));
                            }
                        }
                    }
                } else {
                    proof {
                        assert(prev.entries@[i as int].names@[a as int]@ == name@);
                        assert forall|n: Seq<char>|
                            #[trigger] seq_has_name(kept@, n) == (seq_has_name(names_next, n) && n
                                != name@) by {
                            if seq_has_name(names_next, n) && n != name@ {
                                let b = choose|b: int|
                                    0 <= b < names_next.len() && #[trigger] names_next[b]@ == n;
                                assert(b < a);
                                assert(names_prefix[b]@ == n);
                                assert(seq_has_name(names_prefix, n));
                            }
                            if seq_has_name(kept@, n) {
                                assert(seq_has_name(names_prefix, n) && n != name@);
                                let b = choose|b: int|
                                    0 <= b < names_prefix.len() && #[trigger] names_prefix[b]@
                                        == n;
                                assert(names_next[b]@ == n);
                            }
                        }
                    }
                }
                a += 1;
            }
            proof {
                assert(prev.entries@[i as int].names@.subrange(0, names_len as int)
                    =~= prev.entries@[i as int].names@);
            }
            if kept.len() > 0 {
                let entry_key = self.entries[i].key.clone();
                proof {
                    // the incoming key is new among the survivors
                    assert forall|j: int| 0 <= j < out@.len() implies out@[j].key@ != prev.entries@[
                        i as int].key@ by {
                        let ii = choose|ii: int|
                            0 <= ii < i && prev.entries@[ii].key@ == #[trigger] out@[j].key@;
                    }
                }
                out.push(IdentityEntry { key: entry_key, names: kept });
                proof {
                    let last = out@.len() - 1;
                    assert(out@[last].key@ == prev.entries@[i as int].key@);
                    assert(out@[last].names@ == kept@);
                    assert(forall|x: int| 0 <= x < last ==> out@[x] == out_prev@[x]);
                    let oi = IdentityIndex { entries: out_prev };
                    assert(oi.wf());
                    assert(oi.entries@ == out_prev@);
                    assert forall|x: int, y: int|
                        0 <= x < y < out@.len() implies out@[x].key@ != out@[y].key@ by {
                        if y < last {
                            assert(oi.entries@[x].key@ != oi.entries@[y].key@);
                        } else {
                            assert(out@[x].key@ != prev.entries@[i as int].key@);
                        }
                    }
                    assert forall|x: int|
                        0 <= x < out@.len() implies #[trigger] out@[x].names@.len() > 0 by {
                        if x < last {
                            assert(oi.entries@[x].names@.len() > 0);
                        }
                    }
                    assert forall|x: int, a1: int, b1: int|
                        #![trigger out@[x].names@[a1], out@[x].names@[b1]]
                        0 <= x < out@.len() && 0 <= a1 < b1 < out@[x].names@.len() implies out@[
                        x].names@[a1]@ != out@[x].names@[b1]@ by {
                        if x < last {
                            assert(oi.entries@[x].names@[a1]@ != oi.entries@[x].names@[b1]@);
                        } else {
                            assert(kept@[a1]@ != kept@[b1]@);
                        }
                    }
                    assert((IdentityIndex { entries: out }).wf());
                    assert forall|k: Seq<char>, n: Seq<char>|
                        #[trigger] (IdentityIndex { entries: out }).holds(k, n) == (
                        prev.holds_within(i + 1, k, n) && n != name@) by {
                        if (IdentityIndex { entries: out }).holds(k, n) {
                            let (ii, aa) = choose|ii: int, aa: int|
                                (IdentityIndex { entries: out }).holds_at(k, n, ii, aa);
                            if ii < last {
                                assert((IdentityIndex { entries: out_prev }).holds_at(
                                    k,
                                    n,
                                    ii,
                                    aa,
                                ));
                                assert((IdentityIndex { entries: out_prev }).holds(k, n));
                                let (jj, bb) = choose|jj: int, bb: int|
                                    0 <= jj < i && prev.holds_at(k, n, jj, bb);
                                assert(prev.holds_within(i + 1, k, n));
                            } else {
                                assert(out@[last].names@[aa]@ == n);
                                assert(out@[last].names@ == kept@);
                                assert(kept@[aa]@ == n);
                                assert(seq_has_name(kept@, n));
                                assert(seq_has_name(
                                    prev.entries@[i as int].names@.subrange(0, names_len as int),
                                    n,
                                ));
                                assert(seq_has_name(prev.entries@[i as int].names@, n));
                                let b = choose|b: int|
                                    0 <= b < prev.entries@[i as int].names@.len()
                                        && #[trigger] prev.entries@[i as int].names@[b]@ == n;
                                assert(prev.holds_at(k, n, i as int, b));
                                assert(prev.holds_within(i + 1, k, n));
                            }
                        }
                        if prev.holds_within(i + 1, k, n) && n != name@ {
                            let (ii, aa) = choose|ii: int, aa: int|
                                0 <= ii < i + 1 && prev.holds_at(k, n, ii, aa);
                            if ii < i {
                                assert(prev.holds_within(i as int, k, n));
                                assert((IdentityIndex { entries: out_prev }).holds(k, n));
                                let (jj, bb) = choose|jj: int, bb: int|
                                    (IdentityIndex { entries: out_prev }).holds_at(k, n, jj, bb);
                                assert((IdentityIndex { entries: out }).holds_at(k, n, jj, bb));
                            } else {
                                assert(prev.entries@[i as int].names@[aa]@ == n);
                                assert(seq_has_name(prev.entries@[i as int].names@, n));
                                assert(seq_has_name(
                                    prev.entries@[i as int].names@.subrange(0, names_len as int),
                                    n,
                                ));
                                assert(seq_has_name(kept@, n));
                                assert(out@[last].names@ == kept@);
                                assert(seq_has_name(out@[last].names@, n));
                                let b = choose|b: int|
                                    0 <= b < out@[last].names@.len() && #[trigger] out@[
                                    last].names@[b]@ == n;
                                assert((IdentityIndex { entries: out }).holds_at(k, n, last, b));
                            }
                        }
                    }
                }
            } else {
                proof {
                    assert forall|k: Seq<char>, n: Seq<char>|
                        #[trigger] (IdentityIndex { entries: out }).holds(k, n) == (
                        prev.holds_within(i + 1, k, n) && n != name@) by {
                        if (IdentityIndex { entries: out }).holds(k, n) {
                            assert(prev.holds_within(i as int, k, n) && n != name@);
                            let (jj, bb) = choose|jj: int, bb: int|
                                0 <= jj < i && prev.holds_at(k, n, jj, bb);
                            assert(prev.holds_within(i + 1, k, n));
                        }
                        if prev.holds_within(i + 1, k, n) && n != name@ {
                            let (ii, aa) = choose|ii: int, aa: int|
                                0 <= ii < i + 1 && prev.holds_at(k, n, ii, aa);
                            if ii == i {
                                assert(prev.entries@[i as int].names@[aa]@ == n);
                                assert(seq_has_name(prev.entries@[i as int].names@, n));
                                assert(seq_has_name(kept@, n));
                                assert(false);
                            } else {
                                assert(prev.holds_within(i as int, k, n));
                                assert((IdentityIndex { entries: out }).holds(k, n));
                            }
                        }
                    }
                }
            }
            i += 1;
        }
        self.entries = out;
        proof {
            assert forall|k: Seq<char>, n: Seq<char>|
                #[trigger] final(self).holds(k, n) == (prev.holds(k, n) && n != name@) by {
                if prev.holds(k, n) && n != name@ {
                    let (ii, aa) = choose|ii: int, aa: int| prev.holds_at(k, n, ii, aa);
                    assert(prev.holds_within(prev.entries@.len() as int, k, n));
                }
                if final(self).holds(k, n) {
                    assert(prev.holds_within(prev.entries@.len() as int, k, n) && n != name@);
                    let (ii, aa) = choose|ii: int, aa: int|
                        0 <= ii < prev.entries@.len() && prev.holds_at(k, n, ii, aa);
                    assert(prev.holds(k, n));
                }
            }
        }
    }



    /// The subjects recorded under `key`.
    pub fn names_for(&self, key: &String) -> (r: Vec<String>)
        requires
            self.wf(),
        ensures
            forall|n: Seq<char>|
                (exists|b: int| 0 <= b < r@.len() && #[trigger] r@[b]@ == n) == self.holds(key@, n),
            forall|x: int, y: int|
                #![trigger r@[x], r@[y]]
                0 <= x < y < r@.len() ==> r@[x]@ != r@[y]@,
    {
        let found = self.find_key(key);
        match found {
            Some(i) => {
                let r = clone_string_vec(&self.entries[i].names);
                proof {
                    assert forall|n: Seq<char>|
                        (exists|b: int| 0 <= b < r@.len() && #[trigger] r@[b]@ == n) == self.holds(
                            key@,
                            n,
                        ) by {
                        if self.holds(key@, n) {
                            let (ii, aa) = choose|ii: int, aa: int| self.holds_at(key@, n, ii, aa);
                            assert(ii == i);
                            assert(r@[aa]@ == n);
                        }
                        if exists|b: int| 0 <= b < r@.len() && #[trigger] r@[b]@ == n {
                            let b = choose|b: int| 0 <= b < r@.len() && #[trigger] r@[b]@ == n;
                            assert(self.holds_at(key@, n, i as int, b));
                        }
                    }
                }
                r
            },
            None => {
                let r: Vec<String> = Vec::new();
                proof {
                    assert forall|n: Seq<char>| !self.holds(key@, n) by {
                        if self.holds(key@, n) {
                            let (ii, aa) = choose|ii: int, aa: int| self.holds_at(key@, n, ii, aa);
                            assert(self.entries@[ii].key@ != key@);
                        }
                    }
                }
                r
            },
        }
    }

    /// Decides whether at least two distinct subjects share `key`.
    pub fn duplicated(&self, key: &String) -> (r: bool)
        requires
            self.wf(),
        ensures
            r == self.spec_duplicated(key@),
    {
        let found = self.find_key(key);
        match found {
            Some(i) => {
                let len = self.entries[i].names.len();
                if len >= 2 {
                    proof {
                        let e = self.entries@[i as int];
                        assert(e.names@[0]@ != e.names@[1]@);
                        assert(self.holds_at(key@, e.names@[0]@, i as int, 0));
                        assert(self.holds_at(key@, e.names@[1]@, i as int, 1));
                        assert(self.holds(key@, e.names@[0]@) && self.holds(key@, e.names@[1]@));
                    }
                    true
                } else {
                    proof {
                        if self.spec_duplicated(key@) {
                            let (n1, n2) = choose|n1: Seq<char>, n2: Seq<char>|
                                self.holds(key@, n1) && self.holds(key@, n2) && n1 != n2;
                            let (i1, a1) = choose|ii: int, aa: int| self.holds_at(key@, n1, ii, aa);
                            let (i2, a2) = choose|ii: int, aa: int| self.holds_at(key@, n2, ii, aa);
                            assert(i1 == i as int && i2 == i as int);
                            assert(a1 == 0 && a2 == 0);
                            assert(false);
                        }
                    }
                    false
                }
            },
            None => {
                proof {
                    if self.spec_duplicated(key@) {
                        let (n1, n2) = choose|n1: Seq<char>, n2: Seq<char>|
                            self.holds(key@, n1) && self.holds(key@, n2) && n1 != n2;
                        let (i1, a1) = choose|ii: int, aa: int| self.holds_at(key@, n1, ii, aa);
                        assert(self.entries@[i1].key@ != key@);
                        assert(false);
                    }
                }
                false
            },
        }
    }
}

/// True when some scanned file of `s` carries content hash `k`.
pub open spec fn spec_scan_has_file_hash(s: ScanInfo, k: Seq<char>) -> bool {
    exists|i: int| 0 <= i < s.found_files@.len() && (#[trigger] s.found_files@[i]).hash@ == k
}

/// True when some scanned registry key of `s` has path `k`.
pub open spec fn spec_scan_has_reg_path(s: ScanInfo, k: Seq<char>) -> bool {
    exists|i: int|
        0 <= i < s.found_registry_keys@.len() && (#[trigger] s.found_registry_keys@[i]).path.raw@
            == k
}

/// The process-lifetime duplicate index: file content hashes and registry
/// key paths, each mapped to the subjects that referenced them.
#[derive(Clone, Debug, PartialEq, Eq)]
pub struct DuplicateDetector {
    pub files: IdentityIndex,
    pub registry: IdentityIndex,
}

impl Default for DuplicateDetector {
    fn default() -> (r: Self)
        ensures
            r.wf(),
            r.files.spec_empty(),
            r.registry.spec_empty(),
    {
        DuplicateDetector { files: IdentityIndex::new(), registry: IdentityIndex::new() }
    }
}

impl DuplicateDetector {
    pub open spec fn wf(&self) -> bool {
        self.files.wf() && self.registry.wf()
    }

    /// Records every file hash and registry key of the scan under the
    /// scan's subject. A scan with nothing found contributes nothing.
    #[verifier::loop_isolation(false)]
    pub fn add_game(&mut self, scan: &ScanInfo)
        requires
            old(self).wf(),
        ensures
            final(self).wf(),
            forall|k: Seq<char>, n: Seq<char>|
                final(self).files.holds(k, n) == (old(self).files.holds(k, n) || (
                spec_scan_has_file_hash(*scan, k) && n == scan.game_name@)),
            forall|k: Seq<char>, n: Seq<char>|
                final(self).registry.holds(k, n) == (old(self).registry.holds(k, n) || (
                spec_scan_has_reg_path(*scan, k) && n == scan.game_name@)),
    {
        let mut i: usize = 0;
        while i < scan.found_files.len()
            invariant
                i <= scan.found_files@.len(),
                self.wf(),
                self.registry == old(self).registry,
                forall|k: Seq<char>, n: Seq<char>|
                    self.files.holds(k, n) == (old(self).files.holds(k, n) || ((exists|q: int|
                        0 <= q < i && (#[trigger] scan.found_files@[q]).hash@ == k) && n
                        == scan.game_name@)),
            decreases scan.found_files@.len() - i,
        {
            let ghost before = self.files;
            self.files.insert_one(&scan.found_files[i].hash, &scan.game_name);
            proof {
                assert forall|k: Seq<char>, n: Seq<char>|
                    self.files.holds(k, n) == (old(self).files.holds(k, n) || ((exists|q: int|
                        0 <= q < i + 1 && (#[trigger] scan.found_files@[q]).hash@ == k) && n
                        == scan.game_name@)) by {
                    if self.files.holds(k, n) {
                        if before.holds(k, n) {
                        } else {
                            assert(k == scan.found_files@[i as int].hash@ && n == scan.game_name@);
                        }
                    }
                    if old(self).files.holds(k, n) {
                        assert(before.holds(k, n));
                    }
                    if (exists|q: int|
                        0 <= q < i + 1 && (#[trigger] scan.found_files@[q]).hash@ == k) && n
                        == scan.game_name@ {
                        let q = choose|q: int|
                            0 <= q < i + 1 && (#[trigger] scan.found_files@[q]).hash@ == k;
                        if q < i {
                            assert(before.holds(k, n));
                        } else {
                            assert(k == scan.found_files@[i as int].hash@);
                        }
                        assert(self.files.holds(k, n));
                    }
                }
            }
            i += 1;
        }
        let mut j: usize = 0;
        while j < scan.found_registry_keys.len()
            invariant
                j <= scan.found_registry_keys@.len(),
                self.wf(),
                forall|k: Seq<char>, n: Seq<char>|
                    self.files.holds(k, n) == (old(self).files.holds(k, n) || (
                    spec_scan_has_file_hash(*scan, k) && n == scan.game_name@)),
                forall|k: Seq<char>, n: Seq<char>|
                    self.registry.holds(k, n) == (old(self).registry.holds(k, n) || ((exists|
                    q: int|
                        0 <= q < j && (#[trigger] scan.found_registry_keys@[q]).path.raw@ == k) && n
                        == scan.game_name@)),
            decreases scan.found_registry_keys@.len() - j,
        {
            let ghost before = self.registry;
            self.registry.insert_one(&scan.found_registry_keys[j].path.raw, &scan.game_name);
            proof {
                assert forall|k: Seq<char>, n: Seq<char>|
                    self.registry.holds(k, n) == (old(self).registry.holds(k, n) || ((exists|
                    q: int|
                        0 <= q < j + 1 && (#[trigger] scan.found_registry_keys@[q]).path.raw@ == k)
                        && n == scan.game_name@)) by {
                    if self.registry.holds(k, n) {
                        if before.holds(k, n) {
                        } else {
                            assert(k == scan.found_registry_keys@[j as int].path.raw@ && n
                                == scan.game_name@);
                        }
                    }
                    if old(self).registry.holds(k, n) {
                        assert(before.holds(k, n));
                    }
                    if (exists|q: int|
                        0 <= q < j + 1 && (#[trigger] scan.found_registry_keys@[q]).path.raw@ == k)
                        && n == scan.game_name@ {
                        let q = choose|q: int|
                            0 <= q < j + 1 && (#[trigger] scan.found_registry_keys@[q]).path.raw@
                                == k;
                        if q < j {
                            assert(before.holds(k, n));
                        } else {
                            assert(k == scan.found_registry_keys@[j as int].path.raw@);
                        }
                        assert(self.registry.holds(k, n));
                    }
                }
            }
            j += 1;
        }
        proof {
            assert forall|k: Seq<char>, n: Seq<char>|
                final(self).files.holds(k, n) == (old(self).files.holds(k, n) || (
                spec_scan_has_file_hash(*scan, k) && n == scan.game_name@)) by {
                if spec_scan_has_file_hash(*scan, k) {
                    let q = choose|q: int|
                        0 <= q < scan.found_files@.len() && (#[trigger] scan.found_files@[q]).hash@
                            == k;
                }
            }
            assert forall|k: Seq<char>, n: Seq<char>|
                final(self).registry.holds(k, n) == (old(self).registry.holds(k, n) || (
                spec_scan_has_reg_path(*scan, k) && n == scan.game_name@)) by {
                if spec_scan_has_reg_path(*scan, k) {
                    let q = choose|q: int|
                        0 <= q < scan.found_registry_keys@.len() && (
                        #[trigger] scan.found_registry_keys@[q]).path.raw@ == k;
                }
            }
        }
    }

    /// Removes every contribution of the named subject, from both indexes.
    pub fn remove_game(&mut self, name: &String)
        requires
            old(self).wf(),
        ensures
            final(self).wf(),
            forall|k: Seq<char>, n: Seq<char>|
                final(self).files.holds(k, n) == (old(self).files.holds(k, n) && n != name@),
            forall|k: Seq<char>, n: Seq<char>|
                final(self).registry.holds(k, n) == (old(self).registry.holds(k, n) && n != name@),
    {
        self.files.remove_name(name);
        self.registry.remove_name(name);
    }

    /// Empties the whole index.
    pub fn clear(&mut self)
        ensures
            final(self).wf(),
            final(self).files.spec_empty(),
            final(self).registry.spec_empty(),
    {
        self.files.clear();
        self.registry.clear();
    }

    /// True when at least two subjects reference this file's content hash.
    pub fn is_file_duplicated(&self, file: &ScannedFile) -> (r: bool)
        requires
            self.wf(),
        ensures
            r == self.files.spec_duplicated(file.hash@),
    {
        self.files.duplicated(&file.hash)
    }

    /// True when at least two subjects reference this registry key path.
    pub fn is_registry_duplicated(&self, path: &RegistryItem) -> (r: bool)
        requires
            self.wf(),
        ensures
            r == self.registry.spec_duplicated(path.raw@),
    {
        self.registry.duplicated(&path.raw)
    }

    /// True when anything the scan found is duplicated across subjects.
    #[verifier::loop_isolation(false)]
    pub fn is_game_duplicated(&self, scan: &ScanInfo) -> (r: bool)
        requires
            self.wf(),
        ensures
            r == ((exists|i: int|
                0 <= i < scan.found_files@.len() && self.files.spec_duplicated(
                    (#[trigger] scan.found_files@[i]).hash@,
                )) || (exists|i: int|
                0 <= i < scan.found_registry_keys@.len() && self.registry.spec_duplicated(
                    (#[trigger] scan.found_registry_keys@[i]).path.raw@,
                ))),
    {
        let mut i: usize = 0;
        while i < scan.found_files.len()
            invariant
                i <= scan.found_files@.len(),
                forall|q: int|
                    0 <= q < i ==> !self.files.spec_duplicated(
                        (#[trigger] scan.found_files@[q]).hash@,
                    ),
            decreases scan.found_files@.len() - i,
        {
            if self.is_file_duplicated(&scan.found_files[i]) {
                return true;
            }
            i += 1;
        }
        let mut j: usize = 0;
        while j < scan.found_registry_keys.len()
            invariant
                j <= scan.found_registry_keys@.len(),
                forall|q: int|
                    0 <= q < scan.found_files@.len() ==> !self.files.spec_duplicated(
                        (#[trigger] scan.found_files@[q]).hash@,
                    ),
                forall|q: int|
                    0 <= q < j ==> !self.registry.spec_duplicated(
                        (#[trigger] scan.found_registry_keys@[q]).path.raw@,
                    ),
            decreases scan.found_registry_keys@.len() - j,
        {
            if self.is_registry_duplicated(&scan.found_registry_keys[j].path) {
                return true;
            }
            j += 1;
        }
        false
    }

    /// The subjects referencing this file's content hash.
    pub fn file(&self, file: &ScannedFile) -> (r: Vec<String>)
        requires
            self.wf(),
        ensures
            forall|n: Seq<char>|
                (exists|b: int| 0 <= b < r@.len() && #[trigger] r@[b]@ == n) == self.files.holds(
                    file.hash@,
                    n,
                ),
    {
        self.files.names_for(&file.hash)
    }

    /// The subjects referencing this registry key path.
    pub fn registry(&self, path: &RegistryItem) -> (r: Vec<String>)
        requires
            self.wf(),
        ensures
            forall|n: Seq<char>|
                (exists|b: int| 0 <= b < r@.len() && #[trigger] r@[b]@ == n)
                    == self.registry.holds(path.raw@, n),
    {
        self.registry.names_for(&path.raw)
    }
}

/// A subject with an empty scan contributes nothing: adding it leaves every
/// recorded membership of the duplicate index exactly as it was.
pub proof fn lemma_empty_scan_contributes_nothing(
    pre: DuplicateDetector,
    post: DuplicateDetector,
    scan: ScanInfo,
)
    requires
        scan.found_files@.len() == 0,
        scan.found_registry_keys@.len() == 0,
        forall|k: Seq<char>, n: Seq<char>|
            post.files.holds(k, n) == (pre.files.holds(k, n) || (spec_scan_has_file_hash(scan, k)
                && n == scan.game_name@)),
        forall|k: Seq<char>, n: Seq<char>|
            post.registry.holds(k, n) == (pre.registry.holds(k, n) || (spec_scan_has_reg_path(
                scan,
                k,
            ) && n == scan.game_name@)),
    ensures
        forall|k: Seq<char>, n: Seq<char>|
            #[trigger] post.files.holds(k, n) == pre.files.holds(k, n),
        forall|k: Seq<char>, n: Seq<char>|
            #[trigger] post.registry.holds(k, n) == pre.registry.holds(k, n),
{
    assert forall|k: Seq<char>, n: Seq<char>|
        #[trigger] post.files.holds(k, n) == pre.files.holds(k, n) by {
        if spec_scan_has_file_hash(scan, k) {
            let i = choose|i: int|
                0 <= i < scan.found_files@.len() && (#[trigger] scan.found_files@[i]).hash@ == k;
            assert(false);
        }
    }
    assert forall|k: Seq<char>, n: Seq<char>|
        #[trigger] post.registry.holds(k, n) == pre.registry.holds(k, n) by {
        if spec_scan_has_reg_path(scan, k) {
            let i = choose|i: int|
                0 <= i < scan.found_registry_keys@.len() && (
                #[trigger] scan.found_registry_keys@[i]).path.raw@ == k;
            assert(false);
        }
    }
}

/// The duplicate round trip: starting from an empty index, recording one
/// identity under two distinct subjects makes it duplicated; removing the
/// second subject makes it unique again; removing the first leaves the
/// index without any recorded membership.
pub proof fn lemma_duplicate_round_trip(
    d0: IdentityIndex,
    d1: IdentityIndex,
    d2: IdentityIndex,
    d3: IdentityIndex,
    d4: IdentityIndex,
    h: Seq<char>,
    a: Seq<char>,
    b: Seq<char>,
)
    requires
        a != b,
        d0.spec_empty(),
        forall|k: Seq<char>, n: Seq<char>|
            #[trigger] d1.holds(k, n) == (d0.holds(k, n) || (k == h && n == a)),
        forall|k: Seq<char>, n: Seq<char>|
            #[trigger] d2.holds(k, n) == (d1.holds(k, n) || (k == h && n == b)),
        forall|k: Seq<char>, n: Seq<char>| #[trigger] d3.holds(k, n) == (d2.holds(k, n) && n != b),
        forall|k: Seq<char>, n: Seq<char>| #[trigger] d4.holds(k, n) == (d3.holds(k, n) && n != a),
    ensures
        d2.spec_duplicated(h),
        !d3.spec_duplicated(h),
        forall|k: Seq<char>, n: Seq<char>| !(#[trigger] d4.holds(k, n)),
{
    assert forall|k: Seq<char>, n: Seq<char>| !(#[trigger] d0.holds(k, n)) by {
        if d0.holds(k, n) {
            let (i, q) = choose|i: int, q: int| d0.holds_at(k, n, i, q);
        }
    }
    assert(d2.holds(h, a));
    assert(d2.holds(h, b));
    assert(d2.spec_duplicated(h));
    if d3.spec_duplicated(h) {
        let (n1, n2) = choose|n1: Seq<char>, n2: Seq<char>|
            d3.holds(h, n1) && d3.holds(h, n2) && n1 != n2;
        assert(n1 == a && n2 == a);
        assert(false);
    }
}

} // verus!
