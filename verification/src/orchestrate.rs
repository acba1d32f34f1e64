//! Orchestration of one run over many subjects: per-task decisions under
//! cooperative cancellation, ordering of results, and the aggregate status
//! handed to reporting.

use vstd::prelude::*;
use crate::layout::BackupInfo;
use crate::scan::{ScanInfo, spec_sum_bytes, sat_add_u64};
use crate::strutil::{spec_chars_le, string_le};

verus! {

/// What one subject's task decided.
#[derive(Clone, Copy, Debug, PartialEq, Eq, Structural)]
pub enum OperationStepDecision {
    Processed,
    Ignored,
    Cancelled,
}

/// Decides one subject's task: a task that observes the cancellation flag
/// before starting chooses `Cancelled`; a subject that is administratively
/// disabled and was not explicitly named is `Ignored`; everything else is
/// `Processed`.
pub fn step_decision(cancelled: bool, enabled: bool, explicitly_named: bool) -> (r:
    OperationStepDecision)
    ensures
        r == (if cancelled {
            OperationStepDecision::Cancelled
        } else if !enabled && !explicitly_named {
            OperationStepDecision::Ignored
        } else {
            OperationStepDecision::Processed
        }),
{
    if cancelled {
        OperationStepDecision::Cancelled
    } else if !enabled && !explicitly_named {
        OperationStepDecision::Ignored
    } else {
        OperationStepDecision::Processed
    }
}

/// The result a task reports for a subject that observed cancellation
/// before doing any work: an empty scan, an empty report, and the
/// `Cancelled` decision.
pub fn cancelled_step(name: &String) -> (r: (ScanInfo, BackupInfo, OperationStepDecision))
    ensures
        r.0.game_name@ == name@,
        r.0.found_files@.len() == 0,
        r.0.found_registry_keys@.len() == 0,
        r.0.backup is None,
        r.1.failed_files@.len() == 0,
        r.1.failed_registry@.len() == 0,
        r.2 == OperationStepDecision::Cancelled,
{
    let scan = ScanInfo {
        game_name: name.clone(),
        found_files: Vec::new(),
        found_registry_keys: Vec::new(),
        available_backups: Vec::new(),
        backup: None,
    };
    (scan, BackupInfo::default(), OperationStepDecision::Cancelled)
}

/// The ongoing operation of an interactive session, used to guard against
/// starting a second operation and to remember a pending cancellation.
#[derive(Clone, Copy, Debug, PartialEq, Eq, Structural)]
pub enum OngoingOperation {
    Backup,
    CancelBackup,
    PreviewBackup,
    CancelPreviewBackup,
    Restore,
    CancelRestore,
    PreviewRestore,
    CancelPreviewRestore,
}

impl OngoingOperation {
    /// True for the restore-side operations.
    pub fn restoring(&self) -> (r: bool)
        ensures
            r == (*self == OngoingOperation::Restore || *self == OngoingOperation::CancelRestore
                || *self == OngoingOperation::PreviewRestore || *self
                == OngoingOperation::CancelPreviewRestore),
    {
        matches!(
            self,
            OngoingOperation::Restore
                | OngoingOperation::CancelRestore
                | OngoingOperation::PreviewRestore
                | OngoingOperation::CancelPreviewRestore
        )
    }

    /// True once cancellation was requested.
    pub fn cancelling(&self) -> (r: bool)
        ensures
            r == (*self == OngoingOperation::CancelBackup || *self
                == OngoingOperation::CancelPreviewBackup || *self == OngoingOperation::CancelRestore
                || *self == OngoingOperation::CancelPreviewRestore),
    {
        matches!(
            self,
            OngoingOperation::CancelBackup
                | OngoingOperation::CancelPreviewBackup
                | OngoingOperation::CancelRestore
                | OngoingOperation::CancelPreviewRestore
        )
    }

    /// The operation after a cancellation request.
    pub fn cancelled(&self) -> (r: Self)
        ensures
            r == (match *self {
                OngoingOperation::Backup => OngoingOperation::CancelBackup,
                OngoingOperation::PreviewBackup => OngoingOperation::CancelPreviewBackup,
                OngoingOperation::Restore => OngoingOperation::CancelRestore,
                OngoingOperation::PreviewRestore => OngoingOperation::CancelPreviewRestore,
                other => other,
            }),
    {
        match self {
            OngoingOperation::Backup => OngoingOperation::CancelBackup,
            OngoingOperation::PreviewBackup => OngoingOperation::CancelPreviewBackup,
            OngoingOperation::Restore => OngoingOperation::CancelRestore,
            OngoingOperation::PreviewRestore => OngoingOperation::CancelPreviewRestore,
            other => *other,
        }
    }

    /// The operation a session enters when it starts work while idle.
    pub fn begin(restoring: bool, preview: bool) -> (r: Self)
        ensures
            r == (if restoring {
                if preview {
                    OngoingOperation::PreviewRestore
                } else {
                    OngoingOperation::Restore
                }
            } else {
                if preview {
                    OngoingOperation::PreviewBackup
                } else {
                    OngoingOperation::Backup
                }
            }),
    {
        if restoring {
            if preview {
                OngoingOperation::PreviewRestore
            } else {
                OngoingOperation::Restore
            }
        } else {
            if preview {
                OngoingOperation::PreviewBackup
            } else {
                OngoingOperation::Backup
            }
        }
    }
}

/// The aggregate counters of one run, as reporting displays them.
#[derive(Clone, Copy, Debug, PartialEq, Eq, Structural)]
pub struct OperationStatus {
    pub total_games: u64,
    pub total_bytes: u64,
    pub processed_games: u64,
    pub processed_bytes: u64,
}

impl Default for OperationStatus {
    fn default() -> (r: Self)
        ensures
            r.total_games == 0,
            r.total_bytes == 0,
            r.processed_games == 0,
            r.processed_bytes == 0,
    {
        OperationStatus { total_games: 0, total_bytes: 0, processed_games: 0, processed_bytes: 0 }
    }
}

impl OperationStatus {
    /// Accounts one subject's result: its bytes always count toward the
    /// totals, and toward the processed counters only when the subject was
    /// actually processed; additions saturate.
    pub fn add_game(&mut self, scan: &ScanInfo, backup_info: &Option<BackupInfo>, processed: bool)
        ensures
            final(self).total_games == sat_add_u64(old(self).total_games as nat, 1),
            final(self).total_bytes == sat_add_u64(
                old(self).total_bytes as nat,
                spec_sum_bytes(scan.found_files@, None),
            ),
            processed ==> final(self).processed_games == sat_add_u64(
                old(self).processed_games as nat,
                1,
            ) && final(self).processed_bytes == sat_add_u64(
                old(self).processed_bytes as nat,
                spec_sum_bytes(scan.found_files@, *backup_info),
            ),
            !processed ==> final(self).processed_games == old(self).processed_games && final(
                self).processed_bytes == old(self).processed_bytes,
    {
        self.total_games = sat_add_exec(self.total_games, 1);
        let total = scan.sum_bytes(None);
        self.total_bytes = sat_add_exec(self.total_bytes, total);
        if processed {
            self.processed_games = sat_add_exec(self.processed_games, 1);
            let processed_bytes = match backup_info {
                Some(bi) => scan.sum_bytes(Some(bi)),
                None => scan.sum_bytes(None),
            };
            proof {
                match backup_info {
                    Some(bi) => {},
                    None => {},
                }
            }
            self.processed_bytes = sat_add_exec(self.processed_bytes, processed_bytes);
        }
    }
}

/// Saturating 64-bit addition.
pub fn sat_add_exec(a: u64, b: u64) -> (r: u64)
    ensures
        r == sat_add_u64(a as nat, b as nat),
{
    if a <= u64::MAX - b {
        a + b
    } else {
        u64::MAX
    }
}

/// One subject's completed step, as aggregation and reporting consume it.
pub struct StepResult {
    pub name: String,
    pub scan: ScanInfo,
    pub backup_info: BackupInfo,
    pub decision: OperationStepDecision,
}

/// How a finished run's results are ordered for reporting.
#[derive(Clone, Copy, Debug, PartialEq, Eq, Structural)]
pub enum SortKey {
    Name,
    Size,
}

/// A reporting order: a key and a direction.
#[derive(Clone, Copy, Debug, PartialEq, Eq, Structural)]
pub struct Sort {
    pub key: SortKey,
    pub reversed: bool,
}

impl Default for Sort {
    fn default() -> (r: Self)
        ensures
            r.key == SortKey::Name,
            !r.reversed,
    {
        Sort { key: SortKey::Name, reversed: false }
    }
}

/// True when `v` is ordered by subject name.
pub open spec fn spec_sorted_by_name(v: Seq<StepResult>) -> bool {
    forall|i: int, j: int|
        0 <= i < j < v.len() ==> spec_chars_le((#[trigger] v[i]).name@, (#[trigger] v[j]).name@)
}

/// Orders a run's results by subject name, ascending; the result holds the
/// same entries. A reversed or size-keyed order is derived from this one by
/// the caller.
#[verifier::loop_isolation(false)]
pub fn sort_results_by_name(v: Vec<StepResult>) -> (r: Vec<StepResult>)
    ensures
        spec_sorted_by_name(r@),
        r@.len() == v@.len(),
        forall|i: int| 0 <= i < r@.len() ==> v@.contains(#[trigger] r@[i]),
        forall|j: int| 0 <= j < v@.len() ==> r@.contains(#[trigger] v@[j]),
{
    let mut work = v;
    let mut out: Vec<StepResult> = Vec::new();
    let ghost orig = work@;
    proof {
        assert forall|j: int| 0 <= j < orig.len() implies orig.contains(#[trigger] orig[j]) by {
            assert(orig[j] == orig[j]);
        }
    }
    while work.len() > 0
        invariant
            out@.len() + work@.len() == orig.len(),
            spec_sorted_by_name(out@),
            // everything still to place is no smaller than what is placed
            forall|i: int, j: int|
                0 <= i < out@.len() && 0 <= j < work@.len() ==> spec_chars_le(
                    (#[trigger] out@[i]).name@,
                    (#[trigger] work@[j]).name@,
                ),
            forall|i: int| 0 <= i < out@.len() ==> orig.contains(#[trigger] out@[i]),
            forall|j: int| 0 <= j < work@.len() ==> orig.contains(#[trigger] work@[j]),
            forall|j: int|
                0 <= j < orig.len() ==> out@.contains(#[trigger] orig[j]) || work@.contains(
                    orig[j],
                ),
        decreases work@.len(),
    {
        // find the least remaining name
        let mut min: usize = 0;
        let mut t: usize = 1;
        proof {
            crate::strutil::lemma_chars_le_total(work@[0].name@, work@[0].name@);
        }
        while t < work.len()
            invariant
                min < work@.len(),
                t <= work@.len(),
                forall|j: int|
                    0 <= j < t ==> spec_chars_le(work@[min as int].name@, (#[trigger] work@[j]).name@),
            decreases work@.len() - t,
        {
            if string_le(&work[t].name, &work[min].name) {
                proof {
                    assert forall|j: int|
                        0 <= j < t + 1 implies spec_chars_le(
                            work@[t as int].name@,
                            (#[trigger] work@[j]).name@,
                        ) by {
                        if j == t {
                            crate::strutil::lemma_chars_le_total(
                                work@[t as int].name@,
                                work@[t as int].name@,
                            );
                        } else {
                            crate::strutil::lemma_chars_le_trans(
                                work@[t as int].name@,
                                work@[min as int].name@,
                                work@[j].name@,
                            );
                        }
                    }
                }
                min = t;
            } else {
                proof {
                    crate::strutil::lemma_chars_le_total(work@[t as int].name@, work@[min as int].name@);
                }
            }
            t += 1;
        }
        let ghost work_before = work@;
        let ghost out_before = out@;
        let picked = work.remove(min);
        out.push(picked);
        proof {
            assert(work@ =~= work_before.remove(min as int));
            assert(out@ =~= out_before.push(work_before[min as int]));
            assert forall|i: int, j: int|
                0 <= i < out@.len() && 0 <= j < work@.len() implies spec_chars_le(
                    (#[trigger] out@[i]).name@,
                    (#[trigger] work@[j]).name@,
                ) by {
                let wj: int = if j < min { j } else { j + 1 };
                assert(work@[j] == work_before[wj]);
                if i < out_before.len() {
                    assert(spec_chars_le(out@[i].name@, work_before[wj].name@));
                } else {
                    assert(out@[i] == work_before[min as int]);
                    assert(spec_chars_le(work_before[min as int].name@, work_before[wj].name@));
                }
            }
            assert forall|i: int, j: int|
                0 <= i < j < out@.len() implies spec_chars_le(
                    (#[trigger] out@[i]).name@,
                    (#[trigger] out@[j]).name@,
                ) by {
                if j < out_before.len() {
                    assert(spec_chars_le(out_before[i].name@, out_before[j].name@));
                } else {
                    assert(out@[j] == work_before[min as int]);
                    assert(spec_chars_le(out_before[i].name@, work_before[min as int].name@));
                }
            }
            assert forall|j: int| 0 <= j < work@.len() implies orig.contains(
                #[trigger] work@[j],
            ) by {
                let wj: int = if j < min { j } else { j + 1 };
                assert(work@[j] == work_before[wj]);
            }
            assert forall|j: int|
                0 <= j < orig.len() implies out@.contains(#[trigger] orig[j]) || work@.contains(
                    orig[j],
                ) by {
                if out_before.contains(orig[j]) {
                    let q = choose|q: int| 0 <= q < out_before.len() && out_before[q] == orig[j];
                    assert(out@[q] == orig[j]);
                    assert(out@.contains(orig[j]));
                } else {
                    assert(work_before.contains(orig[j]));
                    let q = choose|q: int| 0 <= q < work_before.len() && work_before[q] == orig[j];
                    if q == min {
                        assert(out@[out@.len() - 1] == orig[j]);
                        assert(out@.contains(orig[j]));
                    } else if q < min {
                        assert(work@[q] == orig[j]);
                        assert(work@.contains(orig[j]));
                    } else {
                        assert(work@[q - 1] == orig[j]);
                        assert(work@.contains(orig[j]));
                    }
                }
            }
        }
    }
    out
}

} // verus!
