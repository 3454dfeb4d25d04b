//! Recovery of a transaction that died in flight.
//!
//! A journal found on a later run means a transaction did not finish.
//! Recovery classifies every file by what is on disk and finishes the
//! transaction, rolls it back, or reports a conflict without touching
//! anything. Like the transaction itself it is a state machine:
//! [`RecRun::action`] names the call that is due, [`RecRun::advance`]
//! takes what came of it.
//!
//! A file is either installed (the destination holds its candidate),
//! validated (the destination holds the bytes the plan validated), or
//! away: the process died between the two renames of a swap, so the
//! destination is gone and its validated bytes are in the backup. A
//! destination that is none of these was written by someone else.
//!
//! A transaction that swapped a file is finished, when every candidate
//! it needs is still staged. One that swapped nothing is rolled back. One
//! that swapped a file and lacks a candidate is a conflict.

use crate::paths::{FsPath, FsPathV};
use crate::persist::{fp, Journal, JournalFileV, JournalState, JournalV};
use crate::transaction::{Event, EventV};
use vstd::prelude::*;

verus! {

/// What recovery did about a journal it found.
#[derive(Debug, PartialEq, Eq)]
pub enum RecoveryOutcome {
    /// No pending journal — nothing to do.
    Clean,
    /// The transaction had committed (or was finished now): every
    /// file holds its `after` bytes; artifacts cleaned.
    Committed { tx: String, files: usize },
    /// Nothing had swapped; staged files and journal removed —
    /// every file holds its `before` bytes.
    RolledBack { tx: String, files: usize },
    /// A file holds neither `before` nor `after` — someone else
    /// wrote it — or a candidate that is needed is gone. Journal and
    /// backups are preserved; do not touch.
    Conflict { tx: String, path: FsPath },
}

/// Model of [`RecoveryOutcome`].
#[verifier::ext_equal]
#[allow(inconsistent_fields)]
pub enum RecoveryOutcomeV {
    Clean,
    Committed { tx: Seq<char>, files: usize },
    RolledBack { tx: Seq<char>, files: usize },
    Conflict { tx: Seq<char>, path: FsPathV },
}

impl RecoveryOutcome {
    /// The model of this outcome.
    pub open spec fn view(&self) -> RecoveryOutcomeV {
        match self {
            RecoveryOutcome::Clean => RecoveryOutcomeV::Clean,
            RecoveryOutcome::Committed { tx, files } => RecoveryOutcomeV::Committed {
                tx: tx@,
                files: *files,
            },
            RecoveryOutcome::RolledBack { tx, files } => RecoveryOutcomeV::RolledBack {
                tx: tx@,
                files: *files,
            },
            RecoveryOutcome::Conflict { tx, path } => RecoveryOutcomeV::Conflict {
                tx: tx@,
                path: path@,
            },
        }
    }
}

/// What a directory's recovery came to: one outcome per journal, or
/// clean when there was none.
pub open spec fn recovered(os: Seq<RecoveryOutcome>) -> Seq<RecoveryOutcome> {
    if os.len() == 0 {
        seq![RecoveryOutcome::Clean]
    } else {
        os
    }
}

/// What a directory's recovery came to, from the outcome of each of its
/// journals.
pub fn recover_all(outcomes: Vec<RecoveryOutcome>) -> (r: Vec<RecoveryOutcome>)
    ensures
        r@ == recovered(outcomes@),
{
    if outcomes.len() > 0 {
        return outcomes;
    }
    let mut out = outcomes;
    out.push(RecoveryOutcome::Clean);
    proof {
        assert(out@ =~= seq![RecoveryOutcome::Clean]);
    }
    out
}

/// What recovery found of a file.
#[derive(Clone, Copy, Debug, PartialEq, Eq, Structural)]
pub enum Found {
    /// The destination holds its candidate.
    Installed,
    /// The destination holds its validated bytes.
    Validated,
    /// The destination is gone, its validated bytes are in the backup.
    Away,
}

/// Which files are looked for.
#[derive(Clone, Copy, Debug, PartialEq, Eq, Structural)]
pub enum Sort {
    /// Those whose candidate is not in place.
    Waiting,
    /// Those whose candidate is in place of something else.
    Swapped,
    /// Those that are away.
    Away,
}

/// Where a recovery stands: the call it waits for. Indexes are files of
/// the journal.
#[derive(Clone, Copy, Debug, PartialEq, Eq, Structural)]
pub enum RecPc {
    /// Reading destination `i`.
    ReadDest(usize),
    /// Reading backup `i`: the destination is gone.
    ReadBak(usize),
    /// Reading stage `i`, which is to be installed.
    ReadStage(usize),
    /// Moving destination `i` to its backup.
    Backup(usize),
    /// Moving stage `i` into place.
    Promote(usize),
    /// Recording that file `i` swapped.
    JournalSwap(usize),
    /// Moving backup `i` back into place.
    Restore(usize),
    /// Removing stage `k`; the files need nothing more.
    CleanStage(usize),
    /// Removing backup `k`; the files need nothing more.
    CleanBak(usize),
    /// Recording that the transaction is done.
    JournalDone,
    /// Removing the journal; the files need nothing more.
    CleanJournal,
    /// Nothing is due.
    Finished,
}

/// One file-system call of a recovery; indexes are journal files.
#[derive(Clone, Copy, Debug, PartialEq, Eq, Structural)]
pub enum RecAction {
    /// Read destination `i`.
    ReadDest(usize),
    /// Read stage `i`.
    ReadStage(usize),
    /// Read backup `i`.
    ReadBak(usize),
    /// Rename destination `i` to its backup.
    DestToBak(usize),
    /// Rename stage `i` to its destination.
    StageToDest(usize),
    /// Rename backup `i` to its destination.
    BakToDest(usize),
    /// Write the journal.
    WriteJournal,
    /// Remove stage `i`.
    RemoveStage(usize),
    /// Remove backup `i`.
    RemoveBak(usize),
    /// Remove the journal.
    RemoveJournal,
    /// Recovery is over.
    Stop,
}

/// A running recovery.
pub struct RecRun {
    jpath: FsPath,
    journal: Journal,
    found: Vec<Found>,
    pc: RecPc,
    outcome: RecoveryOutcome,
}

/// Model of [`RecRun`]: `found` is what was found of the files so far.
#[verifier::ext_equal]
pub struct RecRunV {
    pub jpath: FsPathV,
    pub journal: JournalV,
    pub found: Seq<Found>,
    pub pc: RecPc,
    pub outcome: RecoveryOutcomeV,
}

/// The number of files of the journal.
pub open spec fn rec_len(r: RecRunV) -> int {
    r.journal.files.len() as int
}

/// Whether validated bytes and candidate of a file differ, as far as
/// their digests tell.
pub open spec fn is_changed(f: JournalFileV) -> bool {
    f.before_fp != f.after_fp
}

/// Whether file `i` is of a sort.
pub open spec fn wanted(r: RecRunV, t: Sort, i: int) -> bool {
    match t {
        Sort::Waiting => r.found[i] != Found::Installed,
        Sort::Swapped => r.found[i] == Found::Installed && is_changed(r.journal.files[i]),
        Sort::Away => r.found[i] == Found::Away,
    }
}

/// The first file from `i` on that is of a sort; the number of files
/// when there is none.
pub open spec fn next_of(r: RecRunV, t: Sort, i: int) -> int
    decreases rec_len(r) - i,
{
    if i >= rec_len(r) {
        rec_len(r)
    } else if wanted(r, t, i) {
        i
    } else {
        next_of(r, t, i + 1)
    }
}

/// The run at another point.
pub open spec fn rec_goto(r: RecRunV, pc: RecPc) -> RecRunV {
    RecRunV { pc, ..r }
}

/// The run stopped at a file nobody can account for.
pub open spec fn rec_conflict(r: RecRunV, path: FsPathV) -> RecRunV {
    RecRunV {
        pc: RecPc::Finished,
        outcome: RecoveryOutcomeV::Conflict { tx: r.journal.tx, path },
        ..r
    }
}

/// Nothing but the journal is left. One that was finished now is
/// recorded as done first.
pub open spec fn rec_cleaned(r: RecRunV) -> RecRunV {
    if r.outcome is Committed && next_of(r, Sort::Waiting, 0) < rec_len(r) {
        RecRunV {
            journal: JournalV { state: JournalState::Done, ..r.journal },
            pc: RecPc::JournalDone,
            ..r
        }
    } else {
        rec_goto(r, RecPc::CleanJournal)
    }
}

/// The files are settled: on to removing artifacts.
pub open spec fn rec_clean(r: RecRunV, outcome: RecoveryOutcomeV) -> RecRunV {
    let s = RecRunV { outcome, ..r };
    if rec_len(r) > 0 {
        rec_goto(s, RecPc::CleanStage(0))
    } else {
        rec_cleaned(s)
    }
}

/// On to putting back what is away from file `i` on, or to cleaning up.
pub open spec fn rec_restore(r: RecRunV, i: int) -> RecRunV {
    let k = next_of(r, Sort::Away, i);
    if k < rec_len(r) {
        rec_goto(r, RecPc::Restore(k as usize))
    } else {
        rec_clean(
            r,
            RecoveryOutcomeV::RolledBack { tx: r.journal.tx, files: rec_len(r) as usize },
        )
    }
}

/// On to installing the next file from `i` on, or to cleaning up.
pub open spec fn rec_swap(r: RecRunV, i: int) -> RecRunV {
    let k = next_of(r, Sort::Waiting, i);
    if k < rec_len(r) {
        rec_goto(
            r,
            if r.found[k] == Found::Away {
                RecPc::Promote(k as usize)
            } else {
                RecPc::Backup(k as usize)
            },
        )
    } else {
        rec_clean(
            r,
            RecoveryOutcomeV::Committed { tx: r.journal.tx, files: rec_len(r) as usize },
        )
    }
}

/// On to the candidate of the next file to install from `i` on, or to
/// installing them: nothing moves before every candidate was found.
pub open spec fn rec_verify(r: RecRunV, i: int) -> RecRunV {
    let k = next_of(r, Sort::Waiting, i);
    if k < rec_len(r) {
        rec_goto(r, RecPc::ReadStage(k as usize))
    } else {
        rec_swap(r, 0)
    }
}

/// Every file is classified: finish a transaction that swapped a file,
/// or that has nothing left to swap; roll back one that swapped none.
pub open spec fn rec_decide(r: RecRunV) -> RecRunV {
    if next_of(r, Sort::Waiting, 0) >= rec_len(r) || next_of(r, Sort::Swapped, 0) < rec_len(r) {
        rec_verify(r, 0)
    } else {
        rec_restore(r, 0)
    }
}

/// On to classifying file `i`, or to the decision behind the last.
pub open spec fn rec_classify(r: RecRunV, i: int) -> RecRunV {
    if i < rec_len(r) {
        rec_goto(r, RecPc::ReadDest(i as usize))
    } else {
        rec_decide(r)
    }
}

/// File `i` was found in a state: on to the next.
pub open spec fn rec_found(r: RecRunV, i: usize, f: Found) -> RecRunV {
    rec_classify(RecRunV { found: r.found.push(f), ..r }, i + 1)
}

/// File `k` swapped.
pub open spec fn rec_swapped(r: RecRunV, k: usize) -> RecRunV {
    RecRunV {
        journal: JournalV {
            files: r.journal.files.update(
                k as int,
                JournalFileV { swapped: true, ..r.journal.files[k as int] },
            ),
            ..r.journal
        },
        ..r
    }
}

/// The run after `ev` answered the call it waited for. An event that
/// does not answer that call changes nothing.
pub open spec fn rec_step(r: RecRunV, ev: EventV) -> RecRunV {
    let f = r.journal.files;
    match (r.pc, ev) {
        (RecPc::ReadDest(i), EventV::Bytes(b)) => if crate::persist::fnv(b)
            == f[i as int].after_fp {
            rec_found(r, i, Found::Installed)
        } else if crate::persist::fnv(b) == f[i as int].before_fp {
            rec_found(r, i, Found::Validated)
        } else {
            rec_conflict(r, f[i as int].path)
        },
        (RecPc::ReadDest(i), EventV::Failed { message: _, missing }) => if missing {
            rec_goto(r, RecPc::ReadBak(i))
        } else {
            rec_conflict(r, f[i as int].path)
        },
        (RecPc::ReadBak(i), EventV::Bytes(b)) => if crate::persist::fnv(b)
            == f[i as int].before_fp {
            rec_found(r, i, Found::Away)
        } else {
            rec_conflict(r, f[i as int].path)
        },
        (RecPc::ReadBak(i), EventV::Failed { .. }) => rec_conflict(r, f[i as int].path),
        (RecPc::ReadStage(k), EventV::Bytes(b)) => if crate::persist::fnv(b)
            == f[k as int].after_fp {
            rec_verify(r, k + 1)
        } else {
            rec_conflict(r, f[k as int].stage)
        },
        (RecPc::ReadStage(k), EventV::Failed { .. }) => rec_conflict(r, f[k as int].stage),
        (RecPc::Backup(k), EventV::Done) => rec_goto(r, RecPc::Promote(k)),
        (RecPc::Backup(k), EventV::Failed { .. }) => rec_conflict(r, f[k as int].path),
        (RecPc::Promote(k), EventV::Done) => rec_goto(rec_swapped(r, k), RecPc::JournalSwap(k)),
        (RecPc::Promote(k), EventV::Failed { .. }) => rec_conflict(r, f[k as int].path),
        (RecPc::JournalSwap(k), _) => rec_swap(r, k + 1),
        (RecPc::Restore(k), EventV::Done) => rec_restore(r, k + 1),
        (RecPc::Restore(k), EventV::Failed { .. }) => rec_conflict(r, f[k as int].path),
        (RecPc::CleanStage(k), _) => rec_goto(r, RecPc::CleanBak(k)),
        (RecPc::CleanBak(k), _) => if k + 1 < f.len() {
            rec_goto(r, RecPc::CleanStage((k + 1) as usize))
        } else {
            rec_cleaned(r)
        },
        (RecPc::JournalDone, _) => rec_goto(r, RecPc::CleanJournal),
        (RecPc::CleanJournal, _) => rec_goto(r, RecPc::Finished),
        _ => r,
    }
}

/// Whether the points of a recovery name files of its journal.
pub open spec fn rec_wf(r: RecRunV) -> bool {
    &&& r.journal.files.len() <= usize::MAX
    &&& match r.pc {
        RecPc::ReadDest(i) | RecPc::ReadBak(i) => i < rec_len(r) && r.found.len() == i,
        RecPc::ReadStage(k)
        | RecPc::Backup(k)
        | RecPc::Promote(k)
        | RecPc::JournalSwap(k)
        | RecPc::Restore(k)
        | RecPc::CleanStage(k)
        | RecPc::CleanBak(k) => k < rec_len(r) && r.found.len() == rec_len(r),
        RecPc::JournalDone | RecPc::CleanJournal => r.found.len() == rec_len(r),
        RecPc::Finished => true,
    }
}

/// The call a point of a recovery waits for.
pub open spec fn rec_action(r: RecRunV) -> RecAction {
    match r.pc {
        RecPc::ReadDest(i) => RecAction::ReadDest(i),
        RecPc::ReadBak(i) => RecAction::ReadBak(i),
        RecPc::ReadStage(k) => RecAction::ReadStage(k),
        RecPc::Backup(k) => RecAction::DestToBak(k),
        RecPc::Promote(k) => RecAction::StageToDest(k),
        RecPc::JournalSwap(_) => RecAction::WriteJournal,
        RecPc::Restore(k) => RecAction::BakToDest(k),
        RecPc::CleanStage(k) => RecAction::RemoveStage(k),
        RecPc::CleanBak(k) => RecAction::RemoveBak(k),
        RecPc::JournalDone => RecAction::WriteJournal,
        RecPc::CleanJournal => RecAction::RemoveJournal,
        RecPc::Finished => RecAction::Stop,
    }
}

/// A recovery of journal `j`, or of one that could not be read.
pub open spec fn rec_start(jpath: FsPathV, j: Option<JournalV>) -> RecRunV {
    match j {
        None => RecRunV {
            jpath,
            journal: JournalV {
                tx: crate::paths::path_display(jpath),
                state: JournalState::Prepared,
                files: Seq::empty(),
            },
            found: Seq::empty(),
            pc: RecPc::Finished,
            outcome: RecoveryOutcomeV::Conflict {
                tx: crate::paths::path_display(jpath),
                path: jpath,
            },
        },
        Some(journal) => rec_classify(
            RecRunV {
                jpath,
                journal,
                found: Seq::empty(),
                pc: RecPc::Finished,
                outcome: RecoveryOutcomeV::Clean,
            },
            0,
        ),
    }
}

/// What [`next_of`] finds.
pub proof fn lemma_next(r: RecRunV, t: Sort, i: int)
    requires
        0 <= i <= rec_len(r),
    ensures
        i <= next_of(r, t, i) <= rec_len(r),
        next_of(r, t, i) < rec_len(r) ==> wanted(r, t, next_of(r, t, i)),
        forall|k: int| i <= k < next_of(r, t, i) ==> !#[trigger] wanted(r, t, k),
    decreases rec_len(r) - i,
{
    if i < rec_len(r) && !wanted(r, t, i) {
        lemma_next(r, t, i + 1);
    }
}

impl RecRun {
    /// The model of this run.
    pub closed spec fn view(&self) -> RecRunV {
        RecRunV {
            jpath: self.jpath@,
            journal: self.journal@,
            found: self.found@,
            pc: self.pc,
            outcome: self.outcome@,
        }
    }

    /// The call that is due.
    pub fn action(&self) -> (r: RecAction)
        ensures
            r == rec_action(self@),
    {
        match self.pc {
            RecPc::ReadDest(i) => RecAction::ReadDest(i),
            RecPc::ReadBak(i) => RecAction::ReadBak(i),
            RecPc::ReadStage(k) => RecAction::ReadStage(k),
                RecPc::Backup(k) => RecAction::DestToBak(k),
            RecPc::Promote(k) => RecAction::StageToDest(k),
            RecPc::JournalSwap(_) => RecAction::WriteJournal,
                RecPc::Restore(k) => RecAction::BakToDest(k),
            RecPc::CleanStage(k) => RecAction::RemoveStage(k),
            RecPc::CleanBak(k) => RecAction::RemoveBak(k),
            RecPc::JournalDone => RecAction::WriteJournal,
            RecPc::CleanJournal => RecAction::RemoveJournal,
            RecPc::Finished => RecAction::Stop,
        }
    }

    /// The journal as it stands.
    pub fn journal(&self) -> (r: &Journal)
        ensures
            r@ == self@.journal,
    {
        &self.journal
    }

    /// What the finished recovery reports.
    pub fn into_outcome(self) -> (r: RecoveryOutcome)
        ensures
            r@ == self@.outcome,
    {
        self.outcome
    }

    fn conflict(&mut self, path: FsPath)
        ensures
            final(self)@ == rec_conflict(old(self)@, path@),
    {
        self.outcome = RecoveryOutcome::Conflict { tx: self.journal.tx.clone(), path };
        self.pc = RecPc::Finished;
    }

    fn next_of(&self, t: Sort, from: usize) -> (r: usize)
        requires
            from <= rec_len(self@),
            self@.found.len() == rec_len(self@),
        ensures
            r == next_of(self@, t, from as int),
    {
        let n: usize = self.journal.files.len();
        let mut i: usize = from;
        while i < n
            invariant
                i <= n,
                n == rec_len(self@),
                self@.found.len() == n,
                next_of(self@, t, from as int) == next_of(self@, t, i as int),
            decreases n - i,
        {
            let f = &self.journal.files[i];
            assert(self@.journal.files[i as int] == f@);
            let hit = match t {
                Sort::Waiting => self.found[i] != Found::Installed,
                Sort::Swapped => self.found[i] == Found::Installed && f.before_fp != f.after_fp,
                Sort::Away => self.found[i] == Found::Away,
            };
            if hit {
                return i;
            }
            i += 1;
        }
        n
    }

    fn cleaned(&mut self)
        requires
            old(self)@.found.len() == rec_len(old(self)@),
        ensures
            final(self)@ == rec_cleaned(old(self)@),
    {
        let k: usize = self.next_of(Sort::Waiting, 0);
        let committed = match self.outcome {
            RecoveryOutcome::Committed { .. } => true,
            _ => false,
        };
        if committed && k < self.journal.files.len() {
            self.journal.state = JournalState::Done;
            self.pc = RecPc::JournalDone;
        } else {
            self.pc = RecPc::CleanJournal;
        }
    }

    fn clean(&mut self, outcome: RecoveryOutcome)
        requires
            old(self)@.found.len() == rec_len(old(self)@),
        ensures
            final(self)@ == rec_clean(old(self)@, outcome@),
    {
        self.outcome = outcome;
        if self.journal.files.len() > 0 {
            self.pc = RecPc::CleanStage(0);
        } else {
            self.cleaned();
        }
    }

    fn restore(&mut self, from: usize)
        requires
            from <= rec_len(old(self)@),
            old(self)@.found.len() == rec_len(old(self)@),
        ensures
            final(self)@ == rec_restore(old(self)@, from as int),
    {
        let n: usize = self.journal.files.len();
        let k: usize = self.next_of(Sort::Away, from);
        if k < n {
            self.pc = RecPc::Restore(k);
        } else {
            self.clean(RecoveryOutcome::RolledBack { tx: self.journal.tx.clone(), files: n });
        }
    }

    fn swap(&mut self, from: usize)
        requires
            from <= rec_len(old(self)@),
            old(self)@.found.len() == rec_len(old(self)@),
        ensures
            final(self)@ == rec_swap(old(self)@, from as int),
    {
        let n: usize = self.journal.files.len();
        let k: usize = self.next_of(Sort::Waiting, from);
        if k < n {
            if self.found[k] == Found::Away {
                self.pc = RecPc::Promote(k);
            } else {
                self.pc = RecPc::Backup(k);
            }
        } else {
            self.clean(RecoveryOutcome::Committed { tx: self.journal.tx.clone(), files: n });
        }
    }

    fn verify(&mut self, from: usize)
        requires
            from <= rec_len(old(self)@),
            old(self)@.found.len() == rec_len(old(self)@),
        ensures
            final(self)@ == rec_verify(old(self)@, from as int),
    {
        let k: usize = self.next_of(Sort::Waiting, from);
        if k < self.journal.files.len() {
            self.pc = RecPc::ReadStage(k);
        } else {
            self.swap(0);
        }
    }

    fn classify(&mut self, i: usize)
        requires
            i >= rec_len(old(self)@) ==> old(self)@.found.len() == rec_len(old(self)@),
        ensures
            final(self)@ == rec_classify(old(self)@, i as int),
    {
        let n: usize = self.journal.files.len();
        if i < n {
            self.pc = RecPc::ReadDest(i);
        } else if self.next_of(Sort::Waiting, 0) >= n || self.next_of(Sort::Swapped, 0) < n {
            self.verify(0);
        } else {
            self.restore(0);
        }
    }

    fn add(&mut self, i: usize, f: Found)
        requires
            i < rec_len(old(self)@),
            old(self)@.found.len() == i,
        ensures
            final(self)@ == rec_found(old(self)@, i, f),
    {
        assert(rec_len(self@) == self.journal.files.len());
        self.found.push(f);
        self.classify(i + 1);
    }

    fn set_swapped(&mut self, k: usize)
        requires
            k < rec_len(old(self)@),
        ensures
            final(self)@ == rec_swapped(old(self)@, k),
    {
        self.journal.files[k].swapped = true;
        proof {
            assert(self@.journal.files =~= rec_swapped(old(self)@, k).journal.files);
        }
    }

    /// Takes what came of the due call. An event that does not answer
    /// that call changes nothing.
    pub fn advance(&mut self, ev: Event)
        requires
            rec_wf(old(self)@),
        ensures
            final(self)@ == rec_step(old(self)@, ev@),
            rec_wf(final(self)@),
    {
        proof {
            lemma_rec_wf(self@, ev@);
        }
        let n: usize = self.journal.files.len();
        match (self.pc, ev) {
            (RecPc::ReadDest(i), Event::Bytes(b)) => {
                let h: u64 = fp(b.as_slice());
                if h == self.journal.files[i].after_fp {
                    self.add(i, Found::Installed);
                } else if h == self.journal.files[i].before_fp {
                    self.add(i, Found::Validated);
                } else {
                    let p = self.journal.files[i].path.copy();
                    self.conflict(p);
                }
            },
            (RecPc::ReadDest(i), Event::Failed { message: _, missing }) => {
                if missing {
                    self.pc = RecPc::ReadBak(i);
                } else {
                    let p = self.journal.files[i].path.copy();
                    self.conflict(p);
                }
            },
            (RecPc::ReadBak(i), Event::Bytes(b)) => {
                if fp(b.as_slice()) == self.journal.files[i].before_fp {
                    self.add(i, Found::Away);
                } else {
                    let p = self.journal.files[i].path.copy();
                    self.conflict(p);
                }
            },
            (RecPc::ReadBak(i), Event::Failed { .. }) => {
                let p = self.journal.files[i].path.copy();
                self.conflict(p);
            },
            (RecPc::ReadStage(k), Event::Bytes(b)) => {
                if fp(b.as_slice()) == self.journal.files[k].after_fp {
                    self.verify(k + 1);
                } else {
                    let p = self.journal.files[k].stage.copy();
                    self.conflict(p);
                }
            },
            (RecPc::ReadStage(k), Event::Failed { .. }) => {
                let p = self.journal.files[k].stage.copy();
                self.conflict(p);
            },
            (RecPc::Backup(k), Event::Done) => {
                self.pc = RecPc::Promote(k);
            },
            (RecPc::Promote(k), Event::Done) => {
                self.set_swapped(k);
                self.pc = RecPc::JournalSwap(k);
            },
            (RecPc::JournalSwap(k), _) => {
                self.swap(k + 1);
            },
            (RecPc::Restore(k), Event::Done) => {
                self.restore(k + 1);
            },
            (RecPc::Backup(k), Event::Failed { .. }) => {
                let p = self.journal.files[k].path.copy();
                self.conflict(p);
            },
            (RecPc::Promote(k), Event::Failed { .. }) => {
                let p = self.journal.files[k].path.copy();
                self.conflict(p);
            },
            (RecPc::Restore(k), Event::Failed { .. }) => {
                let p = self.journal.files[k].path.copy();
                self.conflict(p);
            },
            (RecPc::CleanStage(k), _) => {
                self.pc = RecPc::CleanBak(k);
            },
            (RecPc::CleanBak(k), _) => {
                if k + 1 < n {
                    self.pc = RecPc::CleanStage(k + 1);
                } else {
                    self.cleaned();
                }
            },
            (RecPc::JournalDone, _) => {
                self.pc = RecPc::CleanJournal;
            },
            (RecPc::CleanJournal, _) => {
                self.pc = RecPc::Finished;
            },
            _ => {},
        }
    }
}

/// Whatever follows the decision is well formed.
proof fn lemma_follow_wf(r: RecRunV, i: int)
    requires
        rec_len(r) <= usize::MAX,
        r.found.len() == rec_len(r),
        0 <= i <= rec_len(r),
    ensures
        rec_wf(rec_restore(r, i)),
        rec_wf(rec_swap(r, i)),
        rec_wf(rec_verify(r, i)),
{
    lemma_next(r, Sort::Away, i);
    lemma_next(r, Sort::Waiting, i);
    lemma_next(r, Sort::Away, 0);
    lemma_next(r, Sort::Waiting, 0);
}

/// A classified recovery is well formed.
proof fn lemma_classify_wf(r: RecRunV, i: int)
    requires
        rec_len(r) <= usize::MAX,
        r.found.len() == i,
        0 <= i <= rec_len(r),
    ensures
        rec_wf(rec_classify(r, i)),
{
    if i == rec_len(r) {
        lemma_follow_wf(r, 0);
    }
}

/// Every step keeps a recovery well formed.
pub proof fn lemma_rec_wf(r: RecRunV, ev: EventV)
    requires
        rec_wf(r),
    ensures
        rec_wf(rec_step(r, ev)),
{
    match r.pc {
        RecPc::ReadDest(i) | RecPc::ReadBak(i) => {
            lemma_classify_wf(RecRunV { found: r.found.push(Found::Installed), ..r }, i + 1);
            lemma_classify_wf(RecRunV { found: r.found.push(Found::Validated), ..r }, i + 1);
            lemma_classify_wf(RecRunV { found: r.found.push(Found::Away), ..r }, i + 1);
        },
        RecPc::ReadStage(k) => {
            lemma_follow_wf(r, k + 1);
        },
        RecPc::JournalSwap(k) | RecPc::Restore(k) => {
            lemma_follow_wf(r, k + 1);
        },
        _ => {},
    }
}

/// Starts recovery of the journal at `jpath`; `None` when it could not
/// be read or parsed.
pub fn recover_one(jpath: &FsPath, j: Option<Journal>) -> (r: RecRun)
    ensures
        r@ == rec_start(
            jpath@,
            match j {
                Some(x) => Some(x@),
                None => None,
            },
        ),
        rec_wf(r@),
{
    match j {
        None => {
            let r = RecRun {
                jpath: jpath.copy(),
                journal: Journal {
                    tx: jpath.display(),
                    state: JournalState::Prepared,
                    files: Vec::new(),
                },
                found: Vec::new(),
                pc: RecPc::Finished,
                outcome: RecoveryOutcome::Conflict { tx: jpath.display(), path: jpath.copy() },
            };
            proof {
                assert(r@.journal.files =~= Seq::empty());
                assert(r@.found =~= Seq::empty());
            }
            r
        },
        Some(journal) => {
            let n: usize = journal.files.len();
            let mut r = RecRun {
                jpath: jpath.copy(),
                journal,
                found: Vec::new(),
                pc: RecPc::Finished,
                outcome: RecoveryOutcome::Clean,
            };
            proof {
                assert(r@.found =~= Seq::empty());
                assert(rec_len(r@) == n);
                lemma_classify_wf(r@, 0);
            }
            r.classify(0);
            r
        },
    }
}

} // verus!
