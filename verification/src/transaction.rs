//! The staged transaction as a state machine, and what it guarantees
//! of the disk.
//!
//! [`TxRun::action`] names the one file-system call that is due,
//! [`TxRun::advance`] takes what came of it. [`disk_step`] says what
//! each call may do to a disk nobody else writes to; [`tx_inv`] is what
//! then holds between the run and the disk at every point, and
//! [`law_persist_outcome`] what a finished run left behind.

use crate::paths::{journal_path, starts_with, FsPath, FsPathV};
use crate::persist::{
    FailPoint, Hooks, Journal, JournalFileV, JournalState, JournalV, PersistError, PersistErrorV,
    Phase, TxFile, TxFileV,
};
use crate::text::{cat2, cat3, cat4, cat5};
use vstd::prelude::*;

verus! {

/// Where a transaction stands: the call it waits for.
#[derive(Clone, Copy, Debug, PartialEq, Eq, Structural)]
pub enum Pc {
    /// Looking for journals of other transactions.
    Pending,
    /// Resolving destination `i` and the root.
    Resolve(usize),
    /// Reading the kind of destination `i`.
    Stat(usize),
    /// Reading the bytes of destination `i`.
    Read(usize),
    /// Writing the first journal.
    JournalFirst,
    /// Writing candidate `i` to its stage.
    StageWrite(usize),
    /// Syncing stage `i`.
    StageSync(usize),
    /// Removing stage `k` after staging `at` failed.
    DropStage { at: usize, k: usize },
    /// Removing the journal after staging `at` failed.
    DropJournal { at: usize },
    /// Recording that everything is staged.
    JournalStaged,
    /// Removing stage `k` after that record failed.
    UnstageAll(usize),
    /// Removing the journal after that record failed.
    UnstageJournal,
    /// Recording that swapping starts.
    JournalSwapping,
    /// Moving destination `i` to its backup.
    Backup(usize),
    /// Moving stage `i` to its destination.
    Promote(usize),
    /// Recording that file `i` swapped.
    JournalSwap(usize),
    /// Restoring swapped file `k` after swap `at` failed.
    Restore { at: usize, k: usize },
    /// Removing the stage of unswapped file `k` after swap `at` failed.
    DropRest { at: usize, k: usize },
    /// Testing whether file `at` sits as its backup.
    CheckBak(usize),
    /// Restoring file `at` itself.
    RestoreLast(usize),
    /// Removing the journal after a complete rollback.
    RollbackJournal(usize),
    /// Removing backup `k` after the commit.
    CleanBak(usize),
    /// Recording that the transaction is done.
    JournalDone,
    /// Removing the journal after the commit.
    CleanJournal,
    /// Nothing is due.
    Finished,
}

/// One file-system call.
#[derive(Clone, Copy, Debug, PartialEq, Eq, Structural)]
pub enum Action {
    /// List the pending journals under the root.
    ListJournals,
    /// Resolve the root and destination `i` to canonical paths.
    Resolve(usize),
    /// Read the kind of destination `i`, not following links.
    Stat(usize),
    /// Read destination `i`.
    ReadDest(usize),
    /// Write and sync the journal.
    WriteJournal,
    /// Create stage `i` (it must not exist) and write candidate `i`.
    WriteStage(usize),
    /// Sync stage `i`.
    SyncStage(usize),
    /// Remove stage `i`.
    RemoveStage(usize),
    /// Remove the journal.
    RemoveJournal,
    /// Rename destination `i` to its backup.
    DestToBak(usize),
    /// Rename stage `i` to its destination.
    StageToDest(usize),
    /// Rename backup `i` to its destination.
    BakToDest(usize),
    /// Test whether backup `i` exists.
    TestBak(usize),
    /// Remove backup `i`.
    RemoveBak(usize),
    /// The transaction is over.
    Stop,
}

/// What a directory entry is.
#[derive(Clone, Copy, Debug, PartialEq, Eq, Structural)]
pub enum FileKind {
    /// A regular file.
    Regular,
    /// A symbolic link.
    Symlink,
    /// Anything else.
    Other,
}

/// What came of a file-system call.
#[derive(Debug)]
pub enum Event {
    /// The call succeeded.
    Done,
    /// The call failed; `missing` when the file was not there.
    Failed { message: String, missing: bool },
    /// The pending journals.
    Found(Vec<FsPath>),
    /// The canonical root and destination.
    Located { root: FsPath, path: FsPath },
    /// The kind of the destination.
    Kind(FileKind),
    /// The bytes of the destination.
    Bytes(Vec<u8>),
    /// Whether the file exists.
    Exists(bool),
}

/// Model of [`Event`].
#[verifier::ext_equal]
pub enum EventV {
    Done,
    Failed { message: Seq<char>, missing: bool },
    Found(Seq<FsPathV>),
    Located { root: FsPathV, path: FsPathV },
    Kind(FileKind),
    Bytes(Seq<u8>),
    Exists(bool),
}

impl Event {
    /// The model of this event.
    pub open spec fn view(&self) -> EventV {
        match self {
            Event::Done => EventV::Done,
            Event::Failed { message, missing } => EventV::Failed {
                message: message@,
                missing: *missing,
            },
            Event::Found(v) => EventV::Found(crate::paths::fs_paths(v@)),
            Event::Located { root, path } => EventV::Located { root: root@, path: path@ },
            Event::Kind(k) => EventV::Kind(*k),
            Event::Bytes(b) => EventV::Bytes(b@),
            Event::Exists(b) => EventV::Exists(*b),
        }
    }
}

/// A running transaction.
pub struct TxRun {
    root: FsPath,
    files: Vec<TxFile>,
    hooks: Hooks,
    jpath: FsPath,
    journal: Journal,
    pc: Pc,
    cause: String,
    errors: Vec<String>,
    outcome: Result<(), PersistError>,
}

/// Model of [`TxRun`].
#[verifier::ext_equal]
pub struct TxRunV {
    pub root: FsPathV,
    pub files: Seq<TxFileV>,
    pub fail: Option<FailPoint>,
    pub jpath: FsPathV,
    pub journal: JournalV,
    pub pc: Pc,
    pub cause: Seq<char>,
    pub errors: Seq<Seq<char>>,
    pub outcome: Result<(), PersistErrorV>,
}

/// The model of an outcome.
pub open spec fn outcome_of(r: Result<(), PersistError>) -> Result<(), PersistErrorV> {
    match r {
        Ok(()) => Ok(()),
        Err(e) => Err(e@),
    }
}

/// The call a point of the transaction waits for.
pub open spec fn action_at(pc: Pc) -> Action {
    match pc {
        Pc::Pending => Action::ListJournals,
        Pc::Resolve(i) => Action::Resolve(i),
        Pc::Stat(i) => Action::Stat(i),
        Pc::Read(i) => Action::ReadDest(i),
        Pc::JournalFirst => Action::WriteJournal,
        Pc::StageWrite(i) => Action::WriteStage(i),
        Pc::StageSync(i) => Action::SyncStage(i),
        Pc::DropStage { at: _, k } => Action::RemoveStage(k),
        Pc::DropJournal { at: _ } => Action::RemoveJournal,
        Pc::JournalStaged => Action::WriteJournal,
        Pc::UnstageAll(k) => Action::RemoveStage(k),
        Pc::UnstageJournal => Action::RemoveJournal,
        Pc::JournalSwapping => Action::WriteJournal,
        Pc::Backup(i) => Action::DestToBak(i),
        Pc::Promote(i) => Action::StageToDest(i),
        Pc::JournalSwap(_) => Action::WriteJournal,
        Pc::Restore { at: _, k } => Action::BakToDest(k),
        Pc::DropRest { at: _, k } => Action::RemoveStage(k),
        Pc::CheckBak(i) => Action::TestBak(i),
        Pc::RestoreLast(i) => Action::BakToDest(i),
        Pc::RollbackJournal(_) => Action::RemoveJournal,
        Pc::CleanBak(k) => Action::RemoveBak(k),
        Pc::JournalDone => Action::WriteJournal,
        Pc::CleanJournal => Action::RemoveJournal,
        Pc::Finished => Action::Stop,
    }
}

/// The text of destination `i`.
pub open spec fn dest_text(r: TxRunV, i: usize) -> Seq<char> {
    crate::paths::path_display(r.files[i as int].path)
}

/// The text of stage `i`.
pub open spec fn stage_text(r: TxRunV, i: usize) -> Seq<char> {
    crate::paths::path_display(r.journal.files[i as int].stage)
}

/// The text of backup `i`.
pub open spec fn bak_text(r: TxRunV, i: usize) -> Seq<char> {
    crate::paths::path_display(r.journal.files[i as int].bak)
}

/// The run at another point.
pub open spec fn goto(r: TxRunV, pc: Pc) -> TxRunV {
    TxRunV { pc, ..r }
}

/// The run with its journal in another state.
pub open spec fn record(r: TxRunV, state: JournalState) -> TxRunV {
    TxRunV { journal: JournalV { state, ..r.journal }, ..r }
}

/// The run stopped with an error.
pub open spec fn stop(r: TxRunV, e: PersistErrorV) -> TxRunV {
    TxRunV { pc: Pc::Finished, outcome: Err(e), ..r }
}

/// The run stopped with a plain error of one phase.
pub open spec fn stop_in(r: TxRunV, phase: Phase, message: Seq<char>) -> TxRunV {
    stop(r, crate::persist::persist_error(phase, message))
}

/// The run stopped for recovery: its journal stays.
pub open spec fn stop_for_recovery(r: TxRunV, message: Seq<char>, errors: Seq<Seq<char>>) -> TxRunV {
    stop(
        r,
        PersistErrorV {
            phase: Phase::RecoveryRequired,
            message,
            journal: Some(r.jpath),
            rollback_errors: errors,
        },
    )
}

/// The run with one more recorded error.
pub open spec fn note_error(r: TxRunV, e: Seq<char>) -> TxRunV {
    TxRunV { errors: r.errors.push(e), ..r }
}

/// The run on its way to undo, for the given cause.
pub open spec fn undo(r: TxRunV, cause: Seq<char>) -> TxRunV {
    TxRunV { cause, errors: Seq::empty(), ..r }
}

/// On to checking destination `i`, or to the journal behind the last.
pub open spec fn enter_prepare(r: TxRunV, i: int) -> TxRunV {
    if i < r.files.len() {
        goto(r, Pc::Resolve(i as usize))
    } else if r.fail == Some(FailPoint::JournalWrite) {
        stop_in(
            r,
            Phase::Staging,
            "cannot write journal: "@ + crate::persist::injected(FailPoint::JournalWrite),
        )
    } else {
        goto(r, Pc::JournalFirst)
    }
}

/// Staging file `at` failed: remove what was staged.
pub open spec fn drop_stages(r: TxRunV, at: usize, cause: Seq<char>) -> TxRunV {
    goto(undo(r, cause), Pc::DropStage { at, k: 0 })
}

/// Recording the staged state failed: remove what was staged.
pub open spec fn unstage(r: TxRunV, cause: Seq<char>) -> TxRunV {
    goto(
        undo(r, cause),
        if r.files.len() > 0 {
            Pc::UnstageAll(0)
        } else {
            Pc::UnstageJournal
        },
    )
}

/// On to staging file `i`, or to the commit behind the last.
pub open spec fn enter_stage(r: TxRunV, i: int) -> TxRunV {
    if i < r.files.len() {
        if r.fail == Some(FailPoint::StageWrite(i as usize)) {
            drop_stages(
                r,
                i as usize,
                crate::persist::injected(FailPoint::StageWrite(i as usize)),
            )
        } else {
            goto(r, Pc::StageWrite(i as usize))
        }
    } else if r.fail == Some(FailPoint::JournalUpdate) {
        unstage(
            record(r, JournalState::Staged),
            crate::persist::injected(FailPoint::JournalUpdate),
        )
    } else {
        goto(record(r, JournalState::Staged), Pc::JournalStaged)
    }
}

/// The error of a transaction whose staging failed and was undone.
pub open spec fn staging_failed(r: TxRunV, at: usize) -> TxRunV {
    stop(
        r,
        PersistErrorV {
            phase: Phase::Staging,
            message: "cannot stage "@ + stage_text(r, at) + ": "@ + r.cause,
            journal: if r.errors.len() == 0 {
                None
            } else {
                Some(r.jpath)
            },
            rollback_errors: r.errors,
        },
    )
}

/// On to the next stage to remove, or to the journal.
pub open spec fn after_drop(r: TxRunV, at: usize, k: usize) -> TxRunV {
    if k + 1 < r.files.len() {
        goto(r, Pc::DropStage { at, k: (k + 1) as usize })
    } else {
        goto(r, Pc::DropJournal { at })
    }
}

/// Swap `at` failed: restore what was swapped.
pub open spec fn rollback(r: TxRunV, at: usize, cause: Seq<char>) -> TxRunV {
    goto(
        undo(r, cause),
        if at > 0 {
            Pc::Restore { at, k: 0 }
        } else {
            Pc::DropRest { at, k: at }
        },
    )
}

/// On to swapping file `i`, or to cleaning up behind the last.
pub open spec fn enter_swap(r: TxRunV, i: int) -> TxRunV {
    if i < r.files.len() {
        if r.fail == Some(FailPoint::Swap(i as usize)) {
            rollback(r, i as usize, crate::persist::injected(FailPoint::Swap(i as usize)))
        } else {
            goto(r, Pc::Backup(i as usize))
        }
    } else {
        enter_clean(TxRunV { errors: Seq::empty(), ..r }, 0)
    }
}

/// On to removing backup `k`, or to the final record behind the last.
pub open spec fn enter_clean(r: TxRunV, k: int) -> TxRunV {
    if k < r.files.len() {
        goto(r, Pc::CleanBak(k as usize))
    } else {
        goto(record(r, JournalState::Done), Pc::JournalDone)
    }
}

/// File `i` swapped.
pub open spec fn mark_swapped(r: TxRunV, i: usize) -> TxRunV {
    TxRunV {
        journal: JournalV {
            files: r.journal.files.update(
                i as int,
                JournalFileV { swapped: true, ..r.journal.files[i as int] },
            ),
            ..r.journal
        },
        ..r
    }
}

/// On to restoring the next swapped file, or to the unswapped ones.
pub open spec fn after_restore(r: TxRunV, at: usize, k: usize) -> TxRunV {
    if k + 1 < at {
        goto(r, Pc::Restore { at, k: (k + 1) as usize })
    } else {
        goto(r, Pc::DropRest { at, k: at })
    }
}

/// The rollback ran: report how it went.
pub open spec fn settle(r: TxRunV, at: usize) -> TxRunV {
    if r.errors.len() == 0 {
        goto(r, Pc::RollbackJournal(at))
    } else {
        stop_for_recovery(
            r,
            "cannot swap "@ + dest_text(r, at) + ": "@ + r.cause
                + "; rollback incomplete — run recovery"@,
            r.errors,
        )
    }
}

/// [`step`] of a run that checks the destinations.
pub open spec fn step_prepare(r: TxRunV, ev: EventV) -> TxRunV {
    match (r.pc, ev) {
        (Pc::Pending, EventV::Found(js)) => if js.len() > 0 {
            stop_in(
                r,
                Phase::Prepare,
                "a previous transaction is pending ("@ + crate::paths::path_display(js[0])
                    + "); run recovery before writing"@,
            )
        } else {
            enter_prepare(r, 0)
        },
        (Pc::Resolve(i), EventV::Failed { message, missing: _ }) => stop_in(
            r,
            Phase::Prepare,
            "cannot resolve "@ + dest_text(r, i) + ": "@ + message,
        ),
        (Pc::Resolve(i), EventV::Located { root, path }) => if crate::paths::is_under(path, root) {
            goto(r, Pc::Stat(i))
        } else {
            stop_in(r, Phase::Prepare, dest_text(r, i) + " is outside the workspace root"@)
        },
        (Pc::Stat(i), EventV::Failed { message, missing: _ }) => stop_in(
            r,
            Phase::Prepare,
            "cannot stat "@ + dest_text(r, i) + ": "@ + message,
        ),
        (Pc::Stat(i), EventV::Kind(k)) => match k {
            FileKind::Symlink => stop_in(
                r,
                Phase::Prepare,
                dest_text(r, i) + " is a symlink; refusing to swap it"@,
            ),
            FileKind::Other => stop_in(
                r,
                Phase::Prepare,
                dest_text(r, i) + " is not a regular file"@,
            ),
            FileKind::Regular => goto(r, Pc::Read(i)),
        },
        (Pc::Read(i), EventV::Failed { message, missing: _ }) => stop_in(
            r,
            Phase::Prepare,
            "cannot read "@ + dest_text(r, i) + ": "@ + message,
        ),
        (Pc::Read(i), EventV::Bytes(b)) => if b == r.files[i as int].before {
            enter_prepare(r, i + 1)
        } else {
            stop_in(
                r,
                Phase::Prepare,
                dest_text(r, i)
                    + " changed on disk since the rename was validated; not overwriting external edits"@,
            )
        },
        _ => r,
    }
}

/// [`step`] of a run that stages the candidates.
pub open spec fn step_stage(r: TxRunV, ev: EventV) -> TxRunV {
    match (r.pc, ev) {
        (Pc::JournalFirst, EventV::Done) => enter_stage(r, 0),
        (Pc::JournalFirst, EventV::Failed { message, missing: _ }) => stop_in(
            r,
            Phase::Staging,
            "cannot write journal: "@ + message,
        ),
        (Pc::StageWrite(i), EventV::Done) => if r.fail == Some(FailPoint::StageSync(i)) {
            drop_stages(r, i, crate::persist::injected(FailPoint::StageSync(i)))
        } else {
            goto(r, Pc::StageSync(i))
        },
        (Pc::StageWrite(i), EventV::Failed { message, missing: _ }) => drop_stages(r, i, message),
        (Pc::StageSync(i), EventV::Done) => if r.fail == Some(FailPoint::StageDie(i)) {
            stop_for_recovery(
                r,
                "transaction "@ + r.journal.tx + " died while staging "@ + stage_text(r, i),
                Seq::empty(),
            )
        } else {
            enter_stage(r, i + 1)
        },
        (Pc::StageSync(i), EventV::Failed { message, missing: _ }) => drop_stages(r, i, message),
        (Pc::DropStage { at, k }, EventV::Done) => after_drop(r, at, k),
        (Pc::DropStage { at, k }, EventV::Failed { message, missing }) => if missing {
            after_drop(r, at, k)
        } else {
            after_drop(note_error(r, stage_text(r, k) + ": "@ + message), at, k)
        },
        (Pc::DropJournal { at }, EventV::Done) => staging_failed(r, at),
        (Pc::DropJournal { at }, EventV::Failed { message, missing: _ }) => staging_failed(
            note_error(r, crate::paths::path_display(r.jpath) + ": "@ + message),
            at,
        ),
        _ => r,
    }
}

/// [`step`] of a run that swaps the files.
pub open spec fn step_commit(r: TxRunV, ev: EventV) -> TxRunV {
    match (r.pc, ev) {
        (Pc::JournalStaged, EventV::Done) => goto(
            record(r, JournalState::Swapping),
            Pc::JournalSwapping,
        ),
        (Pc::JournalStaged, EventV::Failed { message, missing: _ }) => unstage(r, message),
        (Pc::UnstageAll(k), _) => goto(
            r,
            if k + 1 < r.files.len() {
                Pc::UnstageAll((k + 1) as usize)
            } else {
                Pc::UnstageJournal
            },
        ),
        (Pc::UnstageJournal, _) => stop_in(
            r,
            Phase::Staging,
            "cannot update journal: "@ + r.cause,
        ),
        (Pc::JournalSwapping, _) => enter_swap(r, 0),
        (Pc::Backup(i), EventV::Done) => if r.fail == Some(FailPoint::Promote(i)) {
            rollback(r, i, crate::persist::injected(FailPoint::Promote(i)))
        } else {
            goto(r, Pc::Promote(i))
        },
        (Pc::Backup(i), EventV::Failed { message, missing: _ }) => rollback(r, i, message),
        (Pc::Promote(i), EventV::Done) => goto(mark_swapped(r, i), Pc::JournalSwap(i)),
        (Pc::Promote(i), EventV::Failed { message, missing: _ }) => rollback(r, i, message),
        (Pc::JournalSwap(i), _) => if r.fail == Some(FailPoint::Die(i)) {
            stop_for_recovery(
                r,
                "transaction "@ + r.journal.tx + " died after swapping "@ + dest_text(r, i),
                Seq::empty(),
            )
        } else {
            enter_swap(r, i + 1)
        },
        _ => r,
    }
}

/// [`step`] of a run that rolls a failed commit back.
pub open spec fn step_rollback(r: TxRunV, ev: EventV) -> TxRunV {
    match (r.pc, ev) {
        (Pc::Restore { at, k }, EventV::Done) => after_restore(r, at, k),
        (Pc::Restore { at, k }, EventV::Failed { message, missing: _ }) => after_restore(
            note_error(r, "restore "@ + dest_text(r, k) + ": "@ + message),
            at,
            k,
        ),
        (Pc::DropRest { at, k }, _) => goto(
            r,
            if k + 1 < r.files.len() {
                Pc::DropRest { at, k: (k + 1) as usize }
            } else {
                Pc::CheckBak(at)
            },
        ),
        (Pc::CheckBak(at), EventV::Exists(b)) => if b {
            goto(r, Pc::RestoreLast(at))
        } else {
            settle(r, at)
        },
        (Pc::RestoreLast(at), EventV::Done) => settle(r, at),
        (Pc::RestoreLast(at), EventV::Failed { message, missing: _ }) => settle(
            note_error(r, "restore "@ + dest_text(r, at) + ": "@ + message),
            at,
        ),
        (Pc::RollbackJournal(at), _) => stop_in(
            r,
            Phase::Commit,
            "cannot swap "@ + dest_text(r, at) + ": "@ + r.cause + " (rolled back)"@,
        ),
        _ => r,
    }
}

/// [`step`] of a run that cleans up behind a commit.
pub open spec fn step_clean(r: TxRunV, ev: EventV) -> TxRunV {
    match (r.pc, ev) {
        (Pc::CleanBak(k), EventV::Done) => enter_clean(r, k + 1),
        (Pc::CleanBak(k), EventV::Failed { message, missing: _ }) => enter_clean(
            note_error(r, bak_text(r, k) + ": "@ + message),
            k + 1,
        ),
        (Pc::JournalDone, _) => goto(r, Pc::CleanJournal),
        (Pc::CleanJournal, _) => if r.errors.len() == 0 {
            TxRunV { pc: Pc::Finished, outcome: Ok(()), ..r }
        } else {
            stop_in(
                r,
                Phase::Commit,
                "files committed but backups could not be removed: "@ + crate::paths::joined(
                    r.errors,
                    "; "@,
                ),
            )
        },
        _ => r,
    }
}

/// The run after `ev` answered the call it waited for. An event that
/// does not answer that call changes nothing.
pub open spec fn step(r: TxRunV, ev: EventV) -> TxRunV {
    match r.pc {
        Pc::Pending => step_prepare(r, ev),
        Pc::Resolve(_) => step_prepare(r, ev),
        Pc::Stat(_) => step_prepare(r, ev),
        Pc::Read(_) => step_prepare(r, ev),
        Pc::JournalFirst => step_stage(r, ev),
        Pc::StageWrite(_) => step_stage(r, ev),
        Pc::StageSync(_) => step_stage(r, ev),
        Pc::DropStage { .. } => step_stage(r, ev),
        Pc::DropJournal { .. } => step_stage(r, ev),
        Pc::JournalStaged => step_commit(r, ev),
        Pc::UnstageAll(_) => step_commit(r, ev),
        Pc::UnstageJournal => step_commit(r, ev),
        Pc::JournalSwapping => step_commit(r, ev),
        Pc::Backup(_) => step_commit(r, ev),
        Pc::Promote(_) => step_commit(r, ev),
        Pc::JournalSwap(_) => step_commit(r, ev),
        Pc::Restore { .. } => step_rollback(r, ev),
        Pc::DropRest { .. } => step_rollback(r, ev),
        Pc::CheckBak(_) => step_rollback(r, ev),
        Pc::RestoreLast(_) => step_rollback(r, ev),
        Pc::RollbackJournal(_) => step_rollback(r, ev),
        Pc::CleanBak(_) => step_clean(r, ev),
        Pc::JournalDone => step_clean(r, ev),
        Pc::CleanJournal => step_clean(r, ev),
        Pc::Finished => r,
    }
}

/// Whether the points of a run name files of the run.
pub open spec fn run_wf(r: TxRunV) -> bool {
    &&& r.journal.files.len() == r.files.len()
    &&& match r.pc {
        Pc::Resolve(i) => i < r.files.len(),
        Pc::Stat(i) => i < r.files.len(),
        Pc::Read(i) => i < r.files.len(),
        Pc::StageWrite(i) => i < r.files.len(),
        Pc::StageSync(i) => i < r.files.len(),
        Pc::DropStage { at, k } => at < r.files.len() && k < r.files.len(),
        Pc::DropJournal { at } => at < r.files.len(),
        Pc::UnstageAll(k) => k < r.files.len(),
        Pc::Backup(i) => i < r.files.len(),
        Pc::Promote(i) => i < r.files.len(),
        Pc::JournalSwap(i) => i < r.files.len(),
        Pc::Restore { at, k } => k < at < r.files.len(),
        Pc::DropRest { at, k } => at <= k < r.files.len(),
        Pc::CheckBak(i) => i < r.files.len(),
        Pc::RestoreLast(i) => i < r.files.len(),
        Pc::RollbackJournal(i) => i < r.files.len(),
        Pc::CleanBak(i) => i < r.files.len(),
        _ => true,
    }
}

/// A transaction before its first call.
pub open spec fn start_of(
    root: FsPathV,
    files: Seq<TxFileV>,
    fail: Option<FailPoint>,
    tx: Seq<char>,
) -> TxRunV {
    TxRunV {
        root,
        files,
        fail,
        jpath: crate::paths::journal_path_of(root, tx),
        journal: crate::persist::journal_of(files, tx),
        pc: Pc::Pending,
        cause: Seq::empty(),
        errors: Seq::empty(),
        outcome: Ok(()),
    }
}

/// Every step keeps the run well formed.
pub proof fn lemma_step_wf(r: TxRunV, ev: EventV)
    requires
        run_wf(r),
        r.files.len() <= usize::MAX,
    ensures
        run_wf(step(r, ev)),
        step(r, ev).files == r.files,
        step(r, ev).jpath == r.jpath,
        forall|i: int|
            0 <= i < r.files.len() ==> {
                &&& (#[trigger] step(r, ev).journal.files[i]).path == r.journal.files[i].path
                &&& step(r, ev).journal.files[i].stage == r.journal.files[i].stage
                &&& step(r, ev).journal.files[i].bak == r.journal.files[i].bak
            },
{
    match r.pc {
        Pc::Pending => {},
        Pc::Resolve(_) => {},
        Pc::Stat(_) => {},
        Pc::Read(_) => {},
        Pc::JournalFirst => {},
        Pc::StageWrite(_) => {},
        Pc::StageSync(_) => {},
        Pc::DropStage { .. } => {},
        Pc::DropJournal { .. } => {},
        Pc::JournalStaged => {},
        Pc::UnstageAll(_) => {},
        Pc::UnstageJournal => {},
        Pc::JournalSwapping => {},
        Pc::Backup(_) => {},
        Pc::Promote(_) => {},
        Pc::JournalSwap(_) => {},
        Pc::Restore { .. } => {},
        Pc::DropRest { .. } => {},
        Pc::CheckBak(_) => {},
        Pc::RestoreLast(_) => {},
        Pc::RollbackJournal(_) => {},
        Pc::CleanBak(_) => {},
        Pc::JournalDone => {},
        Pc::CleanJournal => {},
        Pc::Finished => {},
    }
}

impl TxRun {
    /// The model of this run.
    pub closed spec fn view(&self) -> TxRunV {
        TxRunV {
            root: self.root@,
            files: crate::persist::tx_files(self.files@),
            fail: self.hooks.fail,
            jpath: self.jpath@,
            journal: self.journal@,
            pc: self.pc,
            cause: self.cause@,
            errors: crate::text::texts(self.errors@),
            outcome: outcome_of(self.outcome),
        }
    }

    /// The call that is due.
    pub fn action(&self) -> (r: Action)
        ensures
            r == action_at(self@.pc),
    {
        match self.pc {
            Pc::Pending => Action::ListJournals,
            Pc::Resolve(i) => Action::Resolve(i),
            Pc::Stat(i) => Action::Stat(i),
            Pc::Read(i) => Action::ReadDest(i),
            Pc::JournalFirst => Action::WriteJournal,
            Pc::StageWrite(i) => Action::WriteStage(i),
            Pc::StageSync(i) => Action::SyncStage(i),
            Pc::DropStage { at: _, k } => Action::RemoveStage(k),
            Pc::DropJournal { at: _ } => Action::RemoveJournal,
            Pc::JournalStaged => Action::WriteJournal,
            Pc::UnstageAll(k) => Action::RemoveStage(k),
            Pc::UnstageJournal => Action::RemoveJournal,
            Pc::JournalSwapping => Action::WriteJournal,
            Pc::Backup(i) => Action::DestToBak(i),
            Pc::Promote(i) => Action::StageToDest(i),
            Pc::JournalSwap(_) => Action::WriteJournal,
            Pc::Restore { at: _, k } => Action::BakToDest(k),
            Pc::DropRest { at: _, k } => Action::RemoveStage(k),
            Pc::CheckBak(i) => Action::TestBak(i),
            Pc::RestoreLast(i) => Action::BakToDest(i),
            Pc::RollbackJournal(_) => Action::RemoveJournal,
            Pc::CleanBak(k) => Action::RemoveBak(k),
            Pc::JournalDone => Action::WriteJournal,
            Pc::CleanJournal => Action::RemoveJournal,
            Pc::Finished => Action::Stop,
        }
    }

    /// The transaction root.
    pub fn root(&self) -> (r: &FsPath)
        ensures
            r@ == self@.root,
    {
        &self.root
    }

    /// Where the journal lives.
    pub fn journal_file(&self) -> (r: &FsPath)
        ensures
            r@ == self@.jpath,
    {
        &self.jpath
    }

    /// The journal as it stands.
    pub fn journal(&self) -> (r: &Journal)
        ensures
            r@ == self@.journal,
    {
        &self.journal
    }

    /// The files of the transaction.
    pub fn files(&self) -> (r: &Vec<TxFile>)
        ensures
            crate::persist::tx_files(r@) == self@.files,
    {
        &self.files
    }

    /// What the finished transaction reports.
    pub fn into_outcome(self) -> (r: Result<(), PersistError>)
        ensures
            outcome_of(r) == self@.outcome,
    {
        self.outcome
    }

    fn goto_pc(&mut self, pc: Pc)
        ensures
            final(self)@ == goto(old(self)@, pc),
    {
        self.pc = pc;
    }

    fn set_state(&mut self, state: JournalState)
        ensures
            final(self)@ == record(old(self)@, state),
    {
        self.journal.state = state;
    }

    fn stop_with(&mut self, e: PersistError)
        ensures
            final(self)@ == stop(old(self)@, e@),
    {
        self.pc = Pc::Finished;
        self.outcome = Err(e);
    }

    fn stop_plain(&mut self, phase: Phase, message: String)
        ensures
            final(self)@ == stop_in(old(self)@, phase, message@),
    {
        let e = PersistError::new(phase, message);
        self.stop_with(e);
    }

    fn stop_recover(&mut self, message: String, errors: Vec<String>)
        ensures
            final(self)@ == stop_for_recovery(
                old(self)@,
                message@,
                crate::text::texts(errors@),
            ),
    {
        let e = PersistError {
            phase: Phase::RecoveryRequired,
            message,
            journal: Some(self.jpath.copy()),
            rollback_errors: errors,
        };
        self.stop_with(e);
    }

    fn add_error(&mut self, e: String)
        ensures
            final(self)@ == note_error(old(self)@, e@),
    {
        self.errors.push(e);
        proof {
            assert(self@.errors =~= old(self)@.errors.push(e@));
        }
    }

    fn set_undo(&mut self, cause: String)
        ensures
            final(self)@ == undo(old(self)@, cause@),
    {
        self.cause = cause;
        self.errors = Vec::new();
        proof {
            assert(self@.errors =~= Seq::empty());
        }
    }

    fn dest(&self, i: usize) -> (r: String)
        requires
            i < self@.files.len(),
        ensures
            r@ == dest_text(self@, i),
    {
        self.files[i].path.display()
    }

    fn stage(&self, i: usize) -> (r: String)
        requires
            i < self@.journal.files.len(),
        ensures
            r@ == stage_text(self@, i),
    {
        self.journal.files[i].stage.display()
    }

    fn bak(&self, i: usize) -> (r: String)
        requires
            i < self@.journal.files.len(),
        ensures
            r@ == bak_text(self@, i),
    {
        self.journal.files[i].bak.display()
    }

    fn to_prepare(&mut self, i: usize)
        ensures
            final(self)@ == enter_prepare(old(self)@, i as int),
    {
        if i < self.files.len() {
            self.goto_pc(Pc::Resolve(i));
        } else {
            match self.hooks.check(FailPoint::JournalWrite) {
                Err(e) => {
                    let m = cat2("cannot write journal: ", e.as_str());
                    self.stop_plain(Phase::Staging, m);
                },
                Ok(()) => {
                    self.goto_pc(Pc::JournalFirst);
                },
            }
        }
    }

    fn to_drop_stages(&mut self, at: usize, cause: String)
        ensures
            final(self)@ == drop_stages(old(self)@, at, cause@),
    {
        self.set_undo(cause);
        self.goto_pc(Pc::DropStage { at, k: 0 });
    }

    fn to_unstage(&mut self, cause: String)
        ensures
            final(self)@ == unstage(old(self)@, cause@),
    {
        self.set_undo(cause);
        if self.files.len() > 0 {
            self.goto_pc(Pc::UnstageAll(0));
        } else {
            self.goto_pc(Pc::UnstageJournal);
        }
    }

    fn to_stage(&mut self, i: usize)
        ensures
            final(self)@ == enter_stage(old(self)@, i as int),
    {
        if i < self.files.len() {
            match self.hooks.check(FailPoint::StageWrite(i)) {
                Err(e) => self.to_drop_stages(i, e),
                Ok(()) => self.goto_pc(Pc::StageWrite(i)),
            }
        } else {
            self.set_state(JournalState::Staged);
            match self.hooks.check(FailPoint::JournalUpdate) {
                Err(e) => self.to_unstage(e),
                Ok(()) => self.goto_pc(Pc::JournalStaged),
            }
        }
    }

    fn fail_staging(&mut self, at: usize)
        requires
            at < old(self)@.journal.files.len(),
        ensures
            final(self)@ == staging_failed(old(self)@, at),
    {
        let message = cat4("cannot stage ", self.stage(at).as_str(), ": ", self.cause.as_str());
        let journal = if self.errors.len() == 0 {
            None
        } else {
            Some(self.jpath.copy())
        };
        let errors = crate::diagnostic::copy_texts(&self.errors);
        self.stop_with(
            PersistError { phase: Phase::Staging, message, journal, rollback_errors: errors },
        );
    }

    fn next_drop(&mut self, at: usize, k: usize)
        requires
            k < old(self)@.files.len(),
        ensures
            final(self)@ == after_drop(old(self)@, at, k),
    {
        let n: usize = self.files.len();
        if k + 1 < n {
            self.goto_pc(Pc::DropStage { at, k: k + 1 });
        } else {
            self.goto_pc(Pc::DropJournal { at });
        }
    }

    fn to_rollback(&mut self, at: usize, cause: String)
        ensures
            final(self)@ == rollback(old(self)@, at, cause@),
    {
        self.set_undo(cause);
        if at > 0 {
            self.goto_pc(Pc::Restore { at, k: 0 });
        } else {
            self.goto_pc(Pc::DropRest { at, k: at });
        }
    }

    fn to_clean(&mut self, k: usize)
        ensures
            final(self)@ == enter_clean(old(self)@, k as int),
    {
        if k < self.files.len() {
            self.goto_pc(Pc::CleanBak(k));
        } else {
            self.set_state(JournalState::Done);
            self.goto_pc(Pc::JournalDone);
        }
    }

    fn to_swap(&mut self, i: usize)
        ensures
            final(self)@ == enter_swap(old(self)@, i as int),
    {
        if i < self.files.len() {
            match self.hooks.check(FailPoint::Swap(i)) {
                Err(e) => self.to_rollback(i, e),
                Ok(()) => self.goto_pc(Pc::Backup(i)),
            }
        } else {
            self.errors = Vec::new();
            proof {
                assert(self@.errors =~= Seq::empty());
            }
            self.to_clean(0);
        }
    }

    fn set_swapped(&mut self, i: usize)
        requires
            i < old(self)@.journal.files.len(),
        ensures
            final(self)@ == mark_swapped(old(self)@, i),
    {
        self.journal.files[i].swapped = true;
        proof {
            assert(self@.journal.files =~= mark_swapped(old(self)@, i).journal.files);
        }
    }

    fn next_restore(&mut self, at: usize, k: usize)
        requires
            k < at,
        ensures
            final(self)@ == after_restore(old(self)@, at, k),
    {
        if k + 1 < at {
            self.goto_pc(Pc::Restore { at, k: k + 1 });
        } else {
            self.goto_pc(Pc::DropRest { at, k: at });
        }
    }

    fn to_settle(&mut self, at: usize)
        requires
            at < old(self)@.files.len(),
        ensures
            final(self)@ == settle(old(self)@, at),
    {
        if self.errors.len() == 0 {
            self.goto_pc(Pc::RollbackJournal(at));
        } else {
            let m = cat5(
                "cannot swap ",
                self.dest(at).as_str(),
                ": ",
                self.cause.as_str(),
                "; rollback incomplete — run recovery",
            );
            let errors = crate::diagnostic::copy_texts(&self.errors);
            self.stop_recover(m, errors);
        }
    }

    fn on_prepare(&mut self, ev: Event)
        requires
            run_wf(old(self)@),
            old(self)@.pc is Pending || old(self)@.pc is Resolve || old(self)@.pc is Stat || old(
                self,
            )@.pc is Read,
        ensures
            final(self)@ == step_prepare(old(self)@, ev@),
    {
        match (self.pc, ev) {
            (Pc::Pending, Event::Found(js)) => {
                if js.len() > 0 {
                    let m = cat3(
                        "a previous transaction is pending (",
                        js[0].display().as_str(),
                        "); run recovery before writing",
                    );
                    self.stop_plain(Phase::Prepare, m);
                } else {
                    self.to_prepare(0);
                }
            },
            (Pc::Resolve(i), Event::Failed { message, missing: _ }) => {
                let m = cat4("cannot resolve ", self.dest(i).as_str(), ": ", message.as_str());
                self.stop_plain(Phase::Prepare, m);
            },
            (Pc::Resolve(i), Event::Located { root, path }) => {
                if starts_with(&path, &root) {
                    self.goto_pc(Pc::Stat(i));
                } else {
                    let m = cat2(self.dest(i).as_str(), " is outside the workspace root");
                    self.stop_plain(Phase::Prepare, m);
                }
            },
            (Pc::Stat(i), Event::Failed { message, missing: _ }) => {
                let m = cat4("cannot stat ", self.dest(i).as_str(), ": ", message.as_str());
                self.stop_plain(Phase::Prepare, m);
            },
            (Pc::Stat(i), Event::Kind(k)) => match k {
                FileKind::Symlink => {
                    let m = cat2(self.dest(i).as_str(), " is a symlink; refusing to swap it");
                    self.stop_plain(Phase::Prepare, m);
                },
                FileKind::Other => {
                    let m = cat2(self.dest(i).as_str(), " is not a regular file");
                    self.stop_plain(Phase::Prepare, m);
                },
                FileKind::Regular => self.goto_pc(Pc::Read(i)),
            },
            (Pc::Read(i), Event::Failed { message, missing: _ }) => {
                let m = cat4("cannot read ", self.dest(i).as_str(), ": ", message.as_str());
                self.stop_plain(Phase::Prepare, m);
            },
            (Pc::Read(i), Event::Bytes(b)) => {
                let n: usize = self.files.len();
                if same_bytes(&b, &self.files[i].before) {
                    self.to_prepare(i + 1);
                } else {
                    let m = cat2(
                        self.dest(i).as_str(),
                        " changed on disk since the rename was validated; not overwriting external edits",
                    );
                    self.stop_plain(Phase::Prepare, m);
                }
            },
            _ => {},
        }
    }

    fn on_stage(&mut self, ev: Event)
        requires
            run_wf(old(self)@),
            old(self)@.pc is JournalFirst || old(self)@.pc is StageWrite || old(self)@.pc
                is StageSync || old(self)@.pc is DropStage || old(self)@.pc is DropJournal,
        ensures
            final(self)@ == step_stage(old(self)@, ev@),
    {
        match (self.pc, ev) {
            (Pc::JournalFirst, Event::Done) => self.to_stage(0),
            (Pc::JournalFirst, Event::Failed { message, missing: _ }) => {
                let m = cat2("cannot write journal: ", message.as_str());
                self.stop_plain(Phase::Staging, m);
            },
            (Pc::StageWrite(i), Event::Done) => match self.hooks.check(FailPoint::StageSync(i)) {
                Err(e) => self.to_drop_stages(i, e),
                Ok(()) => self.goto_pc(Pc::StageSync(i)),
            },
            (Pc::StageWrite(i), Event::Failed { message, missing: _ }) => {
                self.to_drop_stages(i, message)
            },
            (Pc::StageSync(i), Event::Done) => {
                let n: usize = self.files.len();
                if self.hooks.check(FailPoint::StageDie(i)).is_err() {
                    let m = cat4(
                        "transaction ",
                        self.journal.tx.as_str(),
                        " died while staging ",
                        self.stage(i).as_str(),
                    );
                    let none: Vec<String> = Vec::new();
                    proof {
                        assert(crate::text::texts(none@) =~= Seq::empty());
                    }
                    self.stop_recover(m, none);
                } else {
                    self.to_stage(i + 1);
                }
            },
            (Pc::StageSync(i), Event::Failed { message, missing: _ }) => {
                self.to_drop_stages(i, message)
            },
            (Pc::DropStage { at, k }, Event::Done) => self.next_drop(at, k),
            (Pc::DropStage { at, k }, Event::Failed { message, missing }) => {
                if !missing {
                    let m = cat3(self.stage(k).as_str(), ": ", message.as_str());
                    self.add_error(m);
                }
                self.next_drop(at, k);
            },
            (Pc::DropJournal { at }, Event::Done) => self.fail_staging(at),
            (Pc::DropJournal { at }, Event::Failed { message, missing: _ }) => {
                let m = cat3(self.jpath.display().as_str(), ": ", message.as_str());
                self.add_error(m);
                self.fail_staging(at);
            },
            _ => {},
        }
    }

    fn on_commit(&mut self, ev: Event)
        requires
            run_wf(old(self)@),
            old(self)@.pc is JournalStaged || old(self)@.pc is UnstageAll || old(self)@.pc
                is UnstageJournal || old(self)@.pc is JournalSwapping || old(self)@.pc is Backup
                || old(self)@.pc is Promote || old(self)@.pc is JournalSwap,
        ensures
            final(self)@ == step_commit(old(self)@, ev@),
    {
        match (self.pc, ev) {
            (Pc::JournalStaged, Event::Done) => {
                self.set_state(JournalState::Swapping);
                self.goto_pc(Pc::JournalSwapping);
            },
            (Pc::JournalStaged, Event::Failed { message, missing: _ }) => self.to_unstage(message),
            (Pc::UnstageAll(k), _) => {
                let n: usize = self.files.len();
                if k + 1 < n {
                    self.goto_pc(Pc::UnstageAll(k + 1));
                } else {
                    self.goto_pc(Pc::UnstageJournal);
                }
            },
            (Pc::UnstageJournal, _) => {
                let m = cat2("cannot update journal: ", self.cause.as_str());
                self.stop_plain(Phase::Staging, m);
            },
            (Pc::JournalSwapping, _) => self.to_swap(0),
            (Pc::Backup(i), Event::Done) => match self.hooks.check(FailPoint::Promote(i)) {
                Err(e) => self.to_rollback(i, e),
                Ok(()) => self.goto_pc(Pc::Promote(i)),
            },
            (Pc::Backup(i), Event::Failed { message, missing: _ }) => {
                self.to_rollback(i, message)
            },
            (Pc::Promote(i), Event::Done) => {
                self.set_swapped(i);
                self.goto_pc(Pc::JournalSwap(i));
            },
            (Pc::Promote(i), Event::Failed { message, missing: _ }) => {
                self.to_rollback(i, message)
            },
            (Pc::JournalSwap(i), _) => {
                let n: usize = self.files.len();
                if self.hooks.check(FailPoint::Die(i)).is_err() {
                    let m = cat4(
                        "transaction ",
                        self.journal.tx.as_str(),
                        " died after swapping ",
                        self.dest(i).as_str(),
                    );
                    let none: Vec<String> = Vec::new();
                    proof {
                        assert(crate::text::texts(none@) =~= Seq::empty());
                    }
                    self.stop_recover(m, none);
                } else {
                    self.to_swap(i + 1);
                }
            },
            _ => {},
        }
    }

    fn on_rollback(&mut self, ev: Event)
        requires
            run_wf(old(self)@),
            old(self)@.pc is Restore || old(self)@.pc is DropRest || old(self)@.pc is CheckBak
                || old(self)@.pc is RestoreLast || old(self)@.pc is RollbackJournal,
        ensures
            final(self)@ == step_rollback(old(self)@, ev@),
    {
        match (self.pc, ev) {
            (Pc::Restore { at, k }, Event::Done) => self.next_restore(at, k),
            (Pc::Restore { at, k }, Event::Failed { message, missing: _ }) => {
                let m = cat4("restore ", self.dest(k).as_str(), ": ", message.as_str());
                self.add_error(m);
                self.next_restore(at, k);
            },
            (Pc::DropRest { at, k }, _) => {
                let n: usize = self.files.len();
                if k + 1 < n {
                    self.goto_pc(Pc::DropRest { at, k: k + 1 });
                } else {
                    self.goto_pc(Pc::CheckBak(at));
                }
            },
            (Pc::CheckBak(at), Event::Exists(b)) => {
                if b {
                    self.goto_pc(Pc::RestoreLast(at));
                } else {
                    self.to_settle(at);
                }
            },
            (Pc::RestoreLast(at), Event::Done) => self.to_settle(at),
            (Pc::RestoreLast(at), Event::Failed { message, missing: _ }) => {
                let m = cat4("restore ", self.dest(at).as_str(), ": ", message.as_str());
                self.add_error(m);
                self.to_settle(at);
            },
            (Pc::RollbackJournal(at), _) => {
                let m = cat5(
                    "cannot swap ",
                    self.dest(at).as_str(),
                    ": ",
                    self.cause.as_str(),
                    " (rolled back)",
                );
                self.stop_plain(Phase::Commit, m);
            },
            _ => {},
        }
    }

    fn on_clean(&mut self, ev: Event)
        requires
            run_wf(old(self)@),
            old(self)@.pc is CleanBak || old(self)@.pc is JournalDone || old(self)@.pc
                is CleanJournal,
        ensures
            final(self)@ == step_clean(old(self)@, ev@),
    {
        match (self.pc, ev) {
            (Pc::CleanBak(k), Event::Done) => {
                let n: usize = self.files.len();
                self.to_clean(k + 1)
            },
            (Pc::CleanBak(k), Event::Failed { message, missing: _ }) => {
                let n: usize = self.files.len();
                let m = cat3(self.bak(k).as_str(), ": ", message.as_str());
                self.add_error(m);
                self.to_clean(k + 1);
            },
            (Pc::JournalDone, _) => self.goto_pc(Pc::CleanJournal),
            (Pc::CleanJournal, _) => {
                if self.errors.len() == 0 {
                    self.pc = Pc::Finished;
                    self.outcome = Ok(());
                } else {
                    let list = crate::paths::join(&self.errors, "; ");
                    let m = cat2(
                        "files committed but backups could not be removed: ",
                        list.as_str(),
                    );
                    self.stop_plain(Phase::Commit, m);
                }
            },
            _ => {},
        }
    }

    /// Takes what came of the due call. An event that does not answer
    /// that call changes nothing.
    pub fn advance(&mut self, ev: Event)
        requires
            run_wf(old(self)@),
        ensures
            final(self)@ == step(old(self)@, ev@),
            run_wf(final(self)@),
    {
        proof {
            assert(self.files@.len() == self@.files.len());
            lemma_files_fit(self.files);
            lemma_step_wf(self@, ev@);
        }
        match self.pc {
            Pc::Pending | Pc::Resolve(_) | Pc::Stat(_) | Pc::Read(_) => self.on_prepare(ev),
            Pc::JournalFirst
            | Pc::StageWrite(_)
            | Pc::StageSync(_)
            | Pc::DropStage { .. }
            | Pc::DropJournal { .. } => self.on_stage(ev),
            Pc::JournalStaged
            | Pc::UnstageAll(_)
            | Pc::UnstageJournal
            | Pc::JournalSwapping
            | Pc::Backup(_)
            | Pc::Promote(_)
            | Pc::JournalSwap(_) => self.on_commit(ev),
            Pc::Restore { .. }
            | Pc::DropRest { .. }
            | Pc::CheckBak(_)
            | Pc::RestoreLast(_)
            | Pc::RollbackJournal(_) => self.on_rollback(ev),
            Pc::CleanBak(_) | Pc::JournalDone | Pc::CleanJournal => self.on_clean(ev),
            Pc::Finished => {},
        }
    }
}

/// A vector's length fits a `usize`.
proof fn lemma_files_fit(v: Vec<TxFile>)
    ensures
        v@.len() <= usize::MAX,
{
    assert(v.len() <= usize::MAX);
}

/// Whether two byte strings are equal.
pub fn same_bytes(a: &Vec<u8>, b: &Vec<u8>) -> (r: bool)
    ensures
        r == (a@ == b@),
{
    if a.len() != b.len() {
        return false;
    }
    let mut i: usize = 0;
    while i < a.len()
        invariant
            i <= a@.len(),
            a@.len() == b@.len(),
            forall|j: int| 0 <= j < i ==> a@[j] == b@[j],
        decreases a@.len() - i,
    {
        if a[i] != b[i] {
            return false;
        }
        i += 1;
    }
    proof {
        assert(a@ =~= b@);
    }
    true
}

/// Starts the full staged transaction with an injected failure.
pub fn persist_tx_hooks(
    root: &FsPath,
    files: Vec<TxFile>,
    fail: Option<FailPoint>,
    tx: String,
) -> (r: TxRun)
    ensures
        r@ == start_of(root@, crate::persist::tx_files(files@), fail, tx@),
        run_wf(r@),
{
    let jpath = journal_path(root, tx.as_str());
    let journal = crate::persist::new_journal(&files, tx);
    let r = TxRun {
        root: root.copy(),
        files,
        hooks: Hooks { fail },
        jpath,
        journal,
        pc: Pc::Pending,
        cause: String::new(),
        errors: Vec::new(),
        outcome: Ok(()),
    };
    proof {
        assert(r@.errors =~= Seq::empty());
    }
    r
}

/// Starts the full staged transaction. See the module docs of
/// [`crate::persist`] for the phases.
pub fn persist_tx(root: &FsPath, files: Vec<TxFile>, tx: String) -> (r: TxRun)
    ensures
        r@ == start_of(root@, crate::persist::tx_files(files@), None, tx@),
        run_wf(r@),
{
    persist_tx_hooks(root, files, None, tx)
}

} // verus!
