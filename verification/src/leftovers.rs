//! What a transaction leaves on the disk beside its files.
//!
//! A transaction touches no path but its own. Where every removal it
//! asks for is carried out, it leaves nothing of its own behind either:
//! the disk it ends on is the disk it found, with its candidates in
//! place when it committed.

use crate::durability::{
    agree, all_after, all_untouched, bak, dest, disk_step, holds_before, same_but, same_paths,
    stage, tx_inv, untouched, DiskV,
};
use crate::paths::FsPathV;
use crate::persist::Phase;
use crate::transaction::{action_at, run_wf, step, Action, EventV, Pc, TxRunV};
use vstd::prelude::*;

verus! {

/// Whether `p` is a destination of a run.
pub open spec fn is_dest(r: TxRunV, p: FsPathV) -> bool {
    exists|i: int| 0 <= i < r.files.len() && p == #[trigger] dest(r, i)
}

/// Whether `p` is the stage or the backup of file `i` of a run.
pub open spec fn is_side(r: TxRunV, p: FsPathV, i: int) -> bool {
    p == stage(r, i) || p == bak(r, i)
}

/// Whether `p` is the journal, a stage or a backup of a run.
pub open spec fn is_artifact(r: TxRunV, p: FsPathV) -> bool {
    p == r.jpath || exists|i: int| 0 <= i < r.files.len() && #[trigger] is_side(r, p, i)
}

/// Two disks hold the same outside the paths of a run.
pub open spec fn others_kept(r: TxRunV, d: DiskV, d2: DiskV) -> bool {
    forall|p: FsPathV| !is_dest(r, p) && !is_artifact(r, p) ==> #[trigger] agree(d, d2, p)
}

/// The disk holds nothing of a run that has not begun.
pub open spec fn is_fresh(r: TxRunV, d: DiskV) -> bool {
    forall|p: FsPathV| is_artifact(r, p) ==> !#[trigger] d.contains_key(p)
}

pub proof fn lemma_own_kept(r: TxRunV, r2: TxRunV, p: FsPathV)
    requires
        same_paths(r, r2),
    ensures
        is_dest(r2, p) == is_dest(r, p),
        is_artifact(r2, p) == is_artifact(r, p),
{
    if is_dest(r, p) {
        let i = choose|i: int| 0 <= i < r.files.len() && p == #[trigger] dest(r, i);
        assert(dest(r2, i) == p);
    }
    if is_dest(r2, p) {
        let i = choose|i: int| 0 <= i < r2.files.len() && p == #[trigger] dest(r2, i);
        assert(dest(r, i) == p);
    }
    if is_artifact(r, p) && p != r.jpath {
        let i = choose|i: int| 0 <= i < r.files.len() && #[trigger] is_side(r, p, i);
        assert(stage(r2, i) == stage(r, i) && bak(r2, i) == bak(r, i));
        assert(is_side(r2, p, i));
    }
    if is_artifact(r2, p) && p != r.jpath {
        let i = choose|i: int| 0 <= i < r2.files.len() && #[trigger] is_side(r2, p, i);
        assert(stage(r2, i) == stage(r, i) && bak(r2, i) == bak(r, i));
        assert(is_side(r, p, i));
    }
}

/// No call of a transaction touches a path that is not its own.
pub proof fn law_others_kept(r: TxRunV, d0: DiskV, d: DiskV, ev: EventV, d2: DiskV)
    requires
        tx_inv(r, d0, d),
        others_kept(r, d0, d),
        disk_step(d, r, ev, d2),
    ensures
        others_kept(step(r, ev), d0, d2),
{
    crate::durability::lemma_paths_kept(r, ev);
    let r2 = step(r, ev);
    assert forall|p: FsPathV| !is_dest(r2, p) && !is_artifact(r2, p) implies #[trigger] agree(
        d0,
        d2,
        p,
    ) by {
        lemma_own_kept(r, r2, p);
        assert(agree(d0, d, p));
        assert(agree(d, d2, p)) by {
            match action_at(r.pc) {
                Action::WriteStage(i) => {
                    assert(!is_side(r, p, i as int));
                    assert(d2.contains_key(p) == d.contains_key(p));
                },
                Action::RemoveStage(i) => {
                    assert(!is_side(r, p, i as int));
                },
                Action::DestToBak(i) => {
                    assert(!is_side(r, p, i as int) && p != dest(r, i as int));
                },
                Action::StageToDest(i) => {
                    assert(!is_side(r, p, i as int) && p != dest(r, i as int));
                },
                Action::BakToDest(i) => {
                    assert(!is_side(r, p, i as int) && p != dest(r, i as int));
                },
                Action::RemoveBak(i) => {
                    assert(!is_side(r, p, i as int));
                },
                Action::WriteJournal => {
                    assert(d2.contains_key(p) == d.contains_key(p));
                },
                _ => {},
            }
        }
    }
}

/// A due removal of something that is there is carried out.
pub open spec fn removes(d: DiskV, r: TxRunV, ev: EventV) -> bool {
    match action_at(r.pc) {
        Action::RemoveStage(i) => d.contains_key(stage(r, i as int)) ==> ev is Done,
        Action::RemoveBak(i) => d.contains_key(bak(r, i as int)) ==> ev is Done,
        Action::RemoveJournal => d.contains_key(r.jpath) ==> ev is Done,
        _ => true,
    }
}

/// None of the stages from `lo` to `hi` is there.
pub open spec fn no_stage(r: TxRunV, d: DiskV, lo: int, hi: int) -> bool {
    forall|i: int| lo <= i < hi ==> !d.contains_key(#[trigger] stage(r, i))
}

/// None of the first `n` backups is there.
pub open spec fn no_bak(r: TxRunV, d: DiskV, n: int) -> bool {
    forall|i: int| 0 <= i < n ==> !d.contains_key(#[trigger] bak(r, i))
}

/// Whether the journal of a run was ever written, behind a call, when
/// `wrote` says so before it.
pub open spec fn wrote_journal(wrote: bool, r: TxRunV, ev: EventV) -> bool {
    wrote || (r.pc is JournalFirst && ev is Done)
}

/// What is left of a run at each point, where its removals are carried
/// out. `wrote` says whether its journal was ever written.
pub open spec fn is_tidy(r: TxRunV, d: DiskV, wrote: bool) -> bool {
    let n = r.files.len() as int;
    match r.pc {
        Pc::Pending | Pc::Resolve(_) | Pc::Stat(_) | Pc::Read(_) | Pc::JournalFirst => !wrote
            && no_stage(r, d, 0, n),
        Pc::StageWrite(i) => no_stage(r, d, i + 1, n),
        Pc::StageSync(i) => no_stage(r, d, i + 1, n),
        Pc::DropStage { at: _, k } => no_stage(r, d, 0, k as int),
        Pc::DropJournal { .. } => no_stage(r, d, 0, n),
        Pc::JournalStaged | Pc::JournalSwapping => true,
        Pc::UnstageAll(k) => no_stage(r, d, 0, k as int),
        Pc::UnstageJournal => no_stage(r, d, 0, n),
        Pc::Backup(i) => no_stage(r, d, 0, i as int),
        Pc::Promote(i) => no_stage(r, d, 0, i as int),
        Pc::JournalSwap(i) => no_stage(r, d, 0, i + 1),
        Pc::Restore { at, k: _ } => no_stage(r, d, 0, at as int),
        Pc::DropRest { at: _, k } => no_stage(r, d, 0, k as int),
        Pc::CheckBak(_) | Pc::RestoreLast(_) | Pc::RollbackJournal(_) => no_stage(r, d, 0, n),
        Pc::CleanBak(k) => no_stage(r, d, 0, n) && no_bak(r, d, k as int),
        Pc::JournalDone | Pc::CleanJournal => no_stage(r, d, 0, n) && no_bak(r, d, n),
        Pc::Finished => match r.outcome {
            Ok(()) => no_stage(r, d, 0, n) && no_bak(r, d, n) && !d.contains_key(r.jpath),
            Err(e) => match e.phase {
                Phase::Prepare | Phase::RecoveryRequired => true,
                Phase::Staging => no_stage(r, d, 0, n) && (wrote ==> !d.contains_key(r.jpath)),
                Phase::Commit => {
                    &&& no_stage(r, d, 0, n)
                    &&& !d.contains_key(r.jpath)
                    &&& no_bak(r, d, n)
                },
            },
        },
    }
}

/// What a call leaves absent: no call but the writing of stage `k` makes
/// a stage appear.
proof fn lemma_stages(r: TxRunV, r2: TxRunV, d: DiskV, d2: DiskV, ev: EventV)
    requires
        same_paths(r, r2),
        crate::durability::disjoint(r),
        run_wf(r),
        disk_step(d, r, ev, d2),
    ensures
        forall|i: int|
            0 <= i < r.files.len() && !d.contains_key(stage(r, i)) && action_at(r.pc)
                != Action::WriteStage(i as usize) && i <= usize::MAX ==> !d2.contains_key(
                #[trigger] stage(r2, i),
            ),
{
    assert forall|i: int|
        0 <= i < r.files.len() && !d.contains_key(stage(r, i)) && action_at(r.pc)
            != Action::WriteStage(i as usize) && i <= usize::MAX implies !d2.contains_key(
        #[trigger] stage(r2, i),
    ) by {
        let p = stage(r, i);
        assert(stage(r2, i) == p);
        match action_at(r.pc) {
            Action::WriteStage(k) => {
                assert(k as int != i);
                assert(dest(r, i) != dest(r, k as int));
                assert(stage(r, i) != stage(r, k as int));
                assert(d2.contains_key(p) == d.contains_key(p));
            },
            Action::DestToBak(k) => {
                assert(dest(r, k as int) != stage(r, i));
            },
            Action::StageToDest(k) => {
                assert(dest(r, k as int) != stage(r, i));
            },
            Action::BakToDest(k) => {
                assert(dest(r, k as int) != stage(r, i));
            },
            Action::WriteJournal => {
                assert(dest(r, i) != r.jpath);
                assert(d2.contains_key(p) == d.contains_key(p));
            },
            _ => {},
        }
    }
}

/// A transaction that has not begun is tidy on a disk that holds
/// nothing of it.
pub proof fn law_tidy_start(
    root: FsPathV,
    files: Seq<crate::persist::TxFileV>,
    fail: Option<crate::persist::FailPoint>,
    tx: Seq<char>,
    d: DiskV,
)
    requires
        is_fresh(crate::transaction::start_of(root, files, fail, tx), d),
    ensures
        is_tidy(crate::transaction::start_of(root, files, fail, tx), d, false),
        others_kept(crate::transaction::start_of(root, files, fail, tx), d, d),
{
    let r = crate::transaction::start_of(root, files, fail, tx);
    assert forall|i: int| 0 <= i < r.files.len() implies !d.contains_key(#[trigger] stage(r, i)) by {
        assert(is_side(r, stage(r, i), i));
    }
}

proof fn lemma_tidy_stage(
    r: TxRunV,
    d0: DiskV,
    d: DiskV,
    ev: EventV,
    d2: DiskV,
    wrote: bool,
)
    requires
        tx_inv(r, d0, d),
        is_tidy(r, d, wrote),
        disk_step(d, r, ev, d2),
        removes(d, r, ev),
        r.pc is Pending || r.pc is Resolve || r.pc is Stat || r.pc is Read || r.pc is JournalFirst
            || r.pc is StageWrite || r.pc is StageSync || r.pc is DropStage || r.pc is DropJournal,
    ensures
        is_tidy(step(r, ev), d2, wrote_journal(wrote, r, ev)),
{
    crate::durability::lemma_paths_kept(r, ev);
    let r2 = step(r, ev);
    lemma_stages(r, r2, d, d2, ev);
    match r.pc {
        Pc::DropStage { at: _, k } => {
            assert(!d2.contains_key(stage(r, k as int)));
            assert(stage(r2, k as int) == stage(r, k as int));
        },
        Pc::StageWrite(k) => {
            assert(no_stage(r2, d2, k + 1, r.files.len() as int));
        },
        Pc::JournalFirst => {
            assert(no_stage(r2, d2, 0, r.files.len() as int));
        },
        Pc::StageSync(k) => {
            assert(no_stage(r2, d2, k + 1, r.files.len() as int));
        },
        _ => {
            assert(no_stage(r2, d2, 0, r.files.len() as int));
        },
    }
}

proof fn lemma_tidy_commit(
    r: TxRunV,
    d0: DiskV,
    d: DiskV,
    ev: EventV,
    d2: DiskV,
    wrote: bool,
)
    requires
        tx_inv(r, d0, d),
        is_tidy(r, d, wrote),
        disk_step(d, r, ev, d2),
        removes(d, r, ev),
        r.pc is JournalStaged || r.pc is UnstageAll || r.pc is UnstageJournal || r.pc
            is JournalSwapping || r.pc is Backup || r.pc is Promote || r.pc is JournalSwap,
    ensures
        is_tidy(step(r, ev), d2, wrote_journal(wrote, r, ev)),
{
    crate::durability::lemma_paths_kept(r, ev);
    let r2 = step(r, ev);
    lemma_stages(r, r2, d, d2, ev);
    match r.pc {
        Pc::UnstageAll(k) => {
            assert(!d2.contains_key(stage(r, k as int)));
            assert(stage(r2, k as int) == stage(r, k as int));
        },
        Pc::Promote(k) => {
            if ev is Done {
                assert(dest(r, k as int) != stage(r, k as int));
                assert(!d2.contains_key(stage(r, k as int)));
                assert(stage(r2, k as int) == stage(r, k as int));
            }
        },
        _ => {},
    }
}

proof fn lemma_tidy_end(
    r: TxRunV,
    d0: DiskV,
    d: DiskV,
    ev: EventV,
    d2: DiskV,
    wrote: bool,
)
    requires
        tx_inv(r, d0, d),
        is_tidy(r, d, wrote),
        disk_step(d, r, ev, d2),
        removes(d, r, ev),
        r.pc is Restore || r.pc is DropRest || r.pc is CheckBak || r.pc is RestoreLast || r.pc
            is RollbackJournal || r.pc is CleanBak || r.pc is JournalDone || r.pc is CleanJournal,
    ensures
        is_tidy(step(r, ev), d2, wrote_journal(wrote, r, ev)),
{
    crate::durability::lemma_paths_kept(r, ev);
    let r2 = step(r, ev);
    lemma_stages(r, r2, d, d2, ev);
    match r.pc {
        Pc::DropRest { at: _, k } => {
            assert(!d2.contains_key(stage(r, k as int)));
            assert(stage(r2, k as int) == stage(r, k as int));
        },
        Pc::CleanBak(k) => {
            assert(!d2.contains_key(bak(r, k as int)));
            assert forall|i: int| 0 <= i < k + 1 implies !d2.contains_key(#[trigger] bak(r2, i)) by {
                assert(bak(r2, i) == bak(r, i));
                if i < k {
                    assert(!d.contains_key(bak(r, i)));
                }
            }
        },
        Pc::JournalDone | Pc::CleanJournal => {
            assert forall|i: int| 0 <= i < r.files.len() implies !d2.contains_key(
                #[trigger] bak(r2, i),
            ) by {
                assert(bak(r2, i) == bak(r, i));
                assert(!d.contains_key(bak(r, i)));
                assert(dest(r, i) != r.jpath);
                let p = bak(r, i);
                assert(r.pc is JournalDone ==> d2.contains_key(p) == d.contains_key(p));
            }
        },
        Pc::RollbackJournal(_) => {
            assert forall|i: int| 0 <= i < r.files.len() implies !d2.contains_key(
                #[trigger] bak(r2, i),
            ) by {
                assert(bak(r2, i) == bak(r, i));
                assert(untouched(r, d, i));
            }
        },
        _ => {},
    }
}

/// Every call keeps a transaction tidy, as long as what it removes goes.
pub proof fn law_tidy_step(
    r: TxRunV,
    d0: DiskV,
    d: DiskV,
    ev: EventV,
    d2: DiskV,
    wrote: bool,
)
    requires
        tx_inv(r, d0, d),
        is_tidy(r, d, wrote),
        disk_step(d, r, ev, d2),
        removes(d, r, ev),
    ensures
        is_tidy(step(r, ev), d2, wrote_journal(wrote, r, ev)),
{
    match r.pc {
        Pc::Pending
        | Pc::Resolve(_)
        | Pc::Stat(_)
        | Pc::Read(_)
        | Pc::JournalFirst
        | Pc::StageWrite(_)
        | Pc::StageSync(_)
        | Pc::DropStage { .. }
        | Pc::DropJournal { .. } => {
            lemma_tidy_stage(r, d0, d, ev, d2, wrote);
        },
        Pc::JournalStaged
        | Pc::UnstageAll(_)
        | Pc::UnstageJournal
        | Pc::JournalSwapping
        | Pc::Backup(_)
        | Pc::Promote(_)
        | Pc::JournalSwap(_) => {
            lemma_tidy_commit(r, d0, d, ev, d2, wrote);
        },
        Pc::Finished => {},
        _ => {
            lemma_tidy_end(r, d0, d, ev, d2, wrote);
        },
    }
}

/// A transaction leaves nothing behind. One that succeeded leaves the
/// disk it found with every candidate in place, and nothing else
/// changed. One that failed in the commit leaves that, or the disk it
/// found. One that failed while staging leaves the disk it found; where
/// not even its journal could be written, what the failed write left of
/// that is there too. One that was refused leaves the disk it found.
pub proof fn law_persist_leaves(r: TxRunV, d0: DiskV, d: DiskV, wrote: bool)
    requires
        tx_inv(r, d0, d),
        r.pc is Finished,
        is_fresh(r, d0),
        others_kept(r, d0, d),
        is_tidy(r, d, wrote),
    ensures
        r.outcome is Ok ==> only_installed(r, d0, d),
        r.outcome matches Err(e) ==> {
            &&& e.phase == Phase::Prepare ==> d == d0
            &&& e.phase == Phase::Staging && wrote ==> d =~= d0
            &&& e.phase == Phase::Staging ==> same_but(d0, d, r.jpath)
            &&& e.phase == Phase::Commit ==> d =~= d0 || only_installed(r, d0, d)
        },
{
    let n = r.files.len() as int;
    assert forall|p: FsPathV| is_artifact(r, p) && p != r.jpath && no_stage(r, d, 0, n) && no_bak(
        r,
        d,
        n,
    ) implies #[trigger] agree(d0, d, p) by {
        let i = choose|i: int| 0 <= i < r.files.len() && #[trigger] is_side(r, p, i);
        assert(!d0.contains_key(p));
        assert(!d.contains_key(stage(r, i)) && !d.contains_key(bak(r, i)));
    }
    assert(is_artifact(r, r.jpath));
    assert(!d0.contains_key(r.jpath));
    if all_untouched(r, d) {
        assert forall|i: int| 0 <= i < n implies !d.contains_key(#[trigger] bak(r, i)) by {
            assert(untouched(r, d, i));
        }
        if !crate::durability::is_preparing(r) {
            assert forall|p: FsPathV| is_dest(r, p) implies #[trigger] agree(d0, d, p) by {
                let i = choose|i: int| 0 <= i < r.files.len() && p == #[trigger] dest(r, i);
                assert(untouched(r, d, i));
                assert(holds_before(r, d0, i));
            }
        }
    }
    if let Err(e) = r.outcome {
        if e.phase == Phase::Staging {
            assert forall|q: FsPathV| q != r.jpath implies #[trigger] d.contains_key(q)
                == d0.contains_key(q) && (d0.contains_key(q) ==> d[q] == d0[q]) by {
                assert(agree(d0, d, q));
            }
            if wrote {
                assert forall|q: FsPathV| #[trigger] d.contains_key(q) == d0.contains_key(q) && (
                d0.contains_key(q) ==> d[q] == d0[q]) by {
                    if q != r.jpath {
                        assert(agree(d0, d, q));
                    }
                }
                assert(d =~= d0);
            }
        }
        if e.phase == Phase::Commit && all_untouched(r, d) {
            assert forall|q: FsPathV| #[trigger] d.contains_key(q) == d0.contains_key(q) && (
            d0.contains_key(q) ==> d[q] == d0[q]) by {
                assert(agree(d0, d, q));
            }
            assert(d =~= d0);
        }
    }
}

/// Every destination holds its candidate, and every other path what it
/// held.
pub open spec fn only_installed(r: TxRunV, d0: DiskV, d: DiskV) -> bool {
    all_after(r, d) && forall|p: FsPathV| !is_dest(r, p) ==> #[trigger] agree(d0, d, p)
}

} // verus!
