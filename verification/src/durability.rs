//! What a persistence transaction guarantees of the disk.
//!
//! A disk is a map from paths to bytes. [`disk_step`] says what each
//! file-system call of a transaction may do to a disk nobody else
//! writes to; [`tx_inv`] is what then holds between a run and its disk
//! at every point, and [`law_persist_outcome`] what a finished run left
//! behind.

use crate::paths::FsPathV;
use crate::persist::Phase;
use crate::transaction::{Action, EventV, Pc, TxRunV};
use vstd::prelude::*;

verus! {

/// The contents of a disk.
pub type DiskV = Map<FsPathV, Seq<u8>>;

/// Destination `i` of a run.
pub open spec fn dest(r: TxRunV, i: int) -> FsPathV {
    r.journal.files[i].path
}

/// Stage `i` of a run.
pub open spec fn stage(r: TxRunV, i: int) -> FsPathV {
    r.journal.files[i].stage
}

/// Backup `i` of a run.
pub open spec fn bak(r: TxRunV, i: int) -> FsPathV {
    r.journal.files[i].bak
}

/// No two paths of a transaction are the same file.
pub open spec fn disjoint(r: TxRunV) -> bool {
    &&& forall|i: int, j: int|
        0 <= i < r.files.len() && 0 <= j < r.files.len() && i != j ==> {
            &&& #[trigger] dest(r, i) != #[trigger] dest(r, j)
            &&& stage(r, i) != stage(r, j)
            &&& bak(r, i) != bak(r, j)
        }
    &&& forall|i: int, j: int|
        0 <= i < r.files.len() && 0 <= j < r.files.len() ==> {
            &&& #[trigger] dest(r, i) != #[trigger] stage(r, j)
            &&& dest(r, i) != bak(r, j)
            &&& bak(r, i) != stage(r, j)
        }
    &&& forall|i: int|
        0 <= i < r.files.len() ==> {
            &&& #[trigger] dest(r, i) != r.jpath
            &&& stage(r, i) != r.jpath
            &&& bak(r, i) != r.jpath
        }
}

/// Two disks hold the same at `p`.
pub open spec fn agree(d: DiskV, d2: DiskV, p: FsPathV) -> bool {
    d2.contains_key(p) == d.contains_key(p) && (d.contains_key(p) ==> d2[p] == d[p])
}

/// `d2` holds what `d` holds, except perhaps at `p`.
pub open spec fn same_but(d: DiskV, d2: DiskV, p: FsPathV) -> bool {
    forall|q: FsPathV| q != p ==> (#[trigger] d2.contains_key(q) == d.contains_key(q) && (
    d.contains_key(q) ==> d2[q] == d[q]))
}

/// `d2` is `d` after the rename `from → to`.
pub open spec fn moved(d: DiskV, d2: DiskV, from: FsPathV, to: FsPathV) -> bool {
    d.contains_key(from) && d2 == d.remove(from).insert(to, d[from])
}

/// A removal of `p` that happened or failed whole.
pub open spec fn removal(d: DiskV, p: FsPathV, ev: EventV, d2: DiskV) -> bool {
    if ev is Done {
        d2 == d.remove(p)
    } else {
        d2 == d
    }
}

/// What the due call of run `r` may do to disk `d`, and what may come
/// of it: reads tell the truth, renames and removals happen or fail
/// whole, a failed stage write may leave anything in the stage.
pub open spec fn disk_step(d: DiskV, r: TxRunV, ev: EventV, d2: DiskV) -> bool {
    let ok = ev is Done;
    match crate::transaction::action_at(r.pc) {
        Action::ReadDest(i) => d2 == d && (ev matches EventV::Bytes(b) ==> d.contains_key(
            dest(r, i as int),
        ) && b == d[dest(r, i as int)]),
        Action::WriteJournal => same_but(d, d2, r.jpath),
        Action::WriteStage(i) => if ok {
            d2 == d.insert(stage(r, i as int), r.files[i as int].after)
        } else {
            same_but(d, d2, stage(r, i as int))
        },
        Action::RemoveStage(i) => removal(d, stage(r, i as int), ev, d2),
        Action::RemoveJournal => removal(d, r.jpath, ev, d2),
        Action::DestToBak(i) => if ok {
            moved(d, d2, dest(r, i as int), bak(r, i as int))
        } else {
            d2 == d
        },
        Action::StageToDest(i) => if ok {
            moved(d, d2, stage(r, i as int), dest(r, i as int))
        } else {
            d2 == d
        },
        Action::BakToDest(i) => if ok {
            moved(d, d2, bak(r, i as int), dest(r, i as int))
        } else {
            d2 == d
        },
        Action::TestBak(i) => d2 == d && (ev matches EventV::Exists(b) ==> b == d.contains_key(
            bak(r, i as int),
        )),
        Action::RemoveBak(i) => removal(d, bak(r, i as int), ev, d2),
        _ => d2 == d,
    }
}

/// Destination `i` holds the validated bytes.
pub open spec fn holds_before(r: TxRunV, d: DiskV, i: int) -> bool {
    d.contains_key(dest(r, i)) && d[dest(r, i)] == r.files[i].before
}

/// Destination `i` holds the candidate bytes.
pub open spec fn holds_after(r: TxRunV, d: DiskV, i: int) -> bool {
    d.contains_key(dest(r, i)) && d[dest(r, i)] == r.files[i].after
}

/// Candidate `i` is staged.
pub open spec fn is_staged(r: TxRunV, d: DiskV, i: int) -> bool {
    d.contains_key(stage(r, i)) && d[stage(r, i)] == r.files[i].after
}

/// The validated bytes of file `i` are in its backup.
pub open spec fn is_backed_up(r: TxRunV, d: DiskV, i: int) -> bool {
    d.contains_key(bak(r, i)) && d[bak(r, i)] == r.files[i].before
}

/// File `i` has not been touched: validated bytes in place, no backup.
pub open spec fn untouched(r: TxRunV, d: DiskV, i: int) -> bool {
    holds_before(r, d, i) && !d.contains_key(bak(r, i))
}

/// File `i` is swapped: candidate in place, validated bytes backed up.
pub open spec fn is_swapped(r: TxRunV, d: DiskV, i: int) -> bool {
    holds_after(r, d, i) && is_backed_up(r, d, i)
}

/// File `i` sits in its backup, with nothing in place.
pub open spec fn is_moved_away(r: TxRunV, d: DiskV, i: int) -> bool {
    !d.contains_key(dest(r, i)) && is_backed_up(r, d, i)
}

/// Every destination holds the validated bytes.
pub open spec fn all_before(r: TxRunV, d: DiskV) -> bool {
    forall|i: int| 0 <= i < r.files.len() ==> #[trigger] holds_before(r, d, i)
}

/// Every destination holds the candidate bytes.
pub open spec fn all_after(r: TxRunV, d: DiskV) -> bool {
    forall|i: int| 0 <= i < r.files.len() ==> #[trigger] holds_after(r, d, i)
}

/// Nothing has been touched.
pub open spec fn all_untouched(r: TxRunV, d: DiskV) -> bool {
    forall|i: int| 0 <= i < r.files.len() ==> #[trigger] untouched(r, d, i)
}

/// The candidates below `n` are staged.
pub open spec fn staged_below(r: TxRunV, d: DiskV, n: int) -> bool {
    forall|i: int| 0 <= i < n ==> #[trigger] is_staged(r, d, i)
}

/// The files below `n` are swapped, those from `m` on are untouched
/// and staged.
pub open spec fn split(r: TxRunV, d: DiskV, n: int, m: int) -> bool {
    &&& forall|i: int| 0 <= i < n ==> #[trigger] is_swapped(r, d, i)
    &&& forall|i: int| m <= i < r.files.len() ==> #[trigger] untouched(r, d, i)
    &&& forall|i: int| m <= i < r.files.len() ==> #[trigger] is_staged(r, d, i)
}

/// A rollback that met no failure has restored the files below `k`,
/// still has the swapped files from `k` to `at`, and has the files
/// behind `at` untouched.
pub open spec fn unwinding(r: TxRunV, d: DiskV, at: int, k: int) -> bool {
    r.errors.len() == 0 ==> {
        &&& forall|i: int| 0 <= i < k ==> #[trigger] untouched(r, d, i)
        &&& forall|i: int| k <= i < at ==> #[trigger] is_swapped(r, d, i)
        &&& forall|i: int| at < i < r.files.len() ==> #[trigger] untouched(r, d, i)
        &&& untouched(r, d, at) || is_moved_away(r, d, at)
    }
}

/// The candidates from `n` on are staged.
pub open spec fn staged_from(r: TxRunV, d: DiskV, n: int) -> bool {
    forall|i: int| n <= i < r.files.len() ==> #[trigger] is_staged(r, d, i)
}

/// The transaction can be resumed: nothing has been touched, or every
/// file is swapped or untouched and staged.
pub open spec fn resumable(r: TxRunV, d: DiskV) -> bool {
    all_untouched(r, d) || exists|n: int|
        0 <= n <= r.files.len() && #[trigger] split(r, d, n, n)
}

/// Whether the run is still checking its destinations, or stopped
/// there.
pub open spec fn is_preparing(r: TxRunV) -> bool {
    match r.pc {
        Pc::Pending | Pc::Resolve(_) | Pc::Stat(_) | Pc::Read(_) => true,
        Pc::Finished => r.outcome matches Err(e) && e.phase == Phase::Prepare,
        _ => false,
    }
}

/// What a finished run left on the disk, against the disk `d0` it
/// found.
pub open spec fn outcome_holds(r: TxRunV, d0: DiskV, d: DiskV) -> bool {
    match r.outcome {
        Ok(()) => all_after(r, d),
        Err(e) => match e.phase {
            Phase::Prepare => d == d0,
            Phase::Staging => all_untouched(r, d),
            Phase::Commit => all_untouched(r, d) || all_after(r, d),
            Phase::RecoveryRequired => e.journal == Some(r.jpath) && (e.rollback_errors.len() == 0
                ==> resumable(r, d)),
        },
    }
}

/// What holds between a run and its disk at every point.
pub open spec fn tx_inv(r: TxRunV, d0: DiskV, d: DiskV) -> bool {
    &&& crate::transaction::run_wf(r)
    &&& r.files.len() <= usize::MAX
    &&& disjoint(r)
    &&& forall|i: int| 0 <= i < r.files.len() ==> !d0.contains_key(#[trigger] bak(r, i))
    &&& !is_preparing(r) ==> all_before(r, d0)
    &&& match r.pc {
        Pc::Pending => d == d0,
        Pc::Resolve(n) => d == d0 && forall|i: int| 0 <= i < n ==> #[trigger] untouched(r, d, i),
        Pc::Stat(n) => d == d0 && forall|i: int| 0 <= i < n ==> #[trigger] untouched(r, d, i),
        Pc::Read(n) => d == d0 && forall|i: int| 0 <= i < n ==> #[trigger] untouched(r, d, i),
        Pc::JournalFirst => all_untouched(r, d),
        Pc::StageWrite(n) => all_untouched(r, d) && staged_below(r, d, n as int),
        Pc::StageSync(n) => all_untouched(r, d) && staged_below(r, d, n + 1),
        Pc::DropStage { .. } => all_untouched(r, d),
        Pc::DropJournal { .. } => all_untouched(r, d),
        Pc::JournalStaged => all_untouched(r, d) && staged_below(r, d, r.files.len() as int),
        Pc::UnstageAll(_) => all_untouched(r, d),
        Pc::UnstageJournal => all_untouched(r, d),
        Pc::JournalSwapping => all_untouched(r, d) && staged_below(r, d, r.files.len() as int),
        Pc::Backup(n) => split(r, d, n as int, n as int),
        Pc::Promote(n) => split(r, d, n as int, n + 1) && is_moved_away(r, d, n as int)
            && is_staged(r, d, n as int),
        Pc::JournalSwap(n) => split(r, d, n + 1, n + 1),
        Pc::Restore { at, k } => unwinding(r, d, at as int, k as int) && (r.errors.len() == 0
            ==> staged_from(r, d, at as int)),
        Pc::DropRest { at, k: _ } => unwinding(r, d, at as int, at as int),
        Pc::CheckBak(at) => unwinding(r, d, at as int, at as int),
        Pc::RestoreLast(at) => unwinding(r, d, at as int, at as int) && (r.errors.len() == 0
            ==> is_moved_away(r, d, at as int)),
        Pc::RollbackJournal(_) => all_untouched(r, d),
        Pc::CleanBak(_) => all_after(r, d),
        Pc::JournalDone => all_after(r, d),
        Pc::CleanJournal => all_after(r, d),
        Pc::Finished => outcome_holds(r, d0, d),
    }
}

/// A fresh transaction on a disk that holds none of its backups.
pub proof fn law_persist_start(
    root: FsPathV,
    files: Seq<crate::persist::TxFileV>,
    fail: Option<crate::persist::FailPoint>,
    tx: Seq<char>,
    d: DiskV,
)
    requires
        files.len() <= usize::MAX,
        disjoint(crate::transaction::start_of(root, files, fail, tx)),
        forall|i: int|
            0 <= i < files.len() ==> !d.contains_key(
                #[trigger] bak(crate::transaction::start_of(root, files, fail, tx), i),
            ),
    ensures
        tx_inv(crate::transaction::start_of(root, files, fail, tx), d, d),
{
}

proof fn lemma_prepare(r: TxRunV, d0: DiskV, d: DiskV, ev: EventV, d2: DiskV)
    requires
        tx_inv(r, d0, d),
        disk_step(d, r, ev, d2),
        r.pc is Pending || r.pc is Resolve || r.pc is Stat || r.pc is Read,
    ensures
        tx_inv(crate::transaction::step(r, ev), d0, d2),
{
    lemma_paths_kept(r, ev);
    let r2 = crate::transaction::step(r, ev);
    assert(d2 == d);
    assert(r2.journal == r.journal);
    assert forall|i: int| 0 <= i < r.files.len() implies #[trigger] untouched(r2, d2, i)
        == untouched(r, d, i) by {}
    match r.pc {
        Pc::Read(n) => {
            if let EventV::Bytes(b) = ev {
                if b == r.files[n as int].before {
                    assert(!d0.contains_key(bak(r, n as int)));
                    assert(untouched(r, d, n as int));
                    assert forall|i: int| 0 <= i < n + 1 implies #[trigger] untouched(
                        r2,
                        d2,
                        i,
                    ) by {
                        assert(untouched(r, d, i));
                    }
                    if n + 1 == r.files.len() {
                        assert forall|i: int| 0 <= i < r.files.len() implies #[trigger] holds_before(
                            r2,
                            d2,
                            i,
                        ) by {
                            assert(untouched(r2, d2, i));
                        }
                        assert(all_before(r2, d0));
                    }
                }
            }
        },
        _ => {},
    }
}

/// `r2` names the same files by the same paths as `r`.
pub open spec fn same_paths(r: TxRunV, r2: TxRunV) -> bool {
    &&& r2.files == r.files
    &&& r2.jpath == r.jpath
    &&& forall|i: int| 0 <= i < r.files.len() ==> #[trigger] dest(r2, i) == dest(r, i)
    &&& forall|i: int| 0 <= i < r.files.len() ==> #[trigger] stage(r2, i) == stage(r, i)
    &&& forall|i: int| 0 <= i < r.files.len() ==> #[trigger] bak(r2, i) == bak(r, i)
}

/// What a call that touches only path `p` keeps, for a run whose paths
/// stay the same.
pub proof fn lemma_frame(r: TxRunV, r2: TxRunV, d: DiskV, d2: DiskV, p: FsPathV)
    requires
        same_paths(r, r2),
        same_but(d, d2, p),
    ensures
        forall|i: int|
            0 <= i < r.files.len() && p != dest(r, i) ==> #[trigger] holds_before(r2, d2, i)
                == holds_before(r, d, i),
        forall|i: int|
            0 <= i < r.files.len() && p != dest(r, i) ==> #[trigger] holds_after(r2, d2, i)
                == holds_after(r, d, i),
        forall|i: int|
            0 <= i < r.files.len() && p != dest(r, i) && p != bak(r, i) ==> #[trigger] untouched(
                r2,
                d2,
                i,
            ) == untouched(r, d, i),
        forall|i: int|
            0 <= i < r.files.len() && p != dest(r, i) && p != bak(r, i) ==> #[trigger] is_swapped(
                r2,
                d2,
                i,
            ) == is_swapped(r, d, i),
        forall|i: int|
            0 <= i < r.files.len() && p != dest(r, i) && p != bak(r, i)
                ==> #[trigger] is_moved_away(r2, d2, i) == is_moved_away(r, d, i),
        forall|i: int|
            0 <= i < r.files.len() && p != stage(r, i) ==> #[trigger] is_staged(r2, d2, i)
                == is_staged(r, d, i),
{
    assert forall|i: int| 0 <= i < r.files.len() && p != dest(r, i) implies #[trigger] holds_before(
        r2,
        d2,
        i,
    ) == holds_before(r, d, i) && holds_after(r2, d2, i) == holds_after(r, d, i) by {
        let q = dest(r, i);
        assert(dest(r2, i) == q);
        assert(d2.contains_key(q) == d.contains_key(q));
    }
    assert forall|i: int| 0 <= i < r.files.len() && p != dest(r, i) implies #[trigger] holds_after(
        r2,
        d2,
        i,
    ) == holds_after(r, d, i) by {
        assert(holds_before(r2, d2, i) == holds_before(r, d, i));
    }
    assert forall|i: int|
        0 <= i < r.files.len() && p != dest(r, i) && p != bak(r, i) implies #[trigger] untouched(
        r2,
        d2,
        i,
    ) == untouched(r, d, i) by {
        let q = bak(r, i);
        assert(bak(r2, i) == q);
        assert(d2.contains_key(q) == d.contains_key(q));
        assert(holds_before(r2, d2, i) == holds_before(r, d, i));
    }
    assert forall|i: int|
        0 <= i < r.files.len() && p != dest(r, i) && p != bak(r, i) implies #[trigger] is_swapped(
        r2,
        d2,
        i,
    ) == is_swapped(r, d, i) by {
        let q = bak(r, i);
        assert(bak(r2, i) == q);
        assert(d2.contains_key(q) == d.contains_key(q));
        assert(holds_after(r2, d2, i) == holds_after(r, d, i));
    }
    assert forall|i: int|
        0 <= i < r.files.len() && p != dest(r, i) && p != bak(r, i) implies #[trigger] is_moved_away(
        r2,
        d2,
        i,
    ) == is_moved_away(r, d, i) by {
        let q = bak(r, i);
        assert(bak(r2, i) == q);
        assert(d2.contains_key(q) == d.contains_key(q));
        let t = dest(r, i);
        assert(dest(r2, i) == t);
        assert(d2.contains_key(t) == d.contains_key(t));
    }
    assert forall|i: int| 0 <= i < r.files.len() && p != stage(r, i) implies #[trigger] is_staged(
        r2,
        d2,
        i,
    ) == is_staged(r, d, i) by {
        let q = stage(r, i);
        assert(stage(r2, i) == q);
        assert(d2.contains_key(q) == d.contains_key(q));
    }
}

/// Paths stay the same over a step, so distinctness does.
pub proof fn lemma_paths_kept(r: TxRunV, ev: EventV)
    requires
        crate::transaction::run_wf(r),
        r.files.len() <= usize::MAX,
        disjoint(r),
    ensures
        same_paths(r, crate::transaction::step(r, ev)),
        disjoint(crate::transaction::step(r, ev)),
        crate::transaction::run_wf(crate::transaction::step(r, ev)),
        forall|d: DiskV|
            all_before(r, d) ==> #[trigger] all_before(crate::transaction::step(r, ev), d),
{
    crate::transaction::lemma_step_wf(r, ev);
    let r2 = crate::transaction::step(r, ev);
    assert forall|i: int| 0 <= i < r.files.len() implies #[trigger] dest(r2, i) == dest(r, i) by {
        assert(r2.journal.files[i].path == r.journal.files[i].path);
    }
    assert forall|i: int| 0 <= i < r.files.len() implies #[trigger] stage(r2, i) == stage(r, i) by {
        assert(r2.journal.files[i].path == r.journal.files[i].path);
    }
    assert forall|i: int| 0 <= i < r.files.len() implies #[trigger] bak(r2, i) == bak(r, i) by {
        assert(r2.journal.files[i].path == r.journal.files[i].path);
    }
    lemma_disjoint_kept(r, r2);
    assert forall|d: DiskV| all_before(r, d) implies #[trigger] all_before(r2, d) by {
        assert forall|i: int| 0 <= i < r2.files.len() implies #[trigger] holds_before(r2, d, i) by {
            assert(holds_before(r, d, i));
            assert(dest(r2, i) == dest(r, i));
        }
    }
}

proof fn lemma_disjoint_kept(r: TxRunV, r2: TxRunV)
    requires
        disjoint(r),
        same_paths(r, r2),
    ensures
        disjoint(r2),
{
    assert forall|i: int, j: int|
        0 <= i < r.files.len() && 0 <= j < r.files.len() && i != j implies #[trigger] dest(r2, i)
        != #[trigger] dest(r2, j) && stage(r2, i) != stage(r2, j) && bak(r2, i) != bak(
        r2,
        j,
    ) by {
        assert(dest(r, i) != dest(r, j));
        assert(stage(r2, i) == stage(r, i) && stage(r2, j) == stage(r, j));
        assert(bak(r2, i) == bak(r, i) && bak(r2, j) == bak(r, j));
    }
    assert forall|i: int, j: int|
        0 <= i < r.files.len() && 0 <= j < r.files.len() implies #[trigger] dest(r2, i)
        != #[trigger] stage(r2, j) && dest(r2, i) != bak(r2, j) && bak(r2, i) != stage(
        r2,
        j,
    ) by {
        assert(dest(r, i) != stage(r, j));
        assert(bak(r2, i) == bak(r, i) && bak(r2, j) == bak(r, j));
    }
    assert forall|i: int| 0 <= i < r.files.len() implies #[trigger] dest(r2, i) != r2.jpath
        && stage(r2, i) != r2.jpath && bak(r2, i) != r2.jpath by {
        assert(dest(r, i) != r.jpath);
        assert(stage(r2, i) == stage(r, i));
        assert(bak(r2, i) == bak(r, i));
    }
}

proof fn lemma_stage_phase(r: TxRunV, d0: DiskV, d: DiskV, ev: EventV, d2: DiskV)
    requires
        tx_inv(r, d0, d),
        disk_step(d, r, ev, d2),
        r.pc is JournalFirst || r.pc is StageWrite || r.pc is StageSync || r.pc is DropStage
            || r.pc is DropJournal,
    ensures
        tx_inv(crate::transaction::step(r, ev), d0, d2),
{
    lemma_paths_kept(r, ev);
    let r2 = crate::transaction::step(r, ev);
    let p = match r.pc {
        Pc::StageWrite(i) => stage(r, i as int),
        Pc::DropStage { at: _, k } => stage(r, k as int),
        _ => r.jpath,
    };
    assert(same_but(d, d2, p));
    lemma_frame(r, r2, d, d2, p);
    assert(all_untouched(r2, d2)) by {
        assert forall|i: int| 0 <= i < r.files.len() implies #[trigger] untouched(r2, d2, i) by {
            assert(untouched(r, d, i));
            assert(dest(r, i) != p);
            assert(bak(r, i) != p) by {
                match r.pc {
                    Pc::StageWrite(k) => {
                        assert(dest(r, i) != stage(r, k as int));
                    },
                    Pc::DropStage { at: _, k } => {
                        assert(dest(r, i) != stage(r, k as int));
                    },
                    _ => {},
                }
            }
        }
    }
    match r.pc {
        Pc::StageWrite(n) => {
            assert forall|i: int| 0 <= i < n implies #[trigger] is_staged(r2, d2, i) by {
                assert(is_staged(r, d, i));
                assert(dest(r, i) != dest(r, n as int));
                assert(stage(r, i) != stage(r, n as int));
            }
            if ev is Done {
                assert(stage(r2, n as int) == stage(r, n as int));
                assert(is_staged(r2, d2, n as int));
            }
        },
        Pc::StageSync(n) => {
            assert forall|i: int| 0 <= i < n + 1 implies #[trigger] is_staged(r2, d2, i) by {
                assert(is_staged(r, d, i));
                assert(dest(r, i) != r.jpath);
            }
        },
        _ => {},
    }
}

/// Every call of a transaction keeps what holds between the run and
/// its disk, whatever comes of the call.
pub proof fn law_persist_step(r: TxRunV, d0: DiskV, d: DiskV, ev: EventV, d2: DiskV)
    requires
        tx_inv(r, d0, d),
        disk_step(d, r, ev, d2),
    ensures
        tx_inv(crate::transaction::step(r, ev), d0, d2),
{
    match r.pc {
        Pc::Pending | Pc::Resolve(_) | Pc::Stat(_) | Pc::Read(_) => {
            lemma_prepare(r, d0, d, ev, d2);
        },
        Pc::JournalFirst
        | Pc::StageWrite(_)
        | Pc::StageSync(_)
        | Pc::DropStage { .. }
        | Pc::DropJournal { .. } => {
            lemma_stage_phase(r, d0, d, ev, d2);
        },
        Pc::JournalStaged
        | Pc::UnstageAll(_)
        | Pc::UnstageJournal
        | Pc::JournalSwapping
        | Pc::Backup(_)
        | Pc::Promote(_)
        | Pc::JournalSwap(_) => {
            lemma_commit_phase(r, d0, d, ev, d2);
        },
        Pc::Restore { .. }
        | Pc::DropRest { .. }
        | Pc::CheckBak(_)
        | Pc::RestoreLast(_)
        | Pc::RollbackJournal(_) => {
            lemma_rollback_phase(r, d0, d, ev, d2);
        },
        Pc::CleanBak(_) | Pc::JournalDone | Pc::CleanJournal => {
            lemma_clean_phase(r, d0, d, ev, d2);
        },
        Pc::Finished => {},
    }
}

/// All or nothing: a transaction that reports success has installed
/// every candidate; one that reports a prepare failure has written
/// nothing at all; one that failed while staging has every destination
/// as validated; one that failed in the commit has every destination
/// as validated or every candidate installed; and one that could not
/// undo its work names its journal. A transaction that died, without a
/// rollback that failed, can be resumed.
pub proof fn law_persist_outcome(r: TxRunV, d0: DiskV, d: DiskV)
    requires
        tx_inv(r, d0, d),
        r.pc is Finished,
    ensures
        r.outcome is Ok ==> all_after(r, d),
        r.outcome matches Err(e) ==> {
            &&& e.phase == Phase::Prepare ==> d == d0
            &&& e.phase == Phase::Staging ==> all_before(r, d)
            &&& e.phase == Phase::Commit ==> all_before(r, d) || all_after(r, d)
            &&& e.phase == Phase::RecoveryRequired ==> e.journal == Some(r.jpath) && (
            e.rollback_errors.len() == 0 ==> resumable(r, d))
        },
{
    if all_untouched(r, d) {
        assert forall|i: int| 0 <= i < r.files.len() implies #[trigger] holds_before(r, d, i) by {
            assert(untouched(r, d, i));
        }
    }
}

/// Live files are never touched before every candidate is staged: up
/// to the first swap each destination still holds the validated bytes.
pub proof fn law_untouched_until_swap(r: TxRunV, d0: DiskV, d: DiskV)
    requires
        tx_inv(r, d0, d),
        r.pc is JournalFirst || r.pc is StageWrite || r.pc is StageSync || r.pc is JournalStaged
            || r.pc is JournalSwapping || r.pc == Pc::Backup(0),
    ensures
        all_before(r, d),
{
    assert forall|i: int| 0 <= i < r.files.len() implies #[trigger] holds_before(r, d, i) by {
        assert(untouched(r, d, i));
    }
}

proof fn lemma_commit_phase(r: TxRunV, d0: DiskV, d: DiskV, ev: EventV, d2: DiskV)
    requires
        tx_inv(r, d0, d),
        disk_step(d, r, ev, d2),
        r.pc is JournalStaged || r.pc is UnstageAll || r.pc is UnstageJournal || r.pc
            is JournalSwapping || r.pc is Backup || r.pc is Promote || r.pc is JournalSwap,
    ensures
        tx_inv(crate::transaction::step(r, ev), d0, d2),
{
    lemma_paths_kept(r, ev);
    let r2 = crate::transaction::step(r, ev);
    match r.pc {
        Pc::Backup(n) => {
            lemma_backup(r, d0, d, ev, d2, n);
        },
        Pc::Promote(n) => {
            lemma_promote(r, d0, d, ev, d2, n);
        },
        Pc::JournalSwap(n) => {
            lemma_frame(r, r2, d, d2, r.jpath);
            assert forall|i: int| 0 <= i < n + 1 implies #[trigger] is_swapped(r2, d2, i) by {
                assert(is_swapped(r, d, i));
                assert(dest(r, i) != r.jpath);
            }
            assert forall|i: int| n + 1 <= i < r.files.len() implies #[trigger] untouched(
                r2,
                d2,
                i,
            ) by {
                assert(untouched(r, d, i));
                assert(dest(r, i) != r.jpath);
            }
            assert forall|i: int| n + 1 <= i < r.files.len() implies #[trigger] is_staged(
                r2,
                d2,
                i,
            ) by {
                assert(is_staged(r, d, i));
                assert(dest(r, i) != r.jpath);
            }
            lemma_enter_swap(r2, d2, n + 1);
        },
        _ => {
            let p = match r.pc {
                Pc::UnstageAll(k) => stage(r, k as int),
                _ => r.jpath,
            };
            lemma_frame(r, r2, d, d2, p);
            assert forall|i: int| 0 <= i < r.files.len() implies #[trigger] untouched(
                r2,
                d2,
                i,
            ) by {
                assert(untouched(r, d, i));
                assert(dest(r, i) != p);
                match r.pc {
                    Pc::UnstageAll(k) => {
                        assert(dest(r, i) != stage(r, k as int));
                    },
                    _ => {},
                }
            }
            if r.pc is JournalStaged || r.pc is JournalSwapping {
                assert forall|i: int| 0 <= i < r.files.len() implies #[trigger] is_staged(
                    r2,
                    d2,
                    i,
                ) by {
                    assert(is_staged(r, d, i));
                    assert(dest(r, i) != r.jpath);
                }
                if r.pc is JournalSwapping {
                    lemma_enter_swap(r2, d2, 0);
                }
            }
        },
    }
}

/// A run whose files below `n` are swapped and whose other files are
/// staged is ready for whatever follows.
proof fn lemma_enter_swap(r2: TxRunV, d2: DiskV, n: int)
    requires
        0 <= n <= r2.files.len(),
        forall|i: int| 0 <= i < n ==> #[trigger] is_swapped(r2, d2, i),
        forall|i: int| n <= i < r2.files.len() ==> #[trigger] untouched(r2, d2, i),
        forall|i: int| n <= i < r2.files.len() ==> #[trigger] is_staged(r2, d2, i),
    ensures
        split(r2, d2, n, n),
        n < r2.files.len() && r2.errors.len() == 0 ==> unwinding(r2, d2, n, 0),
        n == 0 && r2.errors.len() == 0 && r2.files.len() > 0 ==> unwinding(r2, d2, 0, 0),
        n == r2.files.len() ==> all_after(r2, d2),
{
    if n == r2.files.len() {
        assert forall|i: int| 0 <= i < r2.files.len() implies #[trigger] holds_after(
            r2,
            d2,
            i,
        ) by {
            assert(is_swapped(r2, d2, i));
        }
    }
    if n < r2.files.len() {
        assert forall|i: int| n < i < r2.files.len() implies #[trigger] holds_before(
            r2,
            d2,
            i,
        ) by {
            assert(untouched(r2, d2, i));
        }
        assert(untouched(r2, d2, n));
    }
}

proof fn lemma_backup(r: TxRunV, d0: DiskV, d: DiskV, ev: EventV, d2: DiskV, n: usize)
    requires
        tx_inv(r, d0, d),
        disk_step(d, r, ev, d2),
        r.pc == Pc::Backup(n),
    ensures
        tx_inv(crate::transaction::step(r, ev), d0, d2),
{
    lemma_paths_kept(r, ev);
    let r2 = crate::transaction::step(r, ev);
    let k = n as int;
    assert(untouched(r, d, k));
    assert(is_staged(r, d, k));
    assert forall|i: int| 0 <= i < k implies #[trigger] is_swapped(r2, d2, i) by {
        assert(is_swapped(r, d, i));
        assert(dest(r, i) != dest(r, k));
        assert(dest(r, i) != stage(r, k));
        assert(dest(r, k) != stage(r, i));
    }
    assert forall|i: int| k < i < r.files.len() implies #[trigger] untouched(r2, d2, i) by {
        assert(untouched(r, d, i));
        assert(dest(r, i) != dest(r, k));
        assert(dest(r, i) != stage(r, k));
        assert(dest(r, k) != stage(r, i));
    }
    assert forall|i: int| k <= i < r.files.len() implies #[trigger] is_staged(r2, d2, i) by {
        assert(is_staged(r, d, i));
        assert(dest(r, k) != stage(r, i));
    }
    assert forall|i: int| k < i < r.files.len() implies #[trigger] holds_before(r2, d2, i) by {
        assert(untouched(r2, d2, i));
    }
    if ev is Done {
        assert(is_moved_away(r2, d2, k));
    } else {
        assert(untouched(r2, d2, k));
    }
}

proof fn lemma_promote(r: TxRunV, d0: DiskV, d: DiskV, ev: EventV, d2: DiskV, n: usize)
    requires
        tx_inv(r, d0, d),
        disk_step(d, r, ev, d2),
        r.pc == Pc::Promote(n),
    ensures
        tx_inv(crate::transaction::step(r, ev), d0, d2),
{
    lemma_paths_kept(r, ev);
    let r2 = crate::transaction::step(r, ev);
    let k = n as int;
    assert(dest(r, k) != stage(r, k));
    assert forall|i: int| 0 <= i < k implies #[trigger] is_swapped(r2, d2, i) by {
        assert(is_swapped(r, d, i));
        assert(dest(r, i) != dest(r, k));
        assert(dest(r, i) != stage(r, k));
        assert(dest(r, k) != stage(r, i));
    }
    assert forall|i: int| k < i < r.files.len() implies #[trigger] untouched(r2, d2, i) by {
        assert(untouched(r, d, i));
        assert(dest(r, i) != dest(r, k));
        assert(dest(r, i) != stage(r, k));
        assert(dest(r, k) != stage(r, i));
    }
    assert forall|i: int| k < i < r.files.len() implies #[trigger] is_staged(r2, d2, i) by {
        assert(is_staged(r, d, i));
        assert(dest(r, i) != dest(r, k));
        assert(dest(r, k) != stage(r, i));
    }
    assert forall|i: int| k < i < r.files.len() implies #[trigger] holds_before(r2, d2, i) by {
        assert(untouched(r2, d2, i));
    }
    if ev is Done {
        assert(is_swapped(r2, d2, k));
    } else {
        assert(is_moved_away(r2, d2, k));
    }
}

proof fn lemma_rollback_phase(r: TxRunV, d0: DiskV, d: DiskV, ev: EventV, d2: DiskV)
    requires
        tx_inv(r, d0, d),
        disk_step(d, r, ev, d2),
        r.pc is Restore || r.pc is DropRest || r.pc is CheckBak || r.pc is RestoreLast || r.pc
            is RollbackJournal,
    ensures
        tx_inv(crate::transaction::step(r, ev), d0, d2),
{
    lemma_paths_kept(r, ev);
    let r2 = crate::transaction::step(r, ev);
    match r.pc {
        Pc::Restore { at, k } => {
            let m = k as int;
            if r2.errors.len() == 0 && ev is Done {
                assert(is_swapped(r, d, m));
                assert(dest(r, m) != stage(r, m));
                assert forall|i: int| 0 <= i < m + 1 implies #[trigger] untouched(r2, d2, i) by {
                    if i < m {
                        assert(untouched(r, d, i));
                        assert(dest(r, i) != dest(r, m));
                        assert(dest(r, i) != stage(r, m));
                        assert(dest(r, m) != stage(r, i));
                    }
                }
                assert forall|i: int| m + 1 <= i < at implies #[trigger] is_swapped(r2, d2, i) by {
                    assert(is_swapped(r, d, i));
                    assert(dest(r, i) != dest(r, m));
                    assert(dest(r, i) != stage(r, m));
                    assert(dest(r, m) != stage(r, i));
                }
                assert forall|i: int| at < i < r.files.len() implies #[trigger] untouched(
                    r2,
                    d2,
                    i,
                ) by {
                    assert(untouched(r, d, i));
                    assert(dest(r, i) != dest(r, m));
                    assert(dest(r, i) != stage(r, m));
                    assert(dest(r, m) != stage(r, i));
                }
                assert forall|i: int| at <= i < r.files.len() implies #[trigger] is_staged(
                    r2,
                    d2,
                    i,
                ) by {
                    assert(is_staged(r, d, i));
                    assert(dest(r, m) != stage(r, i));
                }
                assert(dest(r, at as int) != dest(r, m));
                assert(dest(r, at as int) != stage(r, m));
                assert(dest(r, m) != stage(r, at as int));
                assert(untouched(r, d, at as int) ==> untouched(r2, d2, at as int));
                assert(is_moved_away(r, d, at as int) ==> is_moved_away(r2, d2, at as int));
            }
        },
        Pc::DropRest { at, k } => {
            let p = stage(r, k as int);
            lemma_frame(r, r2, d, d2, p);
            if r2.errors.len() == 0 {
                assert forall|i: int|
                    0 <= i < r.files.len() && untouched(r, d, i) implies #[trigger] untouched(
                    r2,
                    d2,
                    i,
                ) by {
                    assert(dest(r, i) != p);
                }
                assert(dest(r, at as int) != p);
                assert(untouched(r, d, at as int) ==> untouched(r2, d2, at as int));
                assert(is_moved_away(r, d, at as int) ==> is_moved_away(r2, d2, at as int));
            }
        },
        Pc::CheckBak(at) => {
            if r2.errors.len() == 0 {
                assert forall|i: int| 0 <= i < r.files.len() && i != at implies #[trigger] untouched(
                    r2,
                    d2,
                    i,
                ) by {
                    assert(untouched(r, d, i));
                }
                if ev == EventV::Exists(false) {
                    assert(untouched(r, d, at as int));
                    assert(untouched(r2, d2, at as int));
                    assert(all_untouched(r2, d2));
                }
            }
        },
        Pc::RestoreLast(at) => {
            let m = at as int;
            if r2.errors.len() == 0 && ev is Done {
                assert forall|i: int| 0 <= i < r.files.len() implies #[trigger] untouched(
                    r2,
                    d2,
                    i,
                ) by {
                    if i != m {
                        assert(untouched(r, d, i));
                        assert(dest(r, i) != dest(r, m));
                        assert(dest(r, i) != stage(r, m));
                        assert(dest(r, m) != stage(r, i));
                    }
                }
            }
        },
        _ => {
            lemma_frame(r, r2, d, d2, r.jpath);
            assert forall|i: int| 0 <= i < r.files.len() implies #[trigger] untouched(
                r2,
                d2,
                i,
            ) by {
                assert(untouched(r, d, i));
                assert(dest(r, i) != r.jpath);
            }
        },
    }
}

proof fn lemma_clean_phase(r: TxRunV, d0: DiskV, d: DiskV, ev: EventV, d2: DiskV)
    requires
        tx_inv(r, d0, d),
        disk_step(d, r, ev, d2),
        r.pc is CleanBak || r.pc is JournalDone || r.pc is CleanJournal,
    ensures
        tx_inv(crate::transaction::step(r, ev), d0, d2),
{
    lemma_paths_kept(r, ev);
    let r2 = crate::transaction::step(r, ev);
    let p = match r.pc {
        Pc::CleanBak(k) => bak(r, k as int),
        _ => r.jpath,
    };
    lemma_frame(r, r2, d, d2, p);
    assert forall|i: int| 0 <= i < r.files.len() implies #[trigger] holds_after(r2, d2, i) by {
        assert(holds_after(r, d, i));
        match r.pc {
            Pc::CleanBak(k) => {
                assert(dest(r, i) != stage(r, k as int));
            },
            _ => {
                assert(dest(r, i) != r.jpath);
            },
        }
    }
}

} // verus!
