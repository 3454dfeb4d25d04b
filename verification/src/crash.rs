//! What becomes of a transaction that is killed.
//!
//! Wherever a transaction is killed once its journal is written, the
//! disk is one that recovery settles. [`law_killed_transaction_settles`]
//! says so of the digests in the journal, and
//! [`law_killed_transaction_recovers`] of the bytes.

use crate::durability::{
    agree, bak, dest, holds_after, holds_before, is_moved_away, is_staged, is_swapped, split,
    stage, tx_inv, untouched, DiskV,
};
use crate::paths::{is_journal, journals_of, FsPathV};
use crate::persist::{fnv, JournalV, Phase};
use crate::recovery::{is_changed, recovered, RecoveryOutcome};
use crate::recovery_laws::{
    all_installed, all_ready, any_installed, count, finishes, gone, is_after, is_away, is_before,
    is_installed, is_kept, is_own, is_ready, jbak, jdest, journal_disjoint, jstage, nothing_new,
    rec_trace, same_elsewhere, settled, settles, was_there, RecPointV,
};
use crate::transaction::{EventV, Pc, TxRunV};
use vstd::prelude::*;

verus! {

/// The journal of a run names its files, digests what it validated and
/// what it is to install, and records every swap.
pub open spec fn journal_describes(r: TxRunV) -> bool {
    &&& r.journal.files.len() == r.files.len()
    &&& forall|k: int|
        0 <= k < r.files.len() ==> {
            &&& (#[trigger] r.journal.files[k]).path == r.files[k].path
            &&& r.journal.files[k].before_fp == fnv(r.files[k].before)
            &&& r.journal.files[k].after_fp == fnv(r.files[k].after)
        }
    &&& forall|k: int| 0 <= k < swaps_made(r) ==> (#[trigger] r.journal.files[k]).swapped
}

/// How many files the swaps of a run have reached, as long as it swaps
/// or takes its swaps back.
pub open spec fn swaps_made(r: TxRunV) -> int {
    match r.pc {
        Pc::Backup(n) => n as int,
        Pc::Promote(n) => n as int,
        Pc::JournalSwap(n) => n + 1,
        Pc::Restore { at, k: _ } => at as int,
        _ => 0,
    }
}

/// A fresh transaction has a journal that describes it.
pub proof fn law_journal_describes_start(
    root: crate::paths::FsPathV,
    files: Seq<crate::persist::TxFileV>,
    fail: Option<crate::persist::FailPoint>,
    tx: Seq<char>,
)
    ensures
        journal_describes(crate::transaction::start_of(root, files, fail, tx)),
{
}

/// Every call of a transaction keeps its journal describing it.
pub proof fn law_journal_describes_step(r: TxRunV, ev: EventV)
    requires
        journal_describes(r),
        crate::transaction::run_wf(r),
        r.files.len() <= usize::MAX,
    ensures
        journal_describes(crate::transaction::step(r, ev)),
{
    let r2 = crate::transaction::step(r, ev);
    match r.pc {
        Pc::Promote(i) => {
            assert forall|k: int| 0 <= k < r2.files.len() implies {
                &&& (#[trigger] r2.journal.files[k]).path == r2.files[k].path
                &&& r2.journal.files[k].before_fp == fnv(r2.files[k].before)
                &&& r2.journal.files[k].after_fp == fnv(r2.files[k].after)
            } by {
                assert(r.journal.files[k].path == r.files[k].path);
            }
            assert forall|k: int| 0 <= k < swaps_made(r2) implies (
            #[trigger] r2.journal.files[k]).swapped by {
                if k < i {
                    assert(r.journal.files[k].swapped);
                }
            }
        },
        Pc::Pending | Pc::Resolve(_) | Pc::Stat(_) | Pc::Read(_) => {},
        Pc::JournalFirst
        | Pc::StageWrite(_)
        | Pc::StageSync(_)
        | Pc::DropStage { .. }
        | Pc::DropJournal { .. } => {},
        Pc::Restore { .. }
        | Pc::DropRest { .. }
        | Pc::CheckBak(_)
        | Pc::RestoreLast(_)
        | Pc::RollbackJournal(_) => {},
        _ => {},
    }
}

/// Whether a run has passed its checks, so that its journal may be on
/// the disk, and no restore of its rollback was refused.
pub open spec fn is_journaled(r: TxRunV) -> bool {
    &&& !crate::durability::is_preparing(r)
    &&& match r.pc {
        Pc::Restore { .. }
        | Pc::DropRest { .. }
        | Pc::CheckBak(_)
        | Pc::RestoreLast(_)
        | Pc::RollbackJournal(_) => r.errors.len() == 0,
        Pc::Finished => r.outcome matches Err(e) ==> e.phase == Phase::RecoveryRequired
            ==> e.rollback_errors.len() == 0,
        _ => true,
    }
}

/// `j` is a journal of the run: it has its paths and digests.
pub open spec fn is_journal_of(j: JournalV, r: TxRunV) -> bool {
    &&& j.tx == r.journal.tx
    &&& j.files.len() == r.files.len()
    &&& forall|i: int|
        0 <= i < count(j) ==> {
            &&& (#[trigger] j.files[i]).path == dest(r, i)
            &&& j.files[i].stage == stage(r, i)
            &&& j.files[i].bak == bak(r, i)
            &&& j.files[i].before_fp == fnv(r.files[i].before)
            &&& j.files[i].after_fp == fnv(r.files[i].after)
        }
}

/// The journal a run holds is a journal of the run.
pub proof fn law_own_journal(r: TxRunV)
    requires
        journal_describes(r),
    ensures
        is_journal_of(r.journal, r),
{
}

/// What the bytes of file `i` say of its digests.
pub proof fn lemma_digests(j: JournalV, r: TxRunV, d: DiskV, i: int)
    requires
        is_journal_of(j, r),
        0 <= i < r.files.len(),
    ensures
        holds_before(r, d, i) ==> is_before(j, d, i),
        holds_after(r, d, i) ==> is_after(j, d, i),
        is_staged(r, d, i) ==> is_ready(j, d, i),
        crate::durability::is_backed_up(r, d, i) ==> is_kept(j, d, i),
        is_moved_away(r, d, i) ==> is_away(j, d, i),
        untouched(r, d, i) ==> !is_installed(j, d, i),
        is_moved_away(r, d, i) ==> !is_installed(j, d, i),
{
    assert(j.files[i].path == dest(r, i));
}

/// A run whose files are swapped or staged can be finished.
proof fn lemma_can_finish(j: JournalV, r: TxRunV, d: DiskV)
    requires
        is_journal_of(j, r),
        forall|i: int|
            0 <= i < r.files.len() ==> #[trigger] is_swapped(r, d, i) || ((untouched(r, d, i)
                || is_moved_away(r, d, i)) && is_staged(r, d, i)),
    ensures
        settles(j, d),
        any_installed(j, d) ==> finishes(j, d),
{
    assert forall|i: int| 0 <= i < count(j) implies is_after(j, d, i) || is_before(j, d, i)
        || #[trigger] is_away(j, d, i) by {
        lemma_digests(j, r, d, i);
        assert(is_swapped(r, d, i) || untouched(r, d, i) || is_moved_away(r, d, i));
    }
    assert forall|i: int| 0 <= i < count(j) && !is_after(j, d, i) implies #[trigger] is_ready(
        j,
        d,
        i,
    ) by {
        lemma_digests(j, r, d, i);
        assert(is_swapped(r, d, i) || is_staged(r, d, i));
    }
    assert(all_ready(j, d));
}

/// A run none of whose files is swapped is rolled back.
proof fn lemma_nothing_swapped(j: JournalV, r: TxRunV, d: DiskV)
    requires
        is_journal_of(j, r),
        forall|i: int|
            0 <= i < r.files.len() ==> #[trigger] untouched(r, d, i) || is_moved_away(r, d, i),
    ensures
        settles(j, d),
        !any_installed(j, d),
{
    assert forall|i: int| 0 <= i < count(j) implies is_after(j, d, i) || is_before(j, d, i)
        || #[trigger] is_away(j, d, i) by {
        lemma_digests(j, r, d, i);
        assert(untouched(r, d, i) || is_moved_away(r, d, i));
    }
    assert forall|i: int| 0 <= i < count(j) implies !(#[trigger] is_installed(j, d, i)) by {
        lemma_digests(j, r, d, i);
        assert(untouched(r, d, i) || is_moved_away(r, d, i));
    }
}

/// A run all of whose files hold their candidates is done.
proof fn lemma_all_swapped(j: JournalV, r: TxRunV, d: DiskV)
    requires
        is_journal_of(j, r),
        crate::durability::all_after(r, d),
    ensures
        settles(j, d),
        finishes(j, d),
{
    assert forall|i: int| 0 <= i < count(j) implies #[trigger] is_after(j, d, i) by {
        lemma_digests(j, r, d, i);
        assert(holds_after(r, d, i));
    }
    assert(all_installed(j, d));
    crate::recovery_laws::lemma_settles_done(j, d);
}

/// A rollback stands between two files that change: it has taken one of
/// them back, and not the other.
pub open spec fn is_half_undone(r: TxRunV) -> bool {
    r.pc matches Pc::Restore { at, k } && {
        &&& exists|i: int| 0 <= i < k && is_changed(#[trigger] r.journal.files[i])
        &&& exists|i: int| k <= i < at && is_changed(#[trigger] r.journal.files[i])
    }
}

/// A rollback that has taken nothing back that changes, or everything,
/// can be settled.
proof fn lemma_unwinding_settles(j: JournalV, r: TxRunV, d: DiskV, at: int, k: int)
    requires
        is_journal_of(j, r),
        journal_describes(r),
        0 <= k < at < r.files.len(),
        r.errors.len() == 0,
        crate::durability::unwinding(r, d, at, k),
        crate::durability::staged_from(r, d, at),
        !(exists|i: int| 0 <= i < k && is_changed(#[trigger] r.journal.files[i])) || !(exists|
            i: int,
        |
            k <= i < at && is_changed(#[trigger] r.journal.files[i])),
    ensures
        settles(j, d),
{
    assert forall|i: int| 0 <= i < count(j) implies is_changed(#[trigger] j.files[i])
        == is_changed(r.journal.files[i]) by {}
    assert forall|i: int| 0 <= i < count(j) implies is_after(j, d, i) || is_before(j, d, i)
        || #[trigger] is_away(j, d, i) by {
        lemma_digests(j, r, d, i);
        if i < k || i > at {
            assert(untouched(r, d, i));
        } else if i < at {
            assert(is_swapped(r, d, i));
        }
    }
    if exists|i: int| 0 <= i < k && is_changed(#[trigger] r.journal.files[i]) {
        assert forall|i: int| 0 <= i < count(j) implies !(#[trigger] is_installed(j, d, i)) by {
            lemma_digests(j, r, d, i);
            if i < k || i > at {
                assert(untouched(r, d, i));
            } else if i < at {
                assert(!is_changed(r.journal.files[i]));
                assert(!is_changed(j.files[i]));
            }
        }
    } else {
        assert forall|i: int| 0 <= i < count(j) && !is_after(j, d, i) implies #[trigger] is_ready(
            j,
            d,
            i,
        ) by {
            lemma_digests(j, r, d, i);
            if i < k {
                assert(!is_changed(r.journal.files[i]));
                assert(!is_changed(j.files[i]));
                assert(untouched(r, d, i));
            } else if i < at {
                assert(is_swapped(r, d, i));
            } else {
                assert(is_staged(r, d, i));
            }
        }
        assert(all_ready(j, d));
    }
}

/// A transaction that is killed while its rollback stands between two
/// files that change is left as it is: its candidates are gone, so it
/// cannot be finished, and recovery reports a conflict.
pub proof fn law_half_undone_is_a_conflict(
    r: TxRunV,
    d0: DiskV,
    d: DiskV,
    j: JournalV,
    t: Seq<RecPointV>,
)
    requires
        tx_inv(r, d0, d),
        journal_describes(r),
        is_journaled(r),
        is_journal_of(j, r),
        is_half_undone(r),
        crate::leftovers::is_tidy(r, d, true),
        rec_trace(t, r.jpath, j),
        t[0].disk == d,
        t.last().run.pc is Finished,
    ensures
        t.last().run.outcome is Conflict,
        t.last().disk == d,
{
    lemma_same_paths(j, r);
    let k = r.pc->Restore_k;
    let at = r.pc->Restore_at;
    let a = choose|i: int| 0 <= i < k && is_changed(#[trigger] r.journal.files[i]);
    let b = choose|i: int| k <= i < at && is_changed(#[trigger] r.journal.files[i]);
    lemma_digests(j, r, d, a);
    lemma_digests(j, r, d, b);
    assert(untouched(r, d, a));
    assert(is_swapped(r, d, b));
    assert(is_changed(j.files[a]) && is_changed(j.files[b]));
    assert(is_installed(j, d, b));
    assert(!d.contains_key(stage(r, a)));
    assert(!is_after(j, d, a));
    assert(jstage(j, a) == stage(r, a));
    assert(!is_ready(j, d, a));
    assert(!all_ready(j, d));
    crate::recovery_laws::law_conflict_is_reported(t, r.jpath, j);
}

/// Wherever a transaction is killed once its checks passed, the disk
/// settles: while it stages, between the two renames of a swap, between
/// two swaps, while it cleans up, and behind its end. One that had
/// swapped a file that changes is finished.
///
/// A rollback that stands between two files that change is left out, see
/// [`law_half_undone_is_a_conflict`]. So is a rollback one of whose
/// restores the disk refused: it reports so, and it may leave a file
/// swapped whose transaction can no longer be finished.
pub proof fn law_killed_transaction_settles(r: TxRunV, d0: DiskV, d: DiskV, j: JournalV)
    requires
        tx_inv(r, d0, d),
        journal_describes(r),
        is_journaled(r),
        is_journal_of(j, r),
        !is_half_undone(r),
    ensures
        journal_disjoint(j, r.jpath),
        settles(j, d),
        any_installed(j, d) ==> finishes(j, d),
{
    assert(journal_disjoint(j, r.jpath)) by {
        lemma_same_paths(j, r);
    }
    match r.pc {
        Pc::Backup(_) | Pc::Promote(_) | Pc::JournalSwap(_) => {
            lemma_can_finish(j, r, d);
        },
        Pc::Restore { at, k } => {
            lemma_unwinding_settles(j, r, d, at as int, k as int);
        },
        Pc::DropRest { .. } | Pc::CheckBak(_) | Pc::RestoreLast(_) => {
            lemma_nothing_swapped(j, r, d);
        },
        Pc::CleanBak(_) | Pc::JournalDone | Pc::CleanJournal => {
            lemma_all_swapped(j, r, d);
        },
        Pc::Finished => {
            if crate::durability::all_after(r, d) {
                lemma_all_swapped(j, r, d);
            } else if crate::durability::all_untouched(r, d) {
                lemma_nothing_swapped(j, r, d);
            } else {
                let n = choose|n: int| 0 <= n <= r.files.len() && #[trigger] split(r, d, n, n);
                assert forall|i: int| 0 <= i < r.files.len() implies #[trigger] is_swapped(r, d, i)
                    || ((untouched(r, d, i) || is_moved_away(r, d, i)) && is_staged(r, d, i)) by {
                    if i >= n {
                        assert(untouched(r, d, i));
                    }
                }
                lemma_can_finish(j, r, d);
            }
        },
        _ => {
            assert(crate::durability::all_untouched(r, d));
            lemma_nothing_swapped(j, r, d);
        },
    }
}

/// A transaction that is killed after it swapped a file whose candidate
/// differs from what it replaced is finished.
pub proof fn law_swapped_file_is_finished(r: TxRunV, d0: DiskV, d: DiskV, j: JournalV, k: int)
    requires
        tx_inv(r, d0, d),
        journal_describes(r),
        is_journal_of(j, r),
        r.pc is Backup || r.pc is Promote || r.pc is JournalSwap,
        0 <= k < swaps_made(r),
        is_changed(j.files[k]),
    ensures
        finishes(j, d),
{
    law_killed_transaction_settles(r, d0, d, j);
    assert(is_swapped(r, d, k));
    lemma_digests(j, r, d, k);
    assert(is_installed(j, d, k));
}

proof fn lemma_same_paths(j: JournalV, r: TxRunV)
    requires
        is_journal_of(j, r),
        crate::durability::disjoint(r),
    ensures
        journal_disjoint(j, r.jpath),
{
    assert forall|i: int| 0 <= i < count(j) implies {
        &&& #[trigger] jdest(j, i) == dest(r, i)
        &&& jstage(j, i) == stage(r, i)
        &&& jbak(j, i) == bak(r, i)
    } by {
        assert(j.files[i].path == dest(r, i));
    }
    assert forall|i: int, k: int| 0 <= i < count(j) && 0 <= k < count(j) && i != k implies {
        &&& #[trigger] jdest(j, i) != #[trigger] jdest(j, k)
        &&& jstage(j, i) != jstage(j, k)
        &&& jbak(j, i) != jbak(j, k)
    } by {
        assert(dest(r, i) != dest(r, k));
    }
    assert forall|i: int, k: int| 0 <= i < count(j) && 0 <= k < count(j) implies {
        &&& #[trigger] jdest(j, i) != #[trigger] jstage(j, k)
        &&& jdest(j, i) != jbak(j, k)
        &&& jbak(j, i) != jstage(j, k)
    } by {
        assert(jdest(j, k) == dest(r, k));
        assert(dest(r, i) != stage(r, k));
    }
    assert forall|i: int| 0 <= i < count(j) implies {
        &&& #[trigger] jdest(j, i) != r.jpath
        &&& jstage(j, i) != r.jpath
        &&& jbak(j, i) != r.jpath
    } by {
        assert(dest(r, i) != r.jpath);
    }
}

/// No bytes in the places of a file share a digest with its validated
/// bytes or its candidate by accident.
pub open spec fn digests_tell(j: JournalV, r: TxRunV, d: DiskV) -> bool {
    forall|i: int, b: Seq<u8>|
        0 <= i < count(j) && #[trigger] was_there(j, d, i, b) ==> {
            &&& fnv(b) == fnv(r.files[i].before) ==> b == r.files[i].before
            &&& fnv(b) == fnv(r.files[i].after) ==> b == r.files[i].after
        }
}

/// A killed transaction is made whole: the recovery of its journal, on
/// a disk that refuses nothing, ends with every candidate installed and
/// says so, or with every file as it was validated and says so. It
/// leaves no stage, no backup and no journal, so the next recovery has
/// nothing to do, and it changes no other path. Where the transaction
/// had swapped a file that changes, it is finished.
pub proof fn law_killed_transaction_recovers(
    r: TxRunV,
    d0: DiskV,
    d: DiskV,
    j: JournalV,
    t: Seq<RecPointV>,
)
    requires
        tx_inv(r, d0, d),
        journal_describes(r),
        is_journaled(r),
        is_journal_of(j, r),
        !is_half_undone(r),
        digests_tell(j, r, d),
        rec_trace(t, r.jpath, j),
        t[0].disk == d,
        t.last().run.pc is Finished,
    ensures
        t.last().run.outcome == settled(j, finishes(j, d)),
        finishes(j, d) ==> crate::durability::all_after(r, t.last().disk),
        !finishes(j, d) ==> crate::durability::all_before(r, t.last().disk),
        any_installed(j, d) ==> finishes(j, d),
        gone(j, t.last().disk, count(j)),
        !t.last().disk.contains_key(r.jpath),
        same_elsewhere(j, r.jpath, d, t.last().disk),
{
    law_killed_transaction_settles(r, d0, d, j);
    crate::recovery_laws::law_recovery_settles(t, r.jpath, j);
    let e = t.last().disk;
    if finishes(j, d) {
        assert forall|i: int| 0 <= i < r.files.len() implies #[trigger] holds_after(r, e, i) by {
            assert(j.files[i].path == dest(r, i));
            assert(is_after(j, e, i));
            assert(nothing_new(j, d, e, i));
            assert(was_there(j, d, i, e[jdest(j, i)]));
        }
    } else {
        assert forall|i: int| 0 <= i < r.files.len() implies #[trigger] holds_before(r, e, i) by {
            assert(j.files[i].path == dest(r, i));
            assert(is_before(j, e, i));
            assert(nothing_new(j, d, e, i));
            assert(was_there(j, d, i, e[jdest(j, i)]));
        }
    }
}

proof fn lemma_no_journals(ps: Seq<FsPathV>, k: int)
    requires
        0 <= k <= ps.len(),
        forall|i: int| 0 <= i < ps.len() ==> !is_journal(#[trigger] ps[i]),
    ensures
        journals_of(ps, k) == Seq::<FsPathV>::empty(),
    decreases k,
{
    if k > 0 {
        lemma_no_journals(ps, k - 1);
        assert(!is_journal(ps[k - 1]));
    }
}

/// Recovering twice is recovering once: where the journal of a killed
/// transaction was the only one, a directory listing made after its
/// recovery shows none, and the next recovery reports it is clean.
pub proof fn law_next_recovery_is_clean(
    r: TxRunV,
    d0: DiskV,
    d: DiskV,
    j: JournalV,
    t: Seq<RecPointV>,
    listed: Seq<FsPathV>,
)
    requires
        tx_inv(r, d0, d),
        journal_describes(r),
        is_journaled(r),
        is_journal_of(j, r),
        !is_half_undone(r),
        rec_trace(t, r.jpath, j),
        t[0].disk == d,
        t.last().run.pc is Finished,
        forall|p: FsPathV| #[trigger] d.contains_key(p) && is_journal(p) ==> p == r.jpath,
        forall|i: int| 0 <= i < r.files.len() ==> !is_journal(#[trigger] dest(r, i)),
        forall|i: int| 0 <= i < listed.len() ==> t.last().disk.contains_key(#[trigger] listed[i]),
    ensures
        journals_of(listed, listed.len() as int) == Seq::<FsPathV>::empty(),
        recovered(Seq::empty()) == seq![RecoveryOutcome::Clean],
{
    law_killed_transaction_settles(r, d0, d, j);
    crate::recovery_laws::law_recovery_settles(t, r.jpath, j);
    let e = t.last().disk;
    assert forall|i: int| 0 <= i < listed.len() implies !is_journal(#[trigger] listed[i]) by {
        let p = listed[i];
        if is_journal(p) {
            if is_own(j, r.jpath, p) {
                assert(p != r.jpath);
                let k = choose|k: int|
                    0 <= k < count(j) && (p == #[trigger] jdest(j, k) || p == jstage(j, k) || p
                        == jbak(j, k));
                assert(!e.contains_key(jstage(j, k)));
                assert(j.files[k].path == dest(r, k));
            } else {
                assert(agree(d, e, p));
                assert(d.contains_key(p));
            }
        }
    }
    lemma_no_journals(listed, listed.len() as int);
}

} // verus!
