//! What recovery guarantees of the disk.
//!
//! [`rec_disk_step`] says what each file-system call of a recovery may
//! do to a disk nobody else writes to. [`rec_inv`] is what then holds
//! between a recovery and its disk at every point. A disk that
//! [`settles`] is settled by every recovery whose calls succeed, as
//! [`law_recovery_settles`] says.

use crate::durability::{agree, moved, removal, same_but, DiskV};
use crate::paths::FsPathV;
use crate::persist::{fnv, JournalFileV, JournalV};
use crate::recovery::{
    is_changed, next_of, rec_action, rec_classify, rec_clean, rec_found, rec_len, rec_restore,
    rec_start, rec_step, rec_swap, rec_verify, rec_wf, wanted, Found, RecAction, RecPc, RecRunV,
    RecoveryOutcomeV, Sort,
};
use crate::transaction::EventV;
use vstd::prelude::*;

verus! {

/// The number of files of a journal.
pub open spec fn count(j: JournalV) -> int {
    j.files.len() as int
}

/// Destination `i` of a journal.
pub open spec fn jdest(j: JournalV, i: int) -> FsPathV {
    j.files[i].path
}

/// Stage `i` of a journal.
pub open spec fn jstage(j: JournalV, i: int) -> FsPathV {
    j.files[i].stage
}

/// Backup `i` of a journal.
pub open spec fn jbak(j: JournalV, i: int) -> FsPathV {
    j.files[i].bak
}

/// Path `p` holds bytes of digest `h`.
pub open spec fn holds(d: DiskV, p: FsPathV, h: u64) -> bool {
    d.contains_key(p) && fnv(d[p]) == h
}

/// Destination `i` holds the journaled candidate.
pub open spec fn is_after(j: JournalV, d: DiskV, i: int) -> bool {
    holds(d, jdest(j, i), j.files[i].after_fp)
}

/// Destination `i` holds the journaled validated bytes.
pub open spec fn is_before(j: JournalV, d: DiskV, i: int) -> bool {
    holds(d, jdest(j, i), j.files[i].before_fp)
}

/// The validated bytes of file `i` are in its backup.
pub open spec fn is_kept(j: JournalV, d: DiskV, i: int) -> bool {
    holds(d, jbak(j, i), j.files[i].before_fp)
}

/// The candidate of file `i` is staged.
pub open spec fn is_ready(j: JournalV, d: DiskV, i: int) -> bool {
    holds(d, jstage(j, i), j.files[i].after_fp)
}

/// Nothing is in place of file `i`; its validated bytes are in its
/// backup.
pub open spec fn is_away(j: JournalV, d: DiskV, i: int) -> bool {
    !d.contains_key(jdest(j, i)) && is_kept(j, d, i)
}

/// File `i` holds its candidate and not its validated bytes.
pub open spec fn is_installed(j: JournalV, d: DiskV, i: int) -> bool {
    is_after(j, d, i) && is_changed(j.files[i])
}

/// Every file holds its candidate.
pub open spec fn all_installed(j: JournalV, d: DiskV) -> bool {
    forall|i: int| 0 <= i < count(j) ==> #[trigger] is_after(j, d, i)
}

/// Every file holds its validated bytes.
pub open spec fn all_validated(j: JournalV, d: DiskV) -> bool {
    forall|i: int| 0 <= i < count(j) ==> #[trigger] is_before(j, d, i)
}

/// Some file was swapped.
pub open spec fn any_installed(j: JournalV, d: DiskV) -> bool {
    exists|i: int| 0 <= i < count(j) && #[trigger] is_installed(j, d, i)
}

/// Every file that does not hold its candidate has it staged.
pub open spec fn all_ready(j: JournalV, d: DiskV) -> bool {
    forall|i: int|
        0 <= i < count(j) && !is_after(j, d, i) ==> #[trigger] is_ready(j, d, i)
}

/// Every file is in a state the transaction left it in.
pub open spec fn all_known(j: JournalV, d: DiskV) -> bool {
    forall|i: int|
        0 <= i < count(j) ==> is_after(j, d, i) || is_before(j, d, i) || #[trigger] is_away(
            j,
            d,
            i,
        )
}

/// The transaction is to be finished: it swapped a file, or has nothing
/// left to swap, and every candidate it still needs is staged.
pub open spec fn finishes(j: JournalV, d: DiskV) -> bool {
    all_ready(j, d) && (all_installed(j, d) || any_installed(j, d))
}

/// Recovery can settle the disk: every file is known, and the
/// transaction swapped nothing or can be finished.
pub open spec fn settles(j: JournalV, d: DiskV) -> bool {
    all_known(j, d) && (!any_installed(j, d) || all_ready(j, d))
}

/// No two paths of a journal are the same file.
pub open spec fn journal_disjoint(j: JournalV, jpath: FsPathV) -> bool {
    &&& forall|i: int, k: int|
        0 <= i < count(j) && 0 <= k < count(j) && i != k ==> {
            &&& #[trigger] jdest(j, i) != #[trigger] jdest(j, k)
            &&& jstage(j, i) != jstage(j, k)
            &&& jbak(j, i) != jbak(j, k)
        }
    &&& forall|i: int, k: int|
        0 <= i < count(j) && 0 <= k < count(j) ==> {
            &&& #[trigger] jdest(j, i) != #[trigger] jstage(j, k)
            &&& jdest(j, i) != jbak(j, k)
            &&& jbak(j, i) != jstage(j, k)
        }
    &&& forall|i: int|
        0 <= i < count(j) ==> {
            &&& #[trigger] jdest(j, i) != jpath
            &&& jstage(j, i) != jpath
            &&& jbak(j, i) != jpath
        }
}

/// Whether a recovery of journal `j` at `jpath` may touch path `p`.
pub open spec fn is_own(j: JournalV, jpath: FsPathV, p: FsPathV) -> bool {
    p == jpath || exists|i: int|
        0 <= i < count(j) && (p == #[trigger] jdest(j, i) || p == jstage(j, i) || p == jbak(j, i))
}

/// Two disks hold the same outside the paths of a journal.
pub open spec fn same_elsewhere(j: JournalV, jpath: FsPathV, d: DiskV, d2: DiskV) -> bool {
    forall|p: FsPathV| !is_own(j, jpath, p) ==> #[trigger] agree(d, d2, p)
}

/// Whether bytes were in one of the three places of file `i`.
pub open spec fn was_there(j: JournalV, d: DiskV, i: int, b: Seq<u8>) -> bool {
    ||| d.contains_key(jdest(j, i)) && d[jdest(j, i)] == b
    ||| d.contains_key(jstage(j, i)) && d[jstage(j, i)] == b
    ||| d.contains_key(jbak(j, i)) && d[jbak(j, i)] == b
}

/// The places of file `i` hold on `d2` only what they held on `d`.
pub open spec fn nothing_new(j: JournalV, d: DiskV, d2: DiskV, i: int) -> bool {
    &&& d2.contains_key(jdest(j, i)) ==> was_there(j, d, i, d2[jdest(j, i)])
    &&& d2.contains_key(jstage(j, i)) ==> was_there(j, d, i, d2[jstage(j, i)])
    &&& d2.contains_key(jbak(j, i)) ==> was_there(j, d, i, d2[jbak(j, i)])
}

/// A read of `p` that tells the truth.
pub open spec fn read_of(d: DiskV, p: FsPathV, ev: EventV, d2: DiskV) -> bool {
    &&& d2 == d
    &&& ev matches EventV::Bytes(b) ==> d.contains_key(p) && b == d[p]
    &&& ev matches EventV::Failed { message: _, missing } ==> (missing ==> !d.contains_key(p))
}

/// A rename that happened or failed whole.
pub open spec fn move_of(d: DiskV, from: FsPathV, to: FsPathV, ev: EventV, d2: DiskV) -> bool {
    if ev is Done {
        moved(d, d2, from, to)
    } else {
        d2 == d
    }
}

/// What the due call of recovery `r` may do to disk `d`, and what may
/// come of it.
pub open spec fn rec_disk_step(d: DiskV, r: RecRunV, ev: EventV, d2: DiskV) -> bool {
    let j = r.journal;
    match rec_action(r) {
        RecAction::ReadDest(i) => read_of(d, jdest(j, i as int), ev, d2),
        RecAction::ReadStage(i) => read_of(d, jstage(j, i as int), ev, d2),
        RecAction::ReadBak(i) => read_of(d, jbak(j, i as int), ev, d2),
        RecAction::DestToBak(i) => move_of(d, jdest(j, i as int), jbak(j, i as int), ev, d2),
        RecAction::StageToDest(i) => move_of(d, jstage(j, i as int), jdest(j, i as int), ev, d2),
        RecAction::BakToDest(i) => move_of(d, jbak(j, i as int), jdest(j, i as int), ev, d2),
        RecAction::WriteJournal => same_but(d, d2, r.jpath),
        RecAction::RemoveStage(i) => removal(d, jstage(j, i as int), ev, d2),
        RecAction::RemoveBak(i) => removal(d, jbak(j, i as int), ev, d2),
        RecAction::RemoveJournal => removal(d, r.jpath, ev, d2),
        RecAction::Stop => d2 == d,
    }
}

/// `j2` describes the files of `j`, with more of them recorded as
/// swapped, perhaps.
pub open spec fn same_files(j: JournalV, j2: JournalV) -> bool {
    &&& j2.tx == j.tx
    &&& j2.files.len() == j.files.len()
    &&& forall|i: int|
        0 <= i < count(j) ==> {
            &&& #[trigger] j2.files[i] == (JournalFileV {
                swapped: j2.files[i].swapped,
                ..j.files[i]
            })
            &&& j.files[i].swapped ==> j2.files[i].swapped
        }
}

/// What was found of file `i` is so.
pub open spec fn found_holds(j: JournalV, d: DiskV, i: int, f: Found) -> bool {
    match f {
        Found::Installed => is_after(j, d, i),
        Found::Validated => is_before(j, d, i) && !is_after(j, d, i),
        Found::Away => is_away(j, d, i),
    }
}

/// What was found so far is so.
pub open spec fn all_found(r: RecRunV, j: JournalV, d: DiskV) -> bool {
    forall|i: int| 0 <= i < r.found.len() ==> #[trigger] found_holds(j, d, i, r.found[i])
}

/// Every file that is not installed yet, from `q` on, is as it was
/// found and has its candidate staged; the others hold theirs.
pub open spec fn installing(r: RecRunV, j: JournalV, d: DiskV, q: int) -> bool {
    &&& forall|i: int| 0 <= i < q ==> #[trigger] is_after(j, d, i)
    &&& forall|i: int| q <= i < count(j) ==> #[trigger] found_holds(j, d, i, r.found[i])
    &&& forall|i: int|
        q <= i < count(j) && r.found[i] != Found::Installed ==> #[trigger] is_ready(j, d, i)
}

/// The files that are away, from `q` on, still are; every other file
/// holds its validated bytes.
pub open spec fn restoring(r: RecRunV, j: JournalV, d: DiskV, q: int) -> bool {
    &&& forall|i: int|
        0 <= i < count(j) && (i < q || r.found[i] != Found::Away) ==> #[trigger] is_before(j, d, i)
    &&& forall|i: int|
        q <= i < count(j) && r.found[i] == Found::Away ==> #[trigger] is_away(j, d, i)
}

/// The outcome of a settled recovery.
pub open spec fn settled(j: JournalV, finished: bool) -> RecoveryOutcomeV {
    if finished {
        RecoveryOutcomeV::Committed { tx: j.tx, files: count(j) as usize }
    } else {
        RecoveryOutcomeV::RolledBack { tx: j.tx, files: count(j) as usize }
    }
}

/// The files hold what the outcome says.
pub open spec fn outcome_stands(r: RecRunV, j: JournalV, d: DiskV) -> bool {
    ||| r.outcome == settled(j, true) && all_installed(j, d)
    ||| r.outcome == settled(j, false) && all_validated(j, d)
}

/// What holds at the point a recovery of `j` stands at.
pub open spec fn rec_at(r: RecRunV, j: JournalV, d0: DiskV, d: DiskV) -> bool {
    match r.pc {
        RecPc::ReadDest(_) => d == d0 && r.journal == j,
        RecPc::ReadBak(i) => d == d0 && r.journal == j && !d.contains_key(jdest(j, i as int)),
        RecPc::ReadStage(k) => {
            &&& d == d0
            &&& r.journal == j
            &&& any_installed(j, d0)
            &&& forall|i: int|
                0 <= i < k && r.found[i] != Found::Installed ==> #[trigger] is_ready(j, d0, i)
            &&& wanted(r, Sort::Waiting, k as int)
        },
        RecPc::Backup(k) => {
            &&& installing(r, j, d, k as int)
            &&& r.found[k as int] == Found::Validated
        },
        RecPc::Promote(k) => {
            &&& forall|i: int| 0 <= i < k ==> #[trigger] is_after(j, d, i)
            &&& forall|i: int| k < i < count(j) ==> #[trigger] found_holds(j, d, i, r.found[i])
            &&& forall|i: int|
                k <= i < count(j) && r.found[i] != Found::Installed ==> #[trigger] is_ready(j, d, i)
            &&& is_away(j, d, k as int)
            &&& r.found[k as int] != Found::Installed
        },
        RecPc::JournalSwap(k) => installing(r, j, d, k + 1),
        RecPc::Restore(k) => {
            &&& restoring(r, j, d, k as int)
            &&& r.found[k as int] == Found::Away
        },
        RecPc::CleanStage(_)
        | RecPc::CleanBak(_)
        | RecPc::JournalDone
        | RecPc::CleanJournal => outcome_stands(r, j, d),
        RecPc::Finished => r.outcome is Conflict || outcome_stands(r, j, d),
    }
}

/// What holds between a recovery of `j` that found disk `d0` and its
/// disk `d`, at every point.
pub open spec fn rec_inv(r: RecRunV, j: JournalV, d0: DiskV, d: DiskV) -> bool {
    &&& rec_wf(r)
    &&& rec_frame(r, j, d0, d)
    &&& rec_at(r, j, d0, d)
    &&& settles(j, d0) ==> settles(j, d)
}

/// What of [`rec_inv`] does not depend on the point the recovery
/// stands at.
pub open spec fn rec_frame(r: RecRunV, j: JournalV, d0: DiskV, d: DiskV) -> bool {
    &&& journal_disjoint(j, r.jpath)
    &&& count(j) <= usize::MAX
    &&& same_files(j, r.journal)
    &&& same_elsewhere(j, r.jpath, d0, d)
    &&& forall|i: int| 0 <= i < count(j) ==> #[trigger] nothing_new(j, d0, d, i)
    &&& all_found(r, j, d0)
    &&& r.found.len() <= count(j)
}

proof fn lemma_at_clean(r: RecRunV, j: JournalV, d0: DiskV, d: DiskV, finished: bool)
    requires
        rec_frame(r, j, d0, d),
        r.found.len() == count(j),
        finished ==> all_installed(j, d),
        !finished ==> all_validated(j, d),
    ensures
        rec_inv(rec_clean(r, settled(j, finished)), j, d0, d),
{
    let r2 = rec_clean(r, settled(j, finished));
    assert(outcome_stands(r2, j, d));
    lemma_settles_done(j, d);
}

/// A disk all of whose files are installed, or all of whose files are
/// validated, settles.
pub proof fn lemma_settles_done(j: JournalV, d: DiskV)
    ensures
        all_installed(j, d) ==> settles(j, d),
        all_validated(j, d) ==> settles(j, d),
{
    if all_installed(j, d) {
        assert(all_known(j, d)) by {
            assert forall|i: int| 0 <= i < count(j) implies is_after(j, d, i) || is_before(j, d, i)
                || #[trigger] is_away(j, d, i) by {
                assert(is_after(j, d, i));
            }
        }
        assert(all_ready(j, d));
    }
    if all_validated(j, d) {
        assert(all_known(j, d)) by {
            assert forall|i: int| 0 <= i < count(j) implies is_after(j, d, i) || is_before(j, d, i)
                || #[trigger] is_away(j, d, i) by {
                assert(is_before(j, d, i));
            }
        }
        assert(!any_installed(j, d)) by {
            assert forall|i: int| 0 <= i < count(j) implies !(#[trigger] is_installed(j, d, i)) by {
                assert(is_before(j, d, i));
            }
        }
    }
}

proof fn lemma_at_restore(r: RecRunV, j: JournalV, d0: DiskV, d: DiskV, i: int)
    requires
        rec_frame(r, j, d0, d),
        r.found.len() == count(j),
        0 <= i <= count(j),
        restoring(r, j, d, i),
    ensures
        rec_inv(rec_restore(r, i), j, d0, d),
{
    crate::recovery::lemma_next(r, Sort::Away, i);
    let q = next_of(r, Sort::Away, i);
    assert forall|k: int| 0 <= k < q implies #[trigger] is_before(j, d, k) by {
        if k >= i {
            assert(!wanted(r, Sort::Away, k));
        }
    }
    if q < count(j) {
        lemma_restoring_settles(r, j, d, q);
    } else {
        assert(r.journal.tx == j.tx);
        lemma_at_clean(r, j, d0, d, false);
    }
}

proof fn lemma_restoring_settles(r: RecRunV, j: JournalV, d: DiskV, q: int)
    requires
        restoring(r, j, d, q),
    ensures
        settles(j, d),
{
    assert(all_known(j, d)) by {
        assert forall|i: int| 0 <= i < count(j) implies is_after(j, d, i) || is_before(j, d, i)
            || #[trigger] is_away(j, d, i) by {
            if i < q || r.found[i] != Found::Away {
                assert(is_before(j, d, i));
            }
        }
    }
    assert(!any_installed(j, d)) by {
        assert forall|i: int| 0 <= i < count(j) implies !(#[trigger] is_installed(j, d, i)) by {
            if i < q || r.found[i] != Found::Away {
                assert(is_before(j, d, i));
            } else {
                assert(is_away(j, d, i));
            }
        }
    }
}

proof fn lemma_at_swap(r: RecRunV, j: JournalV, d0: DiskV, d: DiskV, i: int)
    requires
        rec_frame(r, j, d0, d),
        r.found.len() == count(j),
        0 <= i <= count(j),
        installing(r, j, d, i),
    ensures
        rec_inv(rec_swap(r, i), j, d0, d),
{
    crate::recovery::lemma_next(r, Sort::Waiting, i);
    let q = next_of(r, Sort::Waiting, i);
    assert forall|k: int| 0 <= k < q implies #[trigger] is_after(j, d, k) by {
        if k >= i {
            assert(!wanted(r, Sort::Waiting, k));
            assert(found_holds(j, d, k, r.found[k]));
        }
    }
    if q < count(j) {
        assert(found_holds(j, d, q, r.found[q]));
        assert(is_ready(j, d, q));
        lemma_installing_settles(r, j, d, q);
    } else {
        assert(r.journal.tx == j.tx);
        lemma_at_clean(r, j, d0, d, true);
    }
}

proof fn lemma_installing_settles(r: RecRunV, j: JournalV, d: DiskV, q: int)
    requires
        forall|i: int| 0 <= i < q ==> #[trigger] is_after(j, d, i),
        forall|i: int| q < i < count(j) ==> #[trigger] found_holds(j, d, i, r.found[i]),
        forall|i: int|
            q <= i < count(j) && r.found[i] != Found::Installed ==> #[trigger] is_ready(j, d, i),
        q < count(j) ==> found_holds(j, d, q, r.found[q]) || (is_away(j, d, q) && is_ready(
            j,
            d,
            q,
        )),
    ensures
        settles(j, d),
{
    assert(all_known(j, d)) by {
        assert forall|i: int| 0 <= i < count(j) implies is_after(j, d, i) || is_before(j, d, i)
            || #[trigger] is_away(j, d, i) by {
            if i < q {
                assert(is_after(j, d, i));
            } else {
                assert(found_holds(j, d, i, r.found[i]) || is_away(j, d, i));
            }
        }
    }
    assert(all_ready(j, d)) by {
        assert forall|i: int| 0 <= i < count(j) && !is_after(j, d, i) implies #[trigger] is_ready(
            j,
            d,
            i,
        ) by {
            if i > q {
                assert(found_holds(j, d, i, r.found[i]));
            }
        }
    }
}

proof fn lemma_at_verify(r: RecRunV, j: JournalV, d0: DiskV, i: int)
    requires
        rec_frame(r, j, d0, d0),
        r.found.len() == count(j),
        r.journal == j,
        0 <= i <= count(j),
        next_of(r, Sort::Waiting, 0) >= count(j) || any_installed(j, d0),
        forall|k: int|
            0 <= k < i && r.found[k] != Found::Installed ==> #[trigger] is_ready(j, d0, k),
    ensures
        rec_inv(rec_verify(r, i), j, d0, d0),
{
    crate::recovery::lemma_next(r, Sort::Waiting, i);
    crate::recovery::lemma_next(r, Sort::Waiting, 0);
    let q = next_of(r, Sort::Waiting, i);
    assert forall|k: int| 0 <= k < q && r.found[k] != Found::Installed implies #[trigger] is_ready(
        j,
        d0,
        k,
    ) by {
        if k >= i {
            assert(!wanted(r, Sort::Waiting, k));
        }
    }
    if q >= count(j) {
        assert(installing(r, j, d0, 0));
        lemma_at_swap(r, j, d0, d0, 0);
    } else {
        assert(wanted(r, Sort::Waiting, q));
    }
}

proof fn lemma_at_classify(r: RecRunV, j: JournalV, d0: DiskV, i: int)
    requires
        rec_frame(r, j, d0, d0),
        r.found.len() == i,
        r.journal == j,
        0 <= i <= count(j),
    ensures
        rec_inv(rec_classify(r, i), j, d0, d0),
{
    if i == count(j) {
        crate::recovery::lemma_next(r, Sort::Waiting, 0);
        crate::recovery::lemma_next(r, Sort::Swapped, 0);
        let u = next_of(r, Sort::Swapped, 0);
        if u < count(j) {
            assert(wanted(r, Sort::Swapped, u));
            assert(found_holds(j, d0, u, r.found[u]));
            assert(is_installed(j, d0, u));
        }
        if next_of(r, Sort::Waiting, 0) >= count(j) || u < count(j) {
            lemma_at_verify(r, j, d0, 0);
        } else {
            let w = next_of(r, Sort::Waiting, 0);
            assert(found_holds(j, d0, w, r.found[w]));
            assert(!is_after(j, d0, w));
            assert(!any_installed(j, d0)) by {
                assert forall|k: int| 0 <= k < count(j) implies !(#[trigger] is_installed(
                    j,
                    d0,
                    k,
                )) by {
                    assert(!wanted(r, Sort::Swapped, k));
                    assert(found_holds(j, d0, k, r.found[k]));
                }
            }
            assert(restoring(r, j, d0, 0)) by {
                assert forall|k: int| 0 <= k < count(j) && r.found[k] != Found::Away implies #[trigger] is_before(
                    j,
                    d0,
                    k,
                ) by {
                    assert(!wanted(r, Sort::Swapped, k));
                    assert(found_holds(j, d0, k, r.found[k]));
                }
                assert forall|k: int| 0 <= k < count(j) && r.found[k] == Found::Away implies #[trigger] is_away(
                    j,
                    d0,
                    k,
                ) by {
                    assert(found_holds(j, d0, k, r.found[k]));
                }
            }
            lemma_at_restore(r, j, d0, d0, 0);
        }
    }
}

/// Two disks hold the same in the places of file `i`.
pub open spec fn same_file(j: JournalV, d: DiskV, d2: DiskV, i: int) -> bool {
    agree(d, d2, jdest(j, i)) && agree(d, d2, jstage(j, i)) && agree(d, d2, jbak(j, i))
}

/// Whether `p` is one of the places of file `i`.
pub open spec fn is_place(j: JournalV, i: int, p: FsPathV) -> bool {
    p == jdest(j, i) || p == jstage(j, i) || p == jbak(j, i)
}

/// A rename between two places of one file touches no other file and no
/// other path, and brings no new bytes.
proof fn lemma_move(
    j: JournalV,
    jpath: FsPathV,
    d0: DiskV,
    d: DiskV,
    d2: DiskV,
    k: int,
    from: FsPathV,
    to: FsPathV,
)
    requires
        journal_disjoint(j, jpath),
        0 <= k < count(j),
        moved(d, d2, from, to),
        is_place(j, k, from),
        is_place(j, k, to),
        same_elsewhere(j, jpath, d0, d),
        forall|i: int| 0 <= i < count(j) ==> #[trigger] nothing_new(j, d0, d, i),
    ensures
        same_elsewhere(j, jpath, d0, d2),
        forall|i: int| 0 <= i < count(j) ==> #[trigger] nothing_new(j, d0, d2, i),
        forall|i: int| 0 <= i < count(j) && i != k ==> #[trigger] same_file(j, d, d2, i),
{
    assert forall|i: int| 0 <= i < count(j) && i != k implies #[trigger] same_file(j, d, d2, i) by {
        assert(jdest(j, i) != jdest(j, k));
        assert(jdest(j, i) != jstage(j, k));
        assert(jdest(j, k) != jstage(j, i));
    }
    assert forall|p: FsPathV| !is_own(j, jpath, p) implies #[trigger] agree(d0, d2, p) by {
        assert(agree(d0, d, p));
        assert(p != jdest(j, k) && p != jstage(j, k) && p != jbak(j, k));
    }
    assert forall|i: int| 0 <= i < count(j) implies #[trigger] nothing_new(j, d0, d2, i) by {
        assert(nothing_new(j, d0, d, i));
        if i != k {
            assert(same_file(j, d, d2, i));
        }
    }
}

/// A write or removal of the journal touches no file and no other path.
proof fn lemma_journal_call(j: JournalV, jpath: FsPathV, d0: DiskV, d: DiskV, d2: DiskV)
    requires
        journal_disjoint(j, jpath),
        same_but(d, d2, jpath),
        same_elsewhere(j, jpath, d0, d),
        forall|i: int| 0 <= i < count(j) ==> #[trigger] nothing_new(j, d0, d, i),
    ensures
        same_elsewhere(j, jpath, d0, d2),
        forall|i: int| 0 <= i < count(j) ==> #[trigger] nothing_new(j, d0, d2, i),
        forall|i: int| 0 <= i < count(j) ==> #[trigger] same_file(j, d, d2, i),
{
    assert forall|i: int| 0 <= i < count(j) implies #[trigger] same_file(j, d, d2, i) by {
        assert(jdest(j, i) != jpath);
        let p = jdest(j, i);
        let s = jstage(j, i);
        let b = jbak(j, i);
        assert(d2.contains_key(p) == d.contains_key(p));
        assert(d2.contains_key(s) == d.contains_key(s));
        assert(d2.contains_key(b) == d.contains_key(b));
    }
    assert forall|p: FsPathV| !is_own(j, jpath, p) implies #[trigger] agree(d0, d2, p) by {
        assert(agree(d0, d, p));
        assert(d2.contains_key(p) == d.contains_key(p));
    }
    assert forall|i: int| 0 <= i < count(j) implies #[trigger] nothing_new(j, d0, d2, i) by {
        assert(nothing_new(j, d0, d, i));
        assert(same_file(j, d, d2, i));
    }
}

/// A removal of a stage or a backup touches no destination and no other
/// path.
proof fn lemma_removal(
    j: JournalV,
    jpath: FsPathV,
    d0: DiskV,
    d: DiskV,
    d2: DiskV,
    k: int,
    p: FsPathV,
)
    requires
        journal_disjoint(j, jpath),
        0 <= k < count(j),
        d2 == d || d2 == d.remove(p),
        p == jstage(j, k) || p == jbak(j, k),
        same_elsewhere(j, jpath, d0, d),
        forall|i: int| 0 <= i < count(j) ==> #[trigger] nothing_new(j, d0, d, i),
    ensures
        same_elsewhere(j, jpath, d0, d2),
        forall|i: int| 0 <= i < count(j) ==> #[trigger] nothing_new(j, d0, d2, i),
        forall|i: int| 0 <= i < count(j) ==> #[trigger] is_after(j, d2, i) == is_after(j, d, i),
        forall|i: int| 0 <= i < count(j) ==> #[trigger] is_before(j, d2, i) == is_before(j, d, i),
{
    assert forall|i: int| 0 <= i < count(j) implies agree(d, d2, #[trigger] jdest(j, i)) by {
        assert(jdest(j, i) != jstage(j, k));
    }
    assert forall|q: FsPathV| !is_own(j, jpath, q) implies #[trigger] agree(d0, d2, q) by {
        assert(agree(d0, d, q));
        assert(q != jdest(j, k) && q != jstage(j, k) && q != jbak(j, k));
    }
    assert forall|i: int| 0 <= i < count(j) implies #[trigger] nothing_new(j, d0, d2, i) by {
        assert(nothing_new(j, d0, d, i));
    }
    assert forall|i: int| 0 <= i < count(j) implies #[trigger] is_after(j, d2, i) == is_after(
        j,
        d,
        i,
    ) by {
        assert(agree(d, d2, jdest(j, i)));
    }
    assert forall|i: int| 0 <= i < count(j) implies #[trigger] is_before(j, d2, i) == is_before(
        j,
        d,
        i,
    ) by {
        assert(agree(d, d2, jdest(j, i)));
    }
}

proof fn lemma_read_step(r: RecRunV, j: JournalV, d0: DiskV, d: DiskV, ev: EventV, d2: DiskV)
    requires
        rec_inv(r, j, d0, d),
        rec_disk_step(d, r, ev, d2),
        r.pc is ReadDest || r.pc is ReadBak || r.pc is ReadStage,
    ensures
        rec_inv(rec_step(r, ev), j, d0, d2),
{
    crate::recovery::lemma_rec_wf(r, ev);
    match r.pc {
        RecPc::ReadDest(i) => {
            if let EventV::Bytes(b) = ev {
                let f = if fnv(b) == j.files[i as int].after_fp {
                    Found::Installed
                } else {
                    Found::Validated
                };
                if fnv(b) == j.files[i as int].after_fp || fnv(b) == j.files[i as int].before_fp {
                    lemma_found(r, j, d0, i, f);
                }
            }
        },
        RecPc::ReadBak(i) => {
            if let EventV::Bytes(b) = ev {
                if fnv(b) == j.files[i as int].before_fp {
                    lemma_found(r, j, d0, i, Found::Away);
                }
            }
        },
        RecPc::ReadStage(k) => {
            if let EventV::Bytes(b) = ev {
                if fnv(b) == j.files[k as int].after_fp {
                    assert(is_ready(j, d0, k as int));
                    lemma_at_verify(r, j, d0, k + 1);
                }
            }
        },
        _ => {},
    }
}

proof fn lemma_found(r: RecRunV, j: JournalV, d0: DiskV, i: usize, f: Found)
    requires
        rec_frame(r, j, d0, d0),
        r.journal == j,
        r.found.len() == i,
        i < count(j),
        found_holds(j, d0, i as int, f),
    ensures
        rec_inv(rec_found(r, i, f), j, d0, d0),
{
    let r2 = RecRunV { found: r.found.push(f), ..r };
    assert forall|k: int| 0 <= k < r2.found.len() implies #[trigger] found_holds(
        j,
        d0,
        k,
        r2.found[k],
    ) by {
        if k < i {
            assert(found_holds(j, d0, k, r.found[k]));
        }
    }
    lemma_at_classify(r2, j, d0, i + 1);
}

proof fn lemma_move_step(r: RecRunV, j: JournalV, d0: DiskV, d: DiskV, ev: EventV, d2: DiskV)
    requires
        rec_inv(r, j, d0, d),
        rec_disk_step(d, r, ev, d2),
        r.pc is Backup || r.pc is Promote,
    ensures
        rec_inv(rec_step(r, ev), j, d0, d2),
{
    crate::recovery::lemma_rec_wf(r, ev);
    let r2 = rec_step(r, ev);
    if ev is Done {
        match r.pc {
            RecPc::Backup(q) => {
                let k = q as int;
                assert(r.journal.files[k].path == j.files[k].path);
                lemma_move(j, r.jpath, d0, d, d2, k, jdest(j, k), jbak(j, k));
                assert(found_holds(j, d, k, r.found[k]));
                assert(jdest(j, k) != jstage(j, k));
                lemma_rest(r, j, d, d2, k);
                assert(is_ready(j, d, k));
                assert(is_away(j, d2, k));
                assert(is_ready(j, d2, k));
                lemma_installing_settles(r, j, d2, k);
            },
            RecPc::Promote(q) => {
                let k = q as int;
                assert(r.journal.files[k].path == j.files[k].path);
                lemma_move(j, r.jpath, d0, d, d2, k, jstage(j, k), jdest(j, k));
                assert(jdest(j, k) != jstage(j, k));
                assert(is_ready(j, d, k));
                lemma_rest(r, j, d, d2, k);
                assert(is_after(j, d2, k));
                assert(same_files(j, r2.journal)) by {
                    assert forall|i: int| 0 <= i < count(j) implies {
                        &&& #[trigger] r2.journal.files[i] == (JournalFileV {
                            swapped: r2.journal.files[i].swapped,
                            ..j.files[i]
                        })
                        &&& j.files[i].swapped ==> r2.journal.files[i].swapped
                    } by {
                        assert(r.journal.files[i].path == j.files[i].path);
                    }
                }
                assert(installing(r2, j, d2, k + 1));
                lemma_installing_settles(r2, j, d2, k + 1);
            },
            _ => {},
        }
    }
}

/// What a rename of file `k` leaves of the files still to install.
proof fn lemma_rest(r: RecRunV, j: JournalV, d: DiskV, d2: DiskV, k: int)
    requires
        0 <= k < count(j),
        forall|i: int| 0 <= i < count(j) && i != k ==> #[trigger] same_file(j, d, d2, i),
        forall|i: int| 0 <= i < k ==> #[trigger] is_after(j, d, i),
        forall|i: int| k < i < count(j) ==> #[trigger] found_holds(j, d, i, r.found[i]),
        forall|i: int|
            k <= i < count(j) && r.found[i] != Found::Installed ==> #[trigger] is_ready(j, d, i),
    ensures
        forall|i: int| 0 <= i < k ==> #[trigger] is_after(j, d2, i),
        forall|i: int| k < i < count(j) ==> #[trigger] found_holds(j, d2, i, r.found[i]),
        forall|i: int|
            k < i < count(j) && r.found[i] != Found::Installed ==> #[trigger] is_ready(j, d2, i),
{
    assert forall|i: int| 0 <= i < k implies #[trigger] is_after(j, d2, i) by {
        assert(same_file(j, d, d2, i));
        assert(is_after(j, d, i));
    }
    assert forall|i: int| k < i < count(j) implies #[trigger] found_holds(
        j,
        d2,
        i,
        r.found[i],
    ) by {
        assert(same_file(j, d, d2, i));
        assert(found_holds(j, d, i, r.found[i]));
    }
    assert forall|i: int| k < i < count(j) && r.found[i] != Found::Installed implies #[trigger] is_ready(
        j,
        d2,
        i,
    ) by {
        assert(same_file(j, d, d2, i));
        assert(is_ready(j, d, i));
    }
}

proof fn lemma_back_step(r: RecRunV, j: JournalV, d0: DiskV, d: DiskV, ev: EventV, d2: DiskV)
    requires
        rec_inv(r, j, d0, d),
        rec_disk_step(d, r, ev, d2),
        r.pc is Restore,
    ensures
        rec_inv(rec_step(r, ev), j, d0, d2),
{
    crate::recovery::lemma_rec_wf(r, ev);
    if ev is Done {
        match r.pc {
            RecPc::Restore(q) => {
                let k = q as int;
                assert(r.journal.files[k].path == j.files[k].path);
                lemma_move(j, r.jpath, d0, d, d2, k, jbak(j, k), jdest(j, k));
                assert(is_away(j, d, k));
                assert(is_before(j, d2, k));
                assert forall|i: int| 0 <= i < count(j) && (i < k + 1 || r.found[i]
                    != Found::Away) implies #[trigger] is_before(j, d2, i) by {
                    if i != k {
                        assert(same_file(j, d, d2, i));
                        assert(is_before(j, d, i));
                    }
                }
                assert forall|i: int| k + 1 <= i < count(j) && r.found[i] == Found::Away implies #[trigger] is_away(
                    j,
                    d2,
                    i,
                ) by {
                    assert(is_away(j, d, i));
                    assert(same_file(j, d, d2, i));
                }
                lemma_at_restore(r, j, d0, d2, k + 1);
            },
            _ => {},
        }
    }
}

proof fn lemma_late_step(r: RecRunV, j: JournalV, d0: DiskV, d: DiskV, ev: EventV, d2: DiskV)
    requires
        rec_inv(r, j, d0, d),
        rec_disk_step(d, r, ev, d2),
        r.pc is JournalSwap || r.pc is CleanStage || r.pc is CleanBak || r.pc is JournalDone
            || r.pc is CleanJournal,
    ensures
        rec_inv(rec_step(r, ev), j, d0, d2),
{
    crate::recovery::lemma_rec_wf(r, ev);
    let r2 = rec_step(r, ev);
    match r.pc {
        RecPc::JournalSwap(q) => {
            let k = q as int;
            lemma_journal_call(j, r.jpath, d0, d, d2);
            assert forall|i: int| 0 <= i < k + 1 implies #[trigger] is_after(j, d2, i) by {
                assert(same_file(j, d, d2, i));
                assert(is_after(j, d, i));
            }
            assert forall|i: int| k + 1 <= i < count(j) implies #[trigger] found_holds(
                j,
                d2,
                i,
                r.found[i],
            ) by {
                assert(same_file(j, d, d2, i));
                assert(found_holds(j, d, i, r.found[i]));
            }
            assert forall|i: int| k + 1 <= i < count(j) && r.found[i] != Found::Installed implies #[trigger] is_ready(
                j,
                d2,
                i,
            ) by {
                assert(same_file(j, d, d2, i));
                assert(is_ready(j, d, i));
            }
            lemma_at_swap(r, j, d0, d2, k + 1);
        },
        RecPc::CleanStage(k) => {
            assert(r.journal.files[k as int].path == j.files[k as int].path);
            lemma_removal(j, r.jpath, d0, d, d2, k as int, jstage(j, k as int));
            lemma_done_kept(j, d, d2);
        },
        RecPc::CleanBak(k) => {
            assert(r.journal.files[k as int].path == j.files[k as int].path);
            lemma_removal(j, r.jpath, d0, d, d2, k as int, jbak(j, k as int));
            lemma_done_kept(j, d, d2);
        },
        _ => {
            lemma_journal_call(j, r.jpath, d0, d, d2);
            assert forall|i: int| 0 <= i < count(j) implies #[trigger] is_after(j, d2, i)
                == is_after(j, d, i) by {
                assert(same_file(j, d, d2, i));
            }
            assert forall|i: int| 0 <= i < count(j) implies #[trigger] is_before(j, d2, i)
                == is_before(j, d, i) by {
                assert(same_file(j, d, d2, i));
            }
            lemma_done_kept(j, d, d2);
        },
    }
    lemma_settles_done(j, d2);
}

proof fn lemma_done_kept(j: JournalV, d: DiskV, d2: DiskV)
    requires
        forall|i: int| 0 <= i < count(j) ==> #[trigger] is_after(j, d2, i) == is_after(j, d, i),
        forall|i: int| 0 <= i < count(j) ==> #[trigger] is_before(j, d2, i) == is_before(j, d, i),
    ensures
        all_installed(j, d) ==> all_installed(j, d2),
        all_validated(j, d) ==> all_validated(j, d2),
{
    if all_installed(j, d) {
        assert forall|i: int| 0 <= i < count(j) implies #[trigger] is_after(j, d2, i) by {
            assert(is_after(j, d, i));
        }
    }
    if all_validated(j, d) {
        assert forall|i: int| 0 <= i < count(j) implies #[trigger] is_before(j, d2, i) by {
            assert(is_before(j, d, i));
        }
    }
}

/// A recovery that starts on a disk nobody else writes to.
pub proof fn law_recovery_start(jpath: FsPathV, j: JournalV, d: DiskV)
    requires
        count(j) <= usize::MAX,
        journal_disjoint(j, jpath),
    ensures
        rec_inv(rec_start(jpath, Some(j)), j, d, d),
{
    let r = RecRunV {
        jpath,
        journal: j,
        found: Seq::empty(),
        pc: RecPc::Finished,
        outcome: RecoveryOutcomeV::Clean,
    };
    assert(rec_frame(r, j, d, d));
    lemma_at_classify(r, j, d, 0);
}

/// Every call of a recovery keeps what holds between the recovery and
/// its disk, whatever comes of the call.
pub proof fn law_recovery_step(
    r: RecRunV,
    j: JournalV,
    d0: DiskV,
    d: DiskV,
    ev: EventV,
    d2: DiskV,
)
    requires
        rec_inv(r, j, d0, d),
        rec_disk_step(d, r, ev, d2),
    ensures
        rec_inv(rec_step(r, ev), j, d0, d2),
{
    match r.pc {
        RecPc::ReadDest(_) | RecPc::ReadBak(_) | RecPc::ReadStage(_) => {
            lemma_read_step(r, j, d0, d, ev, d2);
        },
        RecPc::Backup(_) | RecPc::Promote(_) => {
            lemma_move_step(r, j, d0, d, ev, d2);
        },
        RecPc::Restore(_) => {
            lemma_back_step(r, j, d0, d, ev, d2);
        },
        RecPc::Finished => {},
        _ => {
            lemma_late_step(r, j, d0, d, ev, d2);
        },
    }
}

/// A recovery that says it committed has every candidate in place; one
/// that says it rolled back has every file as validated. Whatever it
/// says, it touched no path but those of its journal, and left in the
/// places of a file only bytes that were there.
pub proof fn law_recovery_outcome(r: RecRunV, j: JournalV, d0: DiskV, d: DiskV)
    requires
        rec_inv(r, j, d0, d),
        r.pc is Finished,
    ensures
        r.outcome is Committed ==> all_installed(j, d),
        r.outcome is RolledBack ==> all_validated(j, d),
        r.outcome is Committed || r.outcome is RolledBack || r.outcome is Conflict,
        same_elsewhere(j, r.jpath, d0, d),
        forall|i: int| 0 <= i < count(j) ==> #[trigger] nothing_new(j, d0, d, i),
{
}

/// A file nobody can account for stops recovery before it has touched
/// anything.
pub proof fn law_conflict_touches_nothing(
    r: RecRunV,
    j: JournalV,
    d0: DiskV,
    d: DiskV,
    ev: EventV,
    d2: DiskV,
)
    requires
        rec_inv(r, j, d0, d),
        rec_disk_step(d, r, ev, d2),
        r.pc is ReadDest || r.pc is ReadBak || r.pc is ReadStage,
        rec_step(r, ev).outcome is Conflict,
    ensures
        d2 == d0,
{
}

/// What comes of the due call of recovery `r` on a disk that refuses
/// nothing: what is there is read, moved and removed, and what is not
/// there is reported missing.
pub open spec fn rec_honest(d: DiskV, r: RecRunV, ev: EventV, d2: DiskV) -> bool {
    let j = r.journal;
    &&& rec_disk_step(d, r, ev, d2)
    &&& match rec_action(r) {
        RecAction::ReadDest(i) => found_out(d, jdest(j, i as int), ev),
        RecAction::ReadStage(i) => found_out(d, jstage(j, i as int), ev),
        RecAction::ReadBak(i) => found_out(d, jbak(j, i as int), ev),
        RecAction::DestToBak(i) => carried_out(d, jdest(j, i as int), ev),
        RecAction::StageToDest(i) => carried_out(d, jstage(j, i as int), ev),
        RecAction::BakToDest(i) => carried_out(d, jbak(j, i as int), ev),
        RecAction::WriteJournal => ev is Done,
        RecAction::RemoveStage(i) => carried_out(d, jstage(j, i as int), ev),
        RecAction::RemoveBak(i) => carried_out(d, jbak(j, i as int), ev),
        RecAction::RemoveJournal => carried_out(d, r.jpath, ev),
        RecAction::Stop => true,
    }
}

/// A read gives the bytes that are there, or says that none are.
pub open spec fn found_out(d: DiskV, p: FsPathV, ev: EventV) -> bool {
    if d.contains_key(p) {
        ev is Bytes
    } else {
        ev matches EventV::Failed { message: _, missing } && missing
    }
}

/// A call on what is there succeeds, one on what is not there fails.
pub open spec fn carried_out(d: DiskV, p: FsPathV, ev: EventV) -> bool {
    if d.contains_key(p) {
        ev is Done
    } else {
        ev is Failed
    }
}

/// No stage and no backup of the first `n` files is left.
pub open spec fn gone(j: JournalV, d: DiskV, n: int) -> bool {
    forall|i: int|
        0 <= i < n ==> !d.contains_key(#[trigger] jstage(j, i)) && !d.contains_key(jbak(j, i))
}

/// What holds, beside [`rec_inv`], of a recovery of a disk `d0` that
/// settles and refuses nothing.
pub open spec fn rec_right(r: RecRunV, j: JournalV, d0: DiskV, d: DiskV) -> bool {
    &&& !(r.outcome is Conflict)
    &&& match r.pc {
        RecPc::ReadDest(_) | RecPc::ReadBak(_) | RecPc::ReadStage(_) => true,
        RecPc::Backup(_) | RecPc::Promote(_) | RecPc::JournalSwap(_) => finishes(j, d0),
        RecPc::Restore(_) => !finishes(j, d0),
        RecPc::CleanStage(k) => r.outcome == settled(j, finishes(j, d0)) && gone(j, d, k as int),
        RecPc::CleanBak(k) => {
            &&& r.outcome == settled(j, finishes(j, d0))
            &&& gone(j, d, k as int)
            &&& !d.contains_key(jstage(j, k as int))
        },
        RecPc::JournalDone | RecPc::CleanJournal => r.outcome == settled(j, finishes(j, d0))
            && gone(j, d, count(j)),
        RecPc::Finished => {
            &&& r.outcome == settled(j, finishes(j, d0))
            &&& gone(j, d, count(j))
            &&& !d.contains_key(r.jpath)
        },
    }
}

proof fn lemma_right_back(r: RecRunV, j: JournalV, d0: DiskV, d: DiskV, i: int)
    requires
        same_files(j, r.journal),
        count(j) <= usize::MAX,
        !finishes(j, d0),
        !(r.outcome is Conflict),
        0 <= i <= count(j),
    ensures
        rec_right(rec_restore(r, i), j, d0, d),
{
    crate::recovery::lemma_next(r, Sort::Away, i);
}

proof fn lemma_right_swap(r: RecRunV, j: JournalV, d0: DiskV, d: DiskV, i: int)
    requires
        same_files(j, r.journal),
        count(j) <= usize::MAX,
        finishes(j, d0),
        !(r.outcome is Conflict),
        0 <= i <= count(j),
    ensures
        rec_right(rec_swap(r, i), j, d0, d),
{
    crate::recovery::lemma_next(r, Sort::Waiting, i);
}

proof fn lemma_right_verify(r: RecRunV, j: JournalV, d0: DiskV, i: int)
    requires
        rec_frame(r, j, d0, d0),
        r.found.len() == count(j),
        !(r.outcome is Conflict),
        0 <= i <= count(j),
        next_of(r, Sort::Waiting, 0) >= count(j) || any_installed(j, d0),
        forall|k: int|
            0 <= k < i && r.found[k] != Found::Installed ==> #[trigger] is_ready(j, d0, k),
    ensures
        rec_right(rec_verify(r, i), j, d0, d0),
{
    crate::recovery::lemma_next(r, Sort::Waiting, i);
    crate::recovery::lemma_next(r, Sort::Waiting, 0);
    if next_of(r, Sort::Waiting, i) >= count(j) {
        assert(all_ready(j, d0)) by {
            assert forall|k: int| 0 <= k < count(j) && !is_after(j, d0, k) implies #[trigger] is_ready(
                j,
                d0,
                k,
            ) by {
                assert(found_holds(j, d0, k, r.found[k]));
                if k >= i {
                    assert(!wanted(r, Sort::Waiting, k));
                }
            }
        }
        if next_of(r, Sort::Waiting, 0) >= count(j) {
            assert(all_installed(j, d0)) by {
                assert forall|k: int| 0 <= k < count(j) implies #[trigger] is_after(j, d0, k) by {
                    assert(!wanted(r, Sort::Waiting, k));
                    assert(found_holds(j, d0, k, r.found[k]));
                }
            }
        }
        lemma_right_swap(r, j, d0, d0, 0);
    }
}

proof fn lemma_right_classify(r: RecRunV, j: JournalV, d0: DiskV, i: int)
    requires
        rec_frame(r, j, d0, d0),
        r.found.len() == i,
        r.journal == j,
        !(r.outcome is Conflict),
        0 <= i <= count(j),
    ensures
        rec_right(rec_classify(r, i), j, d0, d0),
{
    if i == count(j) {
        crate::recovery::lemma_next(r, Sort::Waiting, 0);
        crate::recovery::lemma_next(r, Sort::Swapped, 0);
        let u = next_of(r, Sort::Swapped, 0);
        if u < count(j) {
            assert(found_holds(j, d0, u, r.found[u]));
            assert(is_installed(j, d0, u));
        }
        if next_of(r, Sort::Waiting, 0) >= count(j) || u < count(j) {
            lemma_right_verify(r, j, d0, 0);
        } else {
            let w = next_of(r, Sort::Waiting, 0);
            assert(found_holds(j, d0, w, r.found[w]));
            assert(!is_after(j, d0, w));
            assert(!any_installed(j, d0)) by {
                assert forall|k: int| 0 <= k < count(j) implies !(#[trigger] is_installed(
                    j,
                    d0,
                    k,
                )) by {
                    assert(!wanted(r, Sort::Swapped, k));
                    assert(found_holds(j, d0, k, r.found[k]));
                }
            }
            lemma_right_back(r, j, d0, d0, 0);
        }
    }
}

proof fn lemma_right_found(r: RecRunV, j: JournalV, d0: DiskV, i: usize, f: Found)
    requires
        rec_frame(r, j, d0, d0),
        r.journal == j,
        r.found.len() == i,
        i < count(j),
        found_holds(j, d0, i as int, f),
        !(r.outcome is Conflict),
    ensures
        rec_right(rec_found(r, i, f), j, d0, d0),
{
    let r2 = RecRunV { found: r.found.push(f), ..r };
    assert forall|k: int| 0 <= k < r2.found.len() implies #[trigger] found_holds(
        j,
        d0,
        k,
        r2.found[k],
    ) by {
        if k < i {
            assert(found_holds(j, d0, k, r.found[k]));
        }
    }
    lemma_right_classify(r2, j, d0, i + 1);
}

proof fn lemma_right_read(r: RecRunV, j: JournalV, d0: DiskV, d: DiskV, ev: EventV, d2: DiskV)
    requires
        rec_inv(r, j, d0, d),
        rec_right(r, j, d0, d),
        settles(j, d0),
        rec_honest(d, r, ev, d2),
        r.pc is ReadDest || r.pc is ReadBak || r.pc is ReadStage,
    ensures
        rec_right(rec_step(r, ev), j, d0, d2),
{
    match r.pc {
        RecPc::ReadDest(i) => {
            let k = i as int;
            assert(is_after(j, d0, k) || is_before(j, d0, k) || is_away(j, d0, k));
            if d.contains_key(jdest(j, k)) {
                if fnv(d[jdest(j, k)]) == j.files[k].after_fp {
                    lemma_right_found(r, j, d0, i, Found::Installed);
                } else {
                    lemma_right_found(r, j, d0, i, Found::Validated);
                }
            }
        },
        RecPc::ReadBak(i) => {
            let k = i as int;
            assert(is_after(j, d0, k) || is_before(j, d0, k) || is_away(j, d0, k));
            lemma_right_found(r, j, d0, i, Found::Away);
        },
        RecPc::ReadStage(k) => {
            assert(found_holds(j, d0, k as int, r.found[k as int]));
            assert(!is_after(j, d0, k as int));
            assert(is_ready(j, d0, k as int));
            lemma_right_verify(r, j, d0, k + 1);
        },
        _ => {},
    }
}

proof fn lemma_right_late(r: RecRunV, j: JournalV, d0: DiskV, d: DiskV, ev: EventV, d2: DiskV)
    requires
        rec_inv(r, j, d0, d),
        rec_right(r, j, d0, d),
        rec_honest(d, r, ev, d2),
        r.pc is CleanStage || r.pc is CleanBak || r.pc is JournalDone || r.pc is CleanJournal,
    ensures
        rec_right(rec_step(r, ev), j, d0, d2),
{
    let r2 = rec_step(r, ev);
    match r.pc {
        RecPc::CleanStage(k) => {
            assert(r.journal.files[k as int].path == j.files[k as int].path);
            assert forall|i: int| 0 <= i < k implies !d2.contains_key(#[trigger] jstage(j, i))
                && !d2.contains_key(jbak(j, i)) by {
                assert(!d.contains_key(jstage(j, i)));
            }
            assert(!d2.contains_key(jstage(j, k as int)));
            assert(rec_right(r2, j, d0, d2));
        },
        RecPc::CleanBak(k) => {
            assert(r.journal.files[k as int].path == j.files[k as int].path);
            assert forall|i: int| 0 <= i < k + 1 implies !d2.contains_key(#[trigger] jstage(j, i))
                && !d2.contains_key(jbak(j, i)) by {
                assert(!d.contains_key(jstage(j, i)));
            }
            assert(gone(j, d2, k + 1));
            assert(r2.outcome == r.outcome);
            assert(rec_right(r2, j, d0, d2));
        },
        RecPc::JournalDone => {
            assert forall|i: int| 0 <= i < count(j) implies !d2.contains_key(#[trigger] jstage(j, i))
                && !d2.contains_key(jbak(j, i)) by {
                assert(!d.contains_key(jstage(j, i)));
                assert(jdest(j, i) != r.jpath);
                let s = jstage(j, i);
                let b = jbak(j, i);
                assert(d2.contains_key(s) == d.contains_key(s));
                assert(d2.contains_key(b) == d.contains_key(b));
            }
        },
        _ => {
            assert forall|i: int| 0 <= i < count(j) implies !d2.contains_key(#[trigger] jstage(j, i))
                && !d2.contains_key(jbak(j, i)) by {
                assert(!d.contains_key(jstage(j, i)));
            }
        },
    }
}

proof fn lemma_right_step(r: RecRunV, j: JournalV, d0: DiskV, d: DiskV, ev: EventV, d2: DiskV)
    requires
        rec_inv(r, j, d0, d),
        rec_right(r, j, d0, d),
        settles(j, d0),
        rec_honest(d, r, ev, d2),
    ensures
        rec_right(rec_step(r, ev), j, d0, d2),
{
    match r.pc {
        RecPc::ReadDest(_) | RecPc::ReadBak(_) | RecPc::ReadStage(_) => {
            lemma_right_read(r, j, d0, d, ev, d2);
        },
        RecPc::Backup(k) => {
            assert(r.journal.files[k as int].path == j.files[k as int].path);
            assert(found_holds(j, d, k as int, r.found[k as int]));
        },
        RecPc::Promote(k) => {
            assert(r.journal.files[k as int].path == j.files[k as int].path);
            assert(is_ready(j, d, k as int));
        },
        RecPc::JournalSwap(k) => {
            lemma_right_swap(r, j, d0, d2, k + 1);
        },
        RecPc::Restore(k) => {
            assert(r.journal.files[k as int].path == j.files[k as int].path);
            assert(is_away(j, d, k as int));
            lemma_right_back(r, j, d0, d2, k + 1);
        },
        RecPc::Finished => {},
        _ => {
            lemma_right_late(r, j, d0, d, ev, d2);
        },
    }
}

/// A recovery and the disk it stands before.
#[verifier::ext_equal]
pub struct RecPointV {
    pub run: RecRunV,
    pub disk: DiskV,
}

/// One call of a recovery on a disk that refuses nothing.
pub open spec fn rec_moves(a: RecPointV, b: RecPointV) -> bool {
    exists|ev: EventV|
        #[trigger] rec_honest(a.disk, a.run, ev, b.disk) && b.run == rec_step(a.run, ev)
}

/// A recovery of journal `j` at `jpath`, call by call, on a disk that
/// refuses nothing.
pub open spec fn rec_trace(t: Seq<RecPointV>, jpath: FsPathV, j: JournalV) -> bool {
    &&& t.len() > 0
    &&& t[0].run == rec_start(jpath, Some(j))
    &&& forall|i: int| 0 <= i < t.len() - 1 ==> rec_moves(#[trigger] t[i], t[i + 1])
}

proof fn lemma_trace(t: Seq<RecPointV>, jpath: FsPathV, j: JournalV, n: int)
    requires
        rec_trace(t, jpath, j),
        count(j) <= usize::MAX,
        journal_disjoint(j, jpath),
        settles(j, t[0].disk),
        0 <= n < t.len(),
    ensures
        rec_inv(t[n].run, j, t[0].disk, t[n].disk),
        rec_right(t[n].run, j, t[0].disk, t[n].disk),
        t[n].run.jpath == jpath,
    decreases n,
{
    let d0 = t[0].disk;
    if n == 0 {
        law_recovery_start(jpath, j, d0);
        let r = RecRunV {
            jpath,
            journal: j,
            found: Seq::empty(),
            pc: RecPc::Finished,
            outcome: RecoveryOutcomeV::Clean,
        };
        assert(rec_frame(r, j, d0, d0));
        lemma_right_classify(r, j, d0, 0);
        lemma_jpath_kept(r, 0);
    } else {
        lemma_trace(t, jpath, j, n - 1);
        let a = t[n - 1];
        assert(rec_moves(a, t[(n - 1) + 1]));
        let ev = choose|ev: EventV|
            #[trigger] rec_honest(a.disk, a.run, ev, t[n].disk) && t[n].run == rec_step(a.run, ev);
        law_recovery_step(a.run, j, d0, a.disk, ev, t[n].disk);
        lemma_right_step(a.run, j, d0, a.disk, ev, t[n].disk);
    }
}

proof fn lemma_jpath_kept(r: RecRunV, i: int)
    ensures
        rec_classify(r, i).jpath == r.jpath,
{
}

/// A disk that settles is settled: a recovery that the disk refuses
/// nothing ends without a conflict. It reports the transaction
/// committed, with every candidate in place, when the transaction was
/// to be finished; otherwise it reports it rolled back, with every file
/// as validated. Every stage, every backup and the journal are gone, no
/// other path has changed, and the places of a file hold only bytes
/// that were there.
pub proof fn law_recovery_settles(t: Seq<RecPointV>, jpath: FsPathV, j: JournalV)
    requires
        rec_trace(t, jpath, j),
        count(j) <= usize::MAX,
        journal_disjoint(j, jpath),
        settles(j, t[0].disk),
        t.last().run.pc is Finished,
    ensures
        t.last().run.outcome == settled(j, finishes(j, t[0].disk)),
        finishes(j, t[0].disk) ==> all_installed(j, t.last().disk),
        !finishes(j, t[0].disk) ==> all_validated(j, t.last().disk),
        gone(j, t.last().disk, count(j)),
        !t.last().disk.contains_key(jpath),
        same_elsewhere(j, jpath, t[0].disk, t.last().disk),
        forall|i: int|
            0 <= i < count(j) ==> #[trigger] nothing_new(j, t[0].disk, t.last().disk, i),
{
    lemma_trace(t, jpath, j, t.len() - 1);
}

/// What holds, beside [`rec_inv`], of a recovery of a disk that does not
/// settle and refuses nothing.
pub open spec fn rec_stuck(r: RecRunV, d0: DiskV, d: DiskV) -> bool {
    match r.pc {
        RecPc::ReadDest(_) | RecPc::ReadBak(_) | RecPc::ReadStage(_) => true,
        RecPc::Finished => r.outcome is Conflict && d == d0,
        _ => false,
    }
}

proof fn lemma_stuck_verify(r: RecRunV, j: JournalV, d0: DiskV, i: int)
    requires
        rec_frame(r, j, d0, d0),
        r.found.len() == count(j),
        0 <= i <= count(j),
        !all_ready(j, d0),
        forall|k: int|
            0 <= k < i && r.found[k] != Found::Installed ==> #[trigger] is_ready(j, d0, k),
    ensures
        rec_stuck(rec_verify(r, i), d0, d0),
{
    crate::recovery::lemma_next(r, Sort::Waiting, i);
    if next_of(r, Sort::Waiting, i) >= count(j) {
        assert forall|k: int| 0 <= k < count(j) && !is_after(j, d0, k) implies #[trigger] is_ready(
            j,
            d0,
            k,
        ) by {
            assert(found_holds(j, d0, k, r.found[k]));
            if k >= i {
                assert(!wanted(r, Sort::Waiting, k));
            }
        }
    }
}

proof fn lemma_stuck_classify(r: RecRunV, j: JournalV, d0: DiskV, i: int)
    requires
        rec_frame(r, j, d0, d0),
        r.found.len() == i,
        r.journal == j,
        0 <= i <= count(j),
        !settles(j, d0),
    ensures
        rec_stuck(rec_classify(r, i), d0, d0),
{
    if i == count(j) {
        assert forall|k: int| 0 <= k < count(j) implies is_after(j, d0, k) || is_before(j, d0, k)
            || #[trigger] is_away(j, d0, k) by {
            assert(found_holds(j, d0, k, r.found[k]));
        }
        let e = choose|k: int| 0 <= k < count(j) && #[trigger] is_installed(j, d0, k);
        assert(found_holds(j, d0, e, r.found[e]));
        assert(wanted(r, Sort::Swapped, e));
        crate::recovery::lemma_next(r, Sort::Swapped, 0);
        lemma_stuck_verify(r, j, d0, 0);
    }
}

proof fn lemma_stuck_found(r: RecRunV, j: JournalV, d0: DiskV, i: usize, f: Found)
    requires
        rec_frame(r, j, d0, d0),
        r.journal == j,
        r.found.len() == i,
        i < count(j),
        found_holds(j, d0, i as int, f),
        !settles(j, d0),
    ensures
        rec_stuck(rec_found(r, i, f), d0, d0),
{
    let r2 = RecRunV { found: r.found.push(f), ..r };
    assert forall|k: int| 0 <= k < r2.found.len() implies #[trigger] found_holds(
        j,
        d0,
        k,
        r2.found[k],
    ) by {
        if k < i {
            assert(found_holds(j, d0, k, r.found[k]));
        }
    }
    lemma_stuck_classify(r2, j, d0, i + 1);
}

proof fn lemma_stuck_step(r: RecRunV, j: JournalV, d0: DiskV, d: DiskV, ev: EventV, d2: DiskV)
    requires
        rec_inv(r, j, d0, d),
        rec_stuck(r, d0, d),
        !settles(j, d0),
        rec_honest(d, r, ev, d2),
    ensures
        rec_stuck(rec_step(r, ev), d0, d2),
{
    match r.pc {
        RecPc::ReadDest(i) => {
            let k = i as int;
            if is_after(j, d0, k) {
                lemma_stuck_found(r, j, d0, i, Found::Installed);
            } else if is_before(j, d0, k) {
                lemma_stuck_found(r, j, d0, i, Found::Validated);
            }
        },
        RecPc::ReadBak(i) => {
            if is_away(j, d0, i as int) {
                lemma_stuck_found(r, j, d0, i, Found::Away);
            }
        },
        RecPc::ReadStage(k) => {
            if is_ready(j, d0, k as int) {
                assert(!all_ready(j, d0)) by {
                    assert forall|i: int| 0 <= i < count(j) implies is_after(j, d0, i) || is_before(
                        j,
                        d0,
                        i,
                    ) || #[trigger] is_away(j, d0, i) by {
                        assert(found_holds(j, d0, i, r.found[i]));
                    }
                }
                lemma_stuck_verify(r, j, d0, k + 1);
            }
        },
        _ => {},
    }
}

proof fn lemma_stuck_trace(t: Seq<RecPointV>, jpath: FsPathV, j: JournalV, n: int)
    requires
        rec_trace(t, jpath, j),
        count(j) <= usize::MAX,
        journal_disjoint(j, jpath),
        !settles(j, t[0].disk),
        0 <= n < t.len(),
    ensures
        rec_inv(t[n].run, j, t[0].disk, t[n].disk),
        rec_stuck(t[n].run, t[0].disk, t[n].disk),
    decreases n,
{
    let d0 = t[0].disk;
    if n == 0 {
        law_recovery_start(jpath, j, d0);
        let r = RecRunV {
            jpath,
            journal: j,
            found: Seq::empty(),
            pc: RecPc::Finished,
            outcome: RecoveryOutcomeV::Clean,
        };
        assert(rec_frame(r, j, d0, d0));
        lemma_stuck_classify(r, j, d0, 0);
    } else {
        lemma_stuck_trace(t, jpath, j, n - 1);
        let a = t[n - 1];
        assert(rec_moves(a, t[(n - 1) + 1]));
        let ev = choose|ev: EventV|
            #[trigger] rec_honest(a.disk, a.run, ev, t[n].disk) && t[n].run == rec_step(a.run, ev);
        law_recovery_step(a.run, j, d0, a.disk, ev, t[n].disk);
        lemma_stuck_step(a.run, j, d0, a.disk, ev, t[n].disk);
    }
}

/// A disk that does not settle is left as it is: a file holds bytes that
/// are neither its candidate nor its validated ones, or a file was
/// swapped and a candidate that is still needed is gone. Recovery
/// reports a conflict.
pub proof fn law_conflict_is_reported(t: Seq<RecPointV>, jpath: FsPathV, j: JournalV)
    requires
        rec_trace(t, jpath, j),
        count(j) <= usize::MAX,
        journal_disjoint(j, jpath),
        !settles(j, t[0].disk),
        t.last().run.pc is Finished,
    ensures
        t.last().run.outcome is Conflict,
        t.last().disk == t[0].disk,
{
    lemma_stuck_trace(t, jpath, j, t.len() - 1);
}

/// A recovery that is killed leaves a disk that the next one settles:
/// whichever of its calls were made, and whatever came of them, and
/// whichever of its journals is on the disk.
pub proof fn law_killed_recovery_settles(
    r: RecRunV,
    j: JournalV,
    d0: DiskV,
    d: DiskV,
    j2: JournalV,
)
    requires
        rec_inv(r, j, d0, d),
        settles(j, d0),
        same_files(j, j2),
    ensures
        settles(j2, d),
{
    assert(settles(j, d));
    assert forall|i: int| 0 <= i < count(j) implies {
        &&& #[trigger] is_after(j2, d, i) == is_after(j, d, i)
        &&& is_before(j2, d, i) == is_before(j, d, i)
        &&& is_kept(j2, d, i) == is_kept(j, d, i)
        &&& is_ready(j2, d, i) == is_ready(j, d, i)
        &&& is_installed(j2, d, i) == is_installed(j, d, i)
        &&& is_away(j2, d, i) == is_away(j, d, i)
    } by {
        assert(j2.files[i].path == j.files[i].path);
    }
    assert forall|i: int| 0 <= i < count(j2) implies is_after(j2, d, i) || is_before(j2, d, i)
        || #[trigger] is_away(j2, d, i) by {
        assert(is_after(j2, d, i) == is_after(j, d, i));
        assert(is_after(j, d, i) || is_before(j, d, i) || is_away(j, d, i));
    }
    if !any_installed(j, d) {
        assert forall|i: int| 0 <= i < count(j2) implies !(#[trigger] is_installed(j2, d, i)) by {
            assert(is_after(j2, d, i) == is_after(j, d, i));
            assert(!is_installed(j, d, i));
        }
    } else {
        assert forall|i: int| 0 <= i < count(j2) && !is_after(j2, d, i) implies #[trigger] is_ready(
            j2,
            d,
            i,
        ) by {
            assert(is_after(j2, d, i) == is_after(j, d, i));
            assert(is_ready(j, d, i));
        }
    }
}

/// A recovery repeated on the disk a recovery left, with its journal
/// still there, comes to the same end. A transaction none of whose
/// files changes is committed either way.
pub proof fn law_recovery_repeats(r: RecRunV, j: JournalV, d0: DiskV, d: DiskV)
    requires
        rec_inv(r, j, d0, d),
        r.pc is Finished,
    ensures
        r.outcome is Committed ==> settles(j, d) && finishes(j, d),
        r.outcome is RolledBack && (exists|i: int|
            0 <= i < count(j) && is_changed(#[trigger] j.files[i])) ==> settles(j, d) && !finishes(
            j,
            d,
        ),
{
    lemma_settles_done(j, d);
    if r.outcome is RolledBack && (exists|i: int|
        0 <= i < count(j) && is_changed(#[trigger] j.files[i])) {
        let e = choose|i: int| 0 <= i < count(j) && is_changed(#[trigger] j.files[i]);
        assert(is_before(j, d, e));
        assert(!is_after(j, d, e));
        assert(!any_installed(j, d)) by {
            assert forall|i: int| 0 <= i < count(j) implies !(#[trigger] is_installed(j, d, i)) by {
                assert(is_before(j, d, i));
            }
        }
    }
}

/// Whether an event answers the call a recovery waits for.
pub open spec fn answers(r: RecRunV, ev: EventV) -> bool {
    match rec_action(r) {
        RecAction::ReadDest(_) | RecAction::ReadStage(_) | RecAction::ReadBak(_) => ev is Bytes
            || ev is Failed,
        RecAction::DestToBak(_) | RecAction::StageToDest(_) | RecAction::BakToDest(_) => ev is Done
            || ev is Failed,
        _ => true,
    }
}

/// How many calls a recovery makes at most before it is over.
pub open spec fn rec_left(r: RecRunV) -> int {
    let n = rec_len(r);
    match r.pc {
        RecPc::Finished => 0,
        RecPc::CleanJournal => 1,
        RecPc::JournalDone => 2,
        RecPc::CleanBak(k) => 2 * (n - k) + 1,
        RecPc::CleanStage(k) => 2 * (n - k) + 2,
        RecPc::Restore(k) => 2 * n + 3 + (n - k),
        RecPc::JournalSwap(k) => 2 * n + 1 + 3 * (n - k),
        RecPc::Promote(k) => 2 * n + 2 + 3 * (n - k),
        RecPc::Backup(k) => 2 * n + 3 + 3 * (n - k),
        RecPc::ReadStage(k) => 5 * n + 4 + (n - k),
        RecPc::ReadBak(i) => 6 * n + 4 + 2 * (n - i),
        RecPc::ReadDest(i) => 6 * n + 5 + 2 * (n - i),
    }
}

proof fn lemma_left(r: RecRunV, i: int)
    requires
        r.found.len() == rec_len(r),
        0 <= i <= rec_len(r),
        rec_len(r) <= usize::MAX,
    ensures
        0 <= rec_left(rec_restore(r, i)) <= 2 * rec_len(r) + 3 + (rec_len(r) - i),
        0 <= rec_left(rec_swap(r, i)) <= 2 * rec_len(r) + 3 + 3 * (rec_len(r) - i),
        0 <= rec_left(rec_verify(r, i)) <= 5 * rec_len(r) + 4 + (rec_len(r) - i),
        0 <= rec_left(rec_classify(r, rec_len(r))) <= 6 * rec_len(r) + 5,
{
    crate::recovery::lemma_next(r, Sort::Away, i);
    crate::recovery::lemma_next(r, Sort::Swapped, i);
    crate::recovery::lemma_next(r, Sort::Waiting, i);
    crate::recovery::lemma_next(r, Sort::Away, 0);
    crate::recovery::lemma_next(r, Sort::Swapped, 0);
    crate::recovery::lemma_next(r, Sort::Waiting, 0);
}

/// Recovery ends: every answered call brings it nearer to its end.
pub proof fn law_recovery_ends(r: RecRunV, ev: EventV)
    requires
        rec_wf(r),
        answers(r, ev),
        !(r.pc is Finished),
    ensures
        0 <= rec_left(rec_step(r, ev)) < rec_left(r),
{
    match r.pc {
        RecPc::ReadDest(i) | RecPc::ReadBak(i) => {
            if i + 1 == rec_len(r) {
                lemma_left(RecRunV { found: r.found.push(Found::Installed), ..r }, 0);
                lemma_left(RecRunV { found: r.found.push(Found::Validated), ..r }, 0);
                lemma_left(RecRunV { found: r.found.push(Found::Away), ..r }, 0);
            }
        },
        RecPc::ReadStage(k) => {
            lemma_left(r, k + 1);
        },
        RecPc::JournalSwap(k) | RecPc::Restore(k) => {
            lemma_left(r, k + 1);
        },
        _ => {},
    }
}

/// What comes of a call on what is there, or not there.
pub open spec fn told_of(d: DiskV, p: FsPathV) -> EventV {
    if d.contains_key(p) {
        EventV::Done
    } else {
        EventV::Failed { message: Seq::empty(), missing: true }
    }
}

/// What a read of a path gives.
pub open spec fn read_from(d: DiskV, p: FsPathV) -> EventV {
    if d.contains_key(p) {
        EventV::Bytes(d[p])
    } else {
        EventV::Failed { message: Seq::empty(), missing: true }
    }
}

/// The disk behind a rename; nothing moves where nothing is.
pub open spec fn with_moved(d: DiskV, from: FsPathV, to: FsPathV) -> DiskV {
    if d.contains_key(from) {
        d.remove(from).insert(to, d[from])
    } else {
        d
    }
}

/// The disk behind a removal.
pub open spec fn without(d: DiskV, p: FsPathV) -> DiskV {
    if d.contains_key(p) {
        d.remove(p)
    } else {
        d
    }
}

/// What comes of the due call on a disk that refuses nothing, and the
/// disk behind it.
pub open spec fn rec_reply(d: DiskV, r: RecRunV) -> (EventV, DiskV) {
    let j = r.journal;
    match rec_action(r) {
        RecAction::ReadDest(i) => (read_from(d, jdest(j, i as int)), d),
        RecAction::ReadStage(i) => (read_from(d, jstage(j, i as int)), d),
        RecAction::ReadBak(i) => (read_from(d, jbak(j, i as int)), d),
        RecAction::DestToBak(i) => (
            told_of(d, jdest(j, i as int)),
            with_moved(d, jdest(j, i as int), jbak(j, i as int)),
        ),
        RecAction::StageToDest(i) => (
            told_of(d, jstage(j, i as int)),
            with_moved(d, jstage(j, i as int), jdest(j, i as int)),
        ),
        RecAction::BakToDest(i) => (
            told_of(d, jbak(j, i as int)),
            with_moved(d, jbak(j, i as int), jdest(j, i as int)),
        ),
        RecAction::WriteJournal => (EventV::Done, d),
        RecAction::RemoveStage(i) => (
            told_of(d, jstage(j, i as int)),
            without(d, jstage(j, i as int)),
        ),
        RecAction::RemoveBak(i) => (told_of(d, jbak(j, i as int)), without(d, jbak(j, i as int))),
        RecAction::RemoveJournal => (told_of(d, r.jpath), without(d, r.jpath)),
        RecAction::Stop => (EventV::Done, d),
    }
}

proof fn lemma_trace_from(a: RecPointV) -> (t: Seq<RecPointV>)
    requires
        rec_wf(a.run),
    ensures
        t.len() > 0,
        t[0] == a,
        t.last().run.pc is Finished,
        forall|i: int| 0 <= i < t.len() - 1 ==> rec_moves(#[trigger] t[i], t[i + 1]),
    decreases rec_left(a.run),
{
    if a.run.pc is Finished {
        seq![a]
    } else {
        let (ev, d2) = rec_reply(a.disk, a.run);
        let b = RecPointV { run: rec_step(a.run, ev), disk: d2 };
        assert(rec_honest(a.disk, a.run, ev, d2));
        assert(rec_honest(a.disk, a.run, ev, b.disk) && b.run == rec_step(a.run, ev));
        assert(rec_moves(a, b));
        crate::recovery::lemma_rec_wf(a.run, ev);
        law_recovery_ends(a.run, ev);
        let rest = lemma_trace_from(b);
        let t = seq![a] + rest;
        assert forall|i: int| 0 <= i < t.len() - 1 implies rec_moves(#[trigger] t[i], t[i + 1]) by {
            if i > 0 {
                assert(t[i] == rest[i - 1]);
                assert(t[i + 1] == rest[(i - 1) + 1]);
            } else {
                assert(t[1] == rest[0]);
            }
        }
        assert(t.last() == rest.last());
        t
    }
}

/// On a disk that refuses nothing, every recovery comes to its end.
pub proof fn law_recovery_completes(jpath: FsPathV, j: JournalV, d: DiskV) -> (t: Seq<RecPointV>)
    requires
        count(j) <= usize::MAX,
        journal_disjoint(j, jpath),
    ensures
        rec_trace(t, jpath, j),
        t[0].disk == d,
        t.last().run.pc is Finished,
{
    law_recovery_start(jpath, j, d);
    lemma_trace_from(RecPointV { run: rec_start(jpath, Some(j)), disk: d })
}

} // verus!
