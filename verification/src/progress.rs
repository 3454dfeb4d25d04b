//! How a transaction comes to its end.
//!
//! Every answered call brings a transaction nearer to its end
//! ([`law_transaction_ends`]). One whose destinations hold what was
//! validated and none of whose calls fails ends well
//! ([`law_smooth_transaction_commits`]). One that dies behind a swap is
//! made whole by recovery ([`law_died_transaction_recovers`]), and then
//! there is nothing more to recover ([`law_second_recovery_is_clean`]).

use crate::durability::{
    agree, all_after, all_before, dest, disjoint, disk_step, holds_before, is_staged, is_swapped,
    split, tx_inv, untouched, DiskV,
};
use crate::leftovers::{
    is_artifact, is_dest, is_fresh, is_side, is_tidy, only_installed, others_kept, wrote_journal,
};
use crate::paths::{is_journal, journals_of, FsPathV};
use crate::persist::{FailPoint, Phase, TxFileV};
use crate::recovery::{recovered, RecoveryOutcome};
use crate::recovery_laws::{
    count, gone, is_installed, is_own, jbak, jdest, jstage, rec_trace, same_elsewhere, settled,
    RecPointV,
};
use crate::transaction::{action_at, run_wf, start_of, step, Action, EventV, FileKind, Pc, TxRunV};
use vstd::prelude::*;

verus! {

/// Whether an event answers the call a transaction waits for.
pub open spec fn answers(r: TxRunV, ev: EventV) -> bool {
    match action_at(r.pc) {
        Action::ListJournals => ev is Found,
        Action::Resolve(_) => ev is Located || ev is Failed,
        Action::Stat(_) => ev is Kind || ev is Failed,
        Action::ReadDest(_) => ev is Bytes || ev is Failed,
        Action::TestBak(_) => ev is Exists,
        Action::Stop => true,
        _ => ev is Done || ev is Failed,
    }
}

/// How many calls a transaction makes at most before it is over.
pub open spec fn tx_left(r: TxRunV) -> int {
    let n = r.files.len() as int;
    match r.pc {
        Pc::Finished => 0,
        Pc::CleanJournal => 1,
        Pc::JournalDone => 2,
        Pc::CleanBak(k) => 2 + (n - k),
        Pc::RollbackJournal(_) => 1,
        Pc::RestoreLast(_) => 2,
        Pc::CheckBak(_) => 3,
        Pc::DropRest { at: _, k } => 3 + (n - k),
        Pc::Restore { at, k } => n + 3 + (at - k),
        Pc::JournalSwap(i) => 2 * n + 2 + 3 * (n - i),
        Pc::Promote(i) => 2 * n + 3 + 3 * (n - i),
        Pc::Backup(i) => 2 * n + 4 + 3 * (n - i),
        Pc::JournalSwapping => 5 * n + 5,
        Pc::UnstageJournal => 1,
        Pc::UnstageAll(k) => 1 + (n - k),
        Pc::JournalStaged => 5 * n + 6,
        Pc::DropJournal { .. } => 1,
        Pc::DropStage { at: _, k } => 1 + (n - k),
        Pc::StageSync(i) => 5 * n + 6 + 2 * (n - i),
        Pc::StageWrite(i) => 5 * n + 7 + 2 * (n - i),
        Pc::JournalFirst => 7 * n + 8,
        Pc::Read(i) => 7 * n + 7 + 3 * (n - i),
        Pc::Stat(i) => 7 * n + 8 + 3 * (n - i),
        Pc::Resolve(i) => 7 * n + 9 + 3 * (n - i),
        Pc::Pending => 10 * n + 10,
    }
}

#[verifier::spinoff_prover]
proof fn lemma_prepare_ends(r: TxRunV, ev: EventV)
    requires
        run_wf(r),
        r.files.len() <= usize::MAX,
        answers(r, ev),
        r.pc is Pending || r.pc is Resolve || r.pc is Stat || r.pc is Read,
    ensures
        0 <= tx_left(crate::transaction::step_prepare(r, ev)) < tx_left(r),
{
}

#[verifier::spinoff_prover]
proof fn lemma_stage_ends(r: TxRunV, ev: EventV)
    requires
        run_wf(r),
        r.files.len() <= usize::MAX,
        answers(r, ev),
        r.pc is JournalFirst || r.pc is StageWrite || r.pc is StageSync || r.pc is DropStage
            || r.pc is DropJournal,
    ensures
        0 <= tx_left(crate::transaction::step_stage(r, ev)) < tx_left(r),
{
}

#[verifier::spinoff_prover]
proof fn lemma_commit_ends(r: TxRunV, ev: EventV)
    requires
        run_wf(r),
        r.files.len() <= usize::MAX,
        answers(r, ev),
        r.pc is JournalStaged || r.pc is UnstageAll || r.pc is UnstageJournal || r.pc
            is JournalSwapping || r.pc is Backup || r.pc is Promote || r.pc is JournalSwap,
    ensures
        0 <= tx_left(crate::transaction::step_commit(r, ev)) < tx_left(r),
{
}

#[verifier::spinoff_prover]
proof fn lemma_rollback_ends(r: TxRunV, ev: EventV)
    requires
        run_wf(r),
        r.files.len() <= usize::MAX,
        answers(r, ev),
        r.pc is Restore || r.pc is DropRest || r.pc is CheckBak || r.pc is RestoreLast || r.pc
            is RollbackJournal,
    ensures
        0 <= tx_left(crate::transaction::step_rollback(r, ev)) < tx_left(r),
{
}

#[verifier::spinoff_prover]
proof fn lemma_clean_ends(r: TxRunV, ev: EventV)
    requires
        run_wf(r),
        r.files.len() <= usize::MAX,
        answers(r, ev),
        r.pc is CleanBak || r.pc is JournalDone || r.pc is CleanJournal,
    ensures
        0 <= tx_left(crate::transaction::step_clean(r, ev)) < tx_left(r),
{
}

/// A transaction ends: every answered call brings it nearer to its end.
pub proof fn law_transaction_ends(r: TxRunV, ev: EventV)
    requires
        run_wf(r),
        r.files.len() <= usize::MAX,
        answers(r, ev),
        !(r.pc is Finished),
    ensures
        0 <= tx_left(step(r, ev)) < tx_left(r),
{
    match r.pc {
        Pc::Pending | Pc::Resolve(_) | Pc::Stat(_) | Pc::Read(_) => {
            lemma_prepare_ends(r, ev);
        },
        Pc::JournalFirst
        | Pc::StageWrite(_)
        | Pc::StageSync(_)
        | Pc::DropStage { .. }
        | Pc::DropJournal { .. } => {
            lemma_stage_ends(r, ev);
        },
        Pc::JournalStaged
        | Pc::UnstageAll(_)
        | Pc::UnstageJournal
        | Pc::JournalSwapping
        | Pc::Backup(_)
        | Pc::Promote(_)
        | Pc::JournalSwap(_) => {
            lemma_commit_ends(r, ev);
        },
        Pc::CleanBak(_) | Pc::JournalDone | Pc::CleanJournal => {
            lemma_clean_ends(r, ev);
        },
        _ => {
            lemma_rollback_ends(r, ev);
        },
    }
}

/// What comes of the due call when nothing goes wrong: no journal is
/// pending, each destination is a regular file under the root, and no
/// call fails.
pub open spec fn is_smooth(d: DiskV, r: TxRunV, ev: EventV, d2: DiskV) -> bool {
    &&& disk_step(d, r, ev, d2)
    &&& answers(r, ev)
    &&& !(ev is Failed)
    &&& ev matches EventV::Found(js) ==> js.len() == 0
    &&& ev matches EventV::Located { root, path } ==> crate::paths::is_under(path, root)
    &&& ev matches EventV::Kind(k) ==> k == FileKind::Regular
}

/// A transaction and the disk it stands before.
#[verifier::ext_equal]
pub struct TxPointV {
    pub run: TxRunV,
    pub disk: DiskV,
}

/// One call of a transaction, with nothing going wrong.
pub open spec fn tx_moves(a: TxPointV, b: TxPointV) -> bool {
    exists|ev: EventV|
        #[trigger] is_smooth(a.disk, a.run, ev, b.disk) && b.run == step(a.run, ev)
}

/// A transaction, call by call, with nothing going wrong.
pub open spec fn tx_trace(t: Seq<TxPointV>) -> bool {
    &&& t.len() > 0
    &&& forall|i: int| 0 <= i < t.len() - 1 ==> tx_moves(#[trigger] t[i], t[i + 1])
}

/// A transaction that may begin: its paths are distinct, its
/// destinations hold what was validated, and the disk holds nothing of
/// it yet.
pub open spec fn may_begin(r: TxRunV, d: DiskV) -> bool {
    &&& r.files.len() <= usize::MAX
    &&& disjoint(r)
    &&& all_before(r, d)
    &&& is_fresh(r, d)
}

/// Whether a run is to die behind the swap of one of its files.
pub open spec fn is_to_die(r: TxRunV) -> bool {
    r.fail matches Some(FailPoint::Die(i)) && i < r.files.len()
}

/// Whether a run has nothing injected, or is to die behind a swap.
pub open spec fn is_plain(r: TxRunV) -> bool {
    r.fail is None || is_to_die(r)
}

/// Where a run stands when nothing went wrong so far.
pub open spec fn on_course(r: TxRunV, d: DiskV) -> bool {
    let die = if is_to_die(r) {
        r.fail->0->Die_0 as int
    } else {
        r.files.len() as int
    };
    match r.pc {
        Pc::Pending
        | Pc::Resolve(_)
        | Pc::Stat(_)
        | Pc::Read(_)
        | Pc::JournalFirst
        | Pc::StageWrite(_)
        | Pc::StageSync(_)
        | Pc::JournalStaged
        | Pc::JournalSwapping => true,
        Pc::Backup(i) | Pc::Promote(i) | Pc::JournalSwap(i) => i <= die,
        Pc::CleanBak(_) | Pc::JournalDone | Pc::CleanJournal => !is_to_die(r) && r.errors.len()
            == 0,
        Pc::Finished => match r.outcome {
            Ok(()) => !is_to_die(r),
            Err(e) => {
                &&& is_to_die(r)
                &&& e.phase == Phase::RecoveryRequired
                &&& e.rollback_errors.len() == 0
                &&& split(r, d, die + 1, die + 1)
            },
        },
        _ => false,
    }
}

/// What holds of a transaction that began on disk `d0` and met nothing
/// wrong.
pub open spec fn goes_well(r: TxRunV, d0: DiskV, d: DiskV, wrote: bool) -> bool {
    &&& tx_inv(r, d0, d)
    &&& others_kept(r, d0, d)
    &&& is_tidy(r, d, wrote)
    &&& is_fresh(r, d0)
    &&& all_before(r, d0)
    &&& is_plain(r)
    &&& on_course(r, d)
    &&& crate::crash::journal_describes(r)
}

proof fn lemma_goes_well_start(
    root: FsPathV,
    files: Seq<TxFileV>,
    fail: Option<FailPoint>,
    tx: Seq<char>,
    d: DiskV,
)
    requires
        may_begin(start_of(root, files, fail, tx), d),
        is_plain(start_of(root, files, fail, tx)),
    ensures
        goes_well(start_of(root, files, fail, tx), d, d, false),
{
    let r = start_of(root, files, fail, tx);
    assert forall|i: int| 0 <= i < r.files.len() implies !d.contains_key(
        #[trigger] crate::durability::bak(r, i),
    ) by {
        assert(crate::leftovers::is_side(r, crate::durability::bak(r, i), i));
    }
    crate::durability::law_persist_start(root, files, fail, tx, d);
    crate::leftovers::law_tidy_start(root, files, fail, tx, d);
    crate::crash::law_journal_describes_start(root, files, fail, tx);
}

proof fn lemma_goes_well_step(
    r: TxRunV,
    d0: DiskV,
    d: DiskV,
    wrote: bool,
    ev: EventV,
    d2: DiskV,
)
    requires
        goes_well(r, d0, d, wrote),
        is_smooth(d, r, ev, d2),
    ensures
        goes_well(step(r, ev), d0, d2, wrote_journal(wrote, r, ev)),
{
    let r2 = step(r, ev);
    crate::durability::law_persist_step(r, d0, d, ev, d2);
    crate::leftovers::law_others_kept(r, d0, d, ev, d2);
    crate::leftovers::law_tidy_step(r, d0, d, ev, d2, wrote);
    crate::crash::law_journal_describes_step(r, ev);
    crate::durability::lemma_paths_kept(r, ev);
    assert(is_fresh(r2, d0)) by {
        assert forall|p: FsPathV| crate::leftovers::is_artifact(r2, p) implies
            !#[trigger] d0.contains_key(p) by {
            crate::leftovers::lemma_own_kept(r, r2, p);
        }
    }
    lemma_course(r, d0, d, ev, d2);
}

proof fn lemma_course(r: TxRunV, d0: DiskV, d: DiskV, ev: EventV, d2: DiskV)
    requires
        tx_inv(r, d0, d),
        all_before(r, d0),
        is_plain(r),
        on_course(r, d),
        is_smooth(d, r, ev, d2),
        tx_inv(step(r, ev), d0, d2),
    ensures
        on_course(step(r, ev), d2),
        step(r, ev).fail == r.fail,
        step(r, ev).files == r.files,
{
    match r.pc {
        Pc::Read(i) => {
            assert(holds_before(r, d0, i as int));
        },
        Pc::JournalSwap(i) => {
            lemma_after_swap(r, d, ev, d2, i as int);
        },
        _ => {},
    }
}

/// What recording a swap keeps of the files.
proof fn lemma_after_swap(r: TxRunV, d: DiskV, ev: EventV, d2: DiskV, i: int)
    requires
        run_wf(r),
        r.files.len() <= usize::MAX,
        disjoint(r),
        r.pc is JournalSwap,
        i == r.pc->JournalSwap_0,
        split(r, d, i + 1, i + 1),
        disk_step(d, r, ev, d2),
    ensures
        split(step(r, ev), d2, i + 1, i + 1),
{
    let r2 = step(r, ev);
    crate::durability::lemma_paths_kept(r, ev);
    crate::durability::lemma_frame(r, r2, d, d2, r.jpath);
    assert forall|k: int| 0 <= k < i + 1 implies #[trigger] is_swapped(r2, d2, k) by {
        assert(is_swapped(r, d, k));
        assert(dest(r, k) != r.jpath);
    }
    assert forall|k: int| i + 1 <= k < r2.files.len() implies #[trigger] untouched(r2, d2, k) by {
        assert(untouched(r, d, k));
        assert(dest(r, k) != r.jpath);
    }
    assert forall|k: int| i + 1 <= k < r2.files.len() implies #[trigger] is_staged(r2, d2, k) by {
        assert(is_staged(r, d, k));
        assert(dest(r, k) != r.jpath);
    }
}

proof fn lemma_trace_goes_well(
    root: FsPathV,
    files: Seq<TxFileV>,
    fail: Option<FailPoint>,
    tx: Seq<char>,
    t: Seq<TxPointV>,
    n: int,
) -> (wrote: bool)
    requires
        tx_trace(t),
        t[0].run == start_of(root, files, fail, tx),
        may_begin(t[0].run, t[0].disk),
        is_plain(t[0].run),
        0 <= n < t.len(),
    ensures
        goes_well(t[n].run, t[0].disk, t[n].disk, wrote),
        t[n].run.files == files,
        t[n].run.fail == fail,
        t[n].run.jpath == t[0].run.jpath,
    decreases n,
{
    let d0 = t[0].disk;
    if n == 0 {
        lemma_goes_well_start(root, files, fail, tx, d0);
        false
    } else {
        let wrote = lemma_trace_goes_well(root, files, fail, tx, t, n - 1);
        let a = t[n - 1];
        assert(tx_moves(a, t[(n - 1) + 1]));
        let ev = choose|ev: EventV|
            #[trigger] is_smooth(a.disk, a.run, ev, t[n].disk) && t[n].run == step(a.run, ev);
        lemma_goes_well_step(a.run, d0, a.disk, wrote, ev, t[n].disk);
        crate::durability::lemma_paths_kept(a.run, ev);
        lemma_course(a.run, d0, a.disk, ev, t[n].disk);
        wrote_journal(wrote, a.run, ev)
    }
}

/// A transaction whose destinations hold what was validated, and none of
/// whose calls fails, ends well: it reports success, every destination
/// holds its candidate, and every other path holds what it held.
pub proof fn law_smooth_transaction_commits(
    root: FsPathV,
    files: Seq<TxFileV>,
    tx: Seq<char>,
    t: Seq<TxPointV>,
)
    requires
        tx_trace(t),
        t[0].run == start_of(root, files, None, tx),
        may_begin(t[0].run, t[0].disk),
        t.last().run.pc is Finished,
    ensures
        t.last().run.outcome is Ok,
        t.last().run.files == files,
        all_after(t.last().run, t.last().disk),
        only_installed(t.last().run, t[0].disk, t.last().disk),
{
    let n = t.len() - 1;
    let wrote = lemma_trace_goes_well(root, files, None, tx, t, n);
    crate::leftovers::law_persist_leaves(t[n].run, t[0].disk, t[n].disk, wrote);
}

/// What comes of the due call when nothing goes wrong, and the disk
/// behind it.
pub open spec fn smooth_reply(d: DiskV, r: TxRunV) -> (EventV, DiskV) {
    match action_at(r.pc) {
        Action::ListJournals => (EventV::Found(Seq::empty()), d),
        Action::Resolve(_) => (EventV::Located { root: r.root, path: r.root }, d),
        Action::Stat(_) => (EventV::Kind(FileKind::Regular), d),
        Action::ReadDest(i) => (EventV::Bytes(d[dest(r, i as int)]), d),
        Action::WriteStage(i) => (
            EventV::Done,
            d.insert(crate::durability::stage(r, i as int), r.files[i as int].after),
        ),
        Action::RemoveStage(i) => (EventV::Done, d.remove(crate::durability::stage(r, i as int))),
        Action::RemoveJournal => (EventV::Done, d.remove(r.jpath)),
        Action::DestToBak(i) => (
            EventV::Done,
            crate::recovery_laws::with_moved(
                d,
                dest(r, i as int),
                crate::durability::bak(r, i as int),
            ),
        ),
        Action::StageToDest(i) => (
            EventV::Done,
            crate::recovery_laws::with_moved(
                d,
                crate::durability::stage(r, i as int),
                dest(r, i as int),
            ),
        ),
        Action::RemoveBak(i) => (EventV::Done, d.remove(crate::durability::bak(r, i as int))),
        _ => (EventV::Done, d),
    }
}

proof fn lemma_smooth_reply(r: TxRunV, d0: DiskV, d: DiskV, wrote: bool)
    requires
        goes_well(r, d0, d, wrote),
    ensures
        is_smooth(d, r, smooth_reply(d, r).0, smooth_reply(d, r).1),
{
    assert(r.root.parts.take(r.root.parts.len() as int) =~= r.root.parts);
    match r.pc {
        Pc::Read(i) => {
            assert(holds_before(r, d0, i as int));
        },
        Pc::Backup(i) => {
            assert(untouched(r, d, i as int));
        },
        _ => {},
    }
}

proof fn lemma_smooth_from(a: TxPointV, d0: DiskV, wrote: bool) -> (t: Seq<TxPointV>)
    requires
        goes_well(a.run, d0, a.disk, wrote),
    ensures
        tx_trace(t),
        t[0] == a,
        t.last().run.pc is Finished,
    decreases tx_left(a.run),
{
    if a.run.pc is Finished {
        seq![a]
    } else {
        let (ev, d2) = smooth_reply(a.disk, a.run);
        let b = TxPointV { run: step(a.run, ev), disk: d2 };
        lemma_smooth_reply(a.run, d0, a.disk, wrote);
        assert(is_smooth(a.disk, a.run, ev, b.disk) && b.run == step(a.run, ev));
        assert(tx_moves(a, b));
        law_transaction_ends(a.run, ev);
        lemma_goes_well_step(a.run, d0, a.disk, wrote, ev, d2);
        let rest = lemma_smooth_from(b, d0, wrote_journal(wrote, a.run, ev));
        let t = seq![a] + rest;
        assert forall|i: int| 0 <= i < t.len() - 1 implies tx_moves(#[trigger] t[i], t[i + 1]) by {
            if i > 0 {
                assert(t[i] == rest[i - 1]);
                assert(t[i + 1] == rest[(i - 1) + 1]);
            } else {
                assert(t[1] == rest[0]);
            }
        }
        assert(t.last() == rest.last());
        t
    }
}

/// A transaction that may begin can come to its end with nothing going
/// wrong: the disk allows every call it then makes.
pub proof fn law_smooth_transaction_completes(
    root: FsPathV,
    files: Seq<TxFileV>,
    fail: Option<FailPoint>,
    tx: Seq<char>,
    d: DiskV,
) -> (t: Seq<TxPointV>)
    requires
        may_begin(start_of(root, files, fail, tx), d),
        is_plain(start_of(root, files, fail, tx)),
    ensures
        tx_trace(t),
        t[0] == (TxPointV { run: start_of(root, files, fail, tx), disk: d }),
        t.last().run.pc is Finished,
{
    lemma_goes_well_start(root, files, fail, tx, d);
    lemma_smooth_from(TxPointV { run: start_of(root, files, fail, tx), disk: d }, d, false)
}

/// A transaction that dies behind the swap of file `i`, with nothing
/// else going wrong, is made whole: the recovery of its journal reports
/// it committed, every destination holds its candidate, no stage, backup
/// or journal is left, and no other path has changed. Some file up to
/// `i` changes: a transaction that changes nothing has nothing to
/// finish.
pub proof fn law_died_transaction_recovers(
    root: FsPathV,
    files: Seq<TxFileV>,
    i: usize,
    tx: Seq<char>,
    t: Seq<TxPointV>,
    u: Seq<RecPointV>,
    k: int,
)
    requires
        tx_trace(t),
        t[0].run == start_of(root, files, Some(FailPoint::Die(i)), tx),
        i < files.len(),
        may_begin(t[0].run, t[0].disk),
        t.last().run.pc is Finished,
        rec_trace(u, t.last().run.jpath, t.last().run.journal),
        u[0].disk == t.last().disk,
        u.last().run.pc is Finished,
        crate::crash::digests_tell(t.last().run.journal, t.last().run, t.last().disk),
        0 <= k <= i,
        crate::recovery::is_changed(t.last().run.journal.files[k]),
    ensures
        t.last().run.outcome matches Err(e) && e.phase == Phase::RecoveryRequired,
        u.last().run.outcome == settled(t.last().run.journal, true),
        all_after(t.last().run, u.last().disk),
        gone(t.last().run.journal, u.last().disk, files.len() as int),
        !u.last().disk.contains_key(t.last().run.jpath),
        same_elsewhere(
            t.last().run.journal,
            t.last().run.jpath,
            t.last().disk,
            u.last().disk,
        ),
{
    let n = t.len() - 1;
    let wrote = lemma_trace_goes_well(root, files, Some(FailPoint::Die(i)), tx, t, n);
    let r = t[n].run;
    let d = t[n].disk;
    let j = r.journal;
    crate::crash::law_own_journal(r);
    assert(is_swapped(r, d, k));
    crate::crash::lemma_digests(j, r, d, k);
    assert(is_installed(j, d, k));
    crate::crash::law_killed_transaction_recovers(r, t[0].disk, d, j, u);
}

/// Nothing is left on a disk, once a transaction that died was made
/// whole, that was not there before the transaction.
proof fn lemma_nothing_left(
    r: TxRunV,
    d0: DiskV,
    d: DiskV,
    e: DiskV,
    wrote: bool,
    p: FsPathV,
)
    requires
        goes_well(r, d0, d, wrote),
        gone(r.journal, e, r.files.len() as int),
        !e.contains_key(r.jpath),
        same_elsewhere(r.journal, r.jpath, d, e),
        e.contains_key(p),
    ensures
        d0.contains_key(p),
{
    let j = r.journal;
    crate::crash::law_own_journal(r);
    if is_own(j, r.jpath, p) {
        let i = choose|i: int|
            0 <= i < count(j) && (p == #[trigger] jdest(j, i) || p == jstage(j, i) || p == jbak(
                j,
                i,
            ));
        assert(!e.contains_key(jstage(j, i)));
        assert(j.files[i].path == dest(r, i));
        assert(holds_before(r, d0, i));
    } else {
        assert(agree(d, e, p));
        assert(!is_artifact(r, p)) by {
            if is_artifact(r, p) {
                let i = choose|i: int| 0 <= i < r.files.len() && #[trigger] is_side(r, p, i);
                assert(j.files[i].path == dest(r, i));
                assert(jdest(j, i) == dest(r, i));
            }
        }
        assert(!is_dest(r, p)) by {
            if is_dest(r, p) {
                let i = choose|i: int| 0 <= i < r.files.len() && p == #[trigger] dest(r, i);
                assert(j.files[i].path == dest(r, i));
                assert(p == jdest(j, i));
            }
        }
        assert(agree(d0, d, p));
    }
}

proof fn lemma_no_journals(entries: Seq<FsPathV>, n: int)
    requires
        0 <= n <= entries.len(),
        forall|i: int| 0 <= i < n ==> !is_journal(#[trigger] entries[i]),
    ensures
        journals_of(entries, n).len() == 0,
    decreases n,
{
    if n > 0 {
        lemma_no_journals(entries, n - 1);
    }
}

/// After a transaction that died was made whole, there is nothing more
/// to recover: where no journal stood before the transaction, a listing
/// of what is there finds none, and that is reported as clean.
pub proof fn law_second_recovery_is_clean(
    root: FsPathV,
    files: Seq<TxFileV>,
    i: usize,
    tx: Seq<char>,
    t: Seq<TxPointV>,
    u: Seq<RecPointV>,
    k: int,
    entries: Seq<FsPathV>,
)
    requires
        tx_trace(t),
        t[0].run == start_of(root, files, Some(FailPoint::Die(i)), tx),
        i < files.len(),
        may_begin(t[0].run, t[0].disk),
        t.last().run.pc is Finished,
        rec_trace(u, t.last().run.jpath, t.last().run.journal),
        u[0].disk == t.last().disk,
        u.last().run.pc is Finished,
        crate::crash::digests_tell(t.last().run.journal, t.last().run, t.last().disk),
        0 <= k <= i,
        crate::recovery::is_changed(t.last().run.journal.files[k]),
        forall|p: FsPathV| #[trigger] t[0].disk.contains_key(p) ==> !is_journal(p),
        forall|e: int|
            0 <= e < entries.len() ==> u.last().disk.contains_key(#[trigger] entries[e]),
    ensures
        journals_of(entries, entries.len() as int).len() == 0,
        recovered(Seq::empty()) == seq![RecoveryOutcome::Clean],
{
    law_died_transaction_recovers(root, files, i, tx, t, u, k);
    let n = t.len() - 1;
    let wrote = lemma_trace_goes_well(root, files, Some(FailPoint::Die(i)), tx, t, n);
    assert forall|e: int| 0 <= e < entries.len() implies !is_journal(#[trigger] entries[e]) by {
        lemma_nothing_left(
            t[n].run,
            t[0].disk,
            t[n].disk,
            u.last().disk,
            wrote,
            entries[e],
        );
    }
    lemma_no_journals(entries, entries.len() as int);
}

} // verus!
