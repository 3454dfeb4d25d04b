//! Staged multi-file source persistence with a crash journal.
//!
//! A rename's in-memory apply is atomic; the disk side is not —
//! several files must be replaced and the process can die anywhere.
//! This module keeps every write recoverable instead of pretending
//! the whole operation is atomic:
//!
//! * **Prepare** — every destination's disk bytes are compared to
//!   the exact snapshot the plan validated (`before`). An external
//!   edit between plan and persist is a rejection, never a silent
//!   overwrite. Nothing is written in this phase.
//! * **Journal** — `<root>/.ontixa-tx-<id>.journal` records the tx
//!   id, per-file fingerprints (`before`/`after`), stage and backup
//!   paths, and progress. It exists before the first staged byte.
//! * **Stage** — each candidate goes to `<file>.ontixa-tx-<id>.stage`
//!   next to its destination (same directory ⇒ same filesystem, so
//!   the later promote is a rename). Live files are never truncated.
//! * **Commit** — per file: `dest → .bak`, then `.stage → dest`,
//!   recording each swap in the journal. Both steps are single
//!   renames; a crash mid-commit leaves a coherent journal entry.
//! * **Finalize** — backups removed, journal deleted.
//!
//! The transaction itself is the state machine of
//! [`crate::transaction`]: it says which single file-system call is
//! due and takes what came of it. The caller performs the calls.
//!
//! Honest limits: this protects readers and writers that respect
//! the journal. It does not stop an external writer racing the
//! commit between the prepare-phase check and a swap — the window
//! is small but real, and a power loss can leave artifacts that a later
//! recovery must clean up.

use crate::paths::{join, FsPath, FsPathV};
use crate::text::{cat2, cat3, cat4, decimal};
use vstd::prelude::*;
use vstd::string::*;

verus! {

/// FNV-1a-64 over raw bytes. Content identity, never timestamps.
pub open spec fn fnv(bytes: Seq<u8>) -> u64
    decreases bytes.len(),
{
    if bytes.len() == 0 {
        0xcbf2_9ce4_8422_2325u64
    } else {
        (fnv(bytes.drop_last()) ^ (bytes.last() as u64)).wrapping_mul(0x0000_0100_0000_01b3u64)
    }
}

/// FNV-1a-64 over raw bytes — the digest of file contents in the
/// journal and in workspace fingerprints.
pub fn fp(bytes: &[u8]) -> (r: u64)
    ensures
        r == fnv(bytes@),
{
    let mut h: u64 = 0xcbf2_9ce4_8422_2325u64;
    let mut i: usize = 0;
    proof {
        assert(bytes@.take(0) =~= Seq::empty());
    }
    while i < bytes.len()
        invariant
            i <= bytes@.len(),
            h == fnv(bytes@.take(i as int)),
        decreases bytes@.len() - i,
    {
        proof {
            assert(bytes@.take(i + 1).drop_last() =~= bytes@.take(i as int));
            assert(bytes@.take(i + 1).last() == bytes@[i as int]);
        }
        let x: u64 = h ^ (bytes[i] as u64);
        h = x.wrapping_mul(0x0000_0100_0000_01b3u64);
        i += 1;
    }
    proof {
        assert(bytes@.take(bytes@.len() as int) =~= bytes@);
    }
    h
}

/// One file in a persistence transaction.
#[derive(Debug)]
pub struct TxFile {
    /// Destination path — must live under the workspace root.
    pub path: FsPath,
    /// The exact bytes the plan validated. The disk stale guard
    /// compares the live file against this, raw-byte for raw-byte.
    pub before: Vec<u8>,
    /// Candidate bytes to install.
    pub after: Vec<u8>,
}

/// Model of [`TxFile`].
#[verifier::ext_equal]
pub struct TxFileV {
    pub path: FsPathV,
    pub before: Seq<u8>,
    pub after: Seq<u8>,
}

impl TxFile {
    /// The model of this file.
    pub open spec fn view(&self) -> TxFileV {
        TxFileV { path: self.path@, before: self.before@, after: self.after@ }
    }
}

/// The models of a sequence of files.
pub open spec fn tx_files(v: Seq<TxFile>) -> Seq<TxFileV> {
    Seq::new(v.len(), |i: int| v[i]@)
}

/// The phase a [`PersistError`] came from — tells the caller how
/// much of the transaction had already happened.
#[derive(Clone, Copy, Debug, PartialEq, Eq, Structural)]
pub enum Phase {
    /// Stale-guard/prepare: nothing was written anywhere.
    Prepare,
    /// Journal or stage write failed: journal may exist, no live
    /// file was touched.
    Staging,
    /// A swap failed mid-commit; rollback was attempted.
    /// `rollback_errors` on the error says whether it worked.
    Commit,
    /// Rollback itself failed: journal and backups are preserved —
    /// recovery or manual repair is required.
    RecoveryRequired,
}

/// Why a persistence transaction did not complete.
#[derive(Debug)]
pub struct PersistError {
    /// Phase the transaction reached.
    pub phase: Phase,
    /// Human-readable cause.
    pub message: String,
    /// Journal path, once it exists — the recovery handle.
    pub journal: Option<FsPath>,
    /// Non-fatal rollback failures already attempted (empty ⇒ the
    /// rollback that ran fully succeeded).
    pub rollback_errors: Vec<String>,
}

/// Model of [`PersistError`].
#[verifier::ext_equal]
pub struct PersistErrorV {
    pub phase: Phase,
    pub message: Seq<char>,
    pub journal: Option<FsPathV>,
    pub rollback_errors: Seq<Seq<char>>,
}

/// A plain error of one phase.
pub open spec fn persist_error(phase: Phase, message: Seq<char>) -> PersistErrorV {
    PersistErrorV { phase, message, journal: None, rollback_errors: Seq::empty() }
}

/// The model of an optional path.
pub open spec fn opt_path(p: Option<FsPath>) -> Option<FsPathV> {
    match p {
        Some(x) => Some(x@),
        None => None,
    }
}

/// The text an error renders as.
pub open spec fn error_text(e: PersistErrorV) -> Seq<char> {
    let with_journal = match e.journal {
        Some(j) => e.message + " (journal: "@ + crate::paths::path_display(j) + ")"@,
        None => e.message,
    };
    if e.rollback_errors.len() > 0 {
        with_journal + "; rollback errors: "@ + crate::paths::joined(e.rollback_errors, "; "@)
    } else {
        with_journal
    }
}

impl PersistError {
    /// The model of this error.
    pub open spec fn view(&self) -> PersistErrorV {
        PersistErrorV {
            phase: self.phase,
            message: self.message@,
            journal: opt_path(self.journal),
            rollback_errors: crate::text::texts(self.rollback_errors@),
        }
    }

    /// A plain error of one phase.
    pub fn new(phase: Phase, message: String) -> (r: PersistError)
        ensures
            r@ == persist_error(phase, message@),
    {
        let r = PersistError { phase, message, journal: None, rollback_errors: Vec::new() };
        proof {
            assert(r@.rollback_errors =~= Seq::empty());
        }
        r
    }

    /// The error as one line of text.
    pub fn to_text(&self) -> (r: String)
        ensures
            r@ == error_text(self@),
    {
        let mut s = self.message.clone();
        if let Some(j) = &self.journal {
            let d = j.display();
            s.append(" (journal: ");
            s.append(d.as_str());
            s.append(")");
        }
        if self.rollback_errors.len() > 0 {
            let d = join(&self.rollback_errors, "; ");
            s.append("; rollback errors: ");
            s.append(d.as_str());
        }
        s
    }
}

/// Injected failure sites — library-level only, never reachable
/// through CLI input. Used by the failure-injection suite.
#[derive(Clone, Copy, Debug, PartialEq, Eq, Structural)]
pub enum FailPoint {
    /// Journal creation fails.
    JournalWrite,
    /// `stage[i]` write fails before any byte lands.
    StageWrite(usize),
    /// `stage[i]` write succeeds but the sync fails (partial
    /// content may exist on disk).
    StageSync(usize),
    /// Journal state update to `staged` fails.
    JournalUpdate,
    /// `dest → bak` rename fails for file `i` mid-commit.
    Swap(usize),
    /// `stage → dest` rename fails for file `i` — `dest` is
    /// already its backup.
    Promote(usize),
    /// Simulates process death right after file `i` was staged —
    /// journal exists, staged bytes on disk, no live file touched.
    StageDie(usize),
    /// Simulates process death after file `i` swapped: stops
    /// without rollback, leaving journal + staged files + backups
    /// exactly as a kill would.
    Die(usize),
}

/// The name of an injected failure.
pub open spec fn fail_text(p: FailPoint) -> Seq<char> {
    match p {
        FailPoint::JournalWrite => "JournalWrite"@,
        FailPoint::StageWrite(i) => "StageWrite("@ + crate::text::dec(i as nat) + ")"@,
        FailPoint::StageSync(i) => "StageSync("@ + crate::text::dec(i as nat) + ")"@,
        FailPoint::JournalUpdate => "JournalUpdate"@,
        FailPoint::Swap(i) => "Swap("@ + crate::text::dec(i as nat) + ")"@,
        FailPoint::Promote(i) => "Promote("@ + crate::text::dec(i as nat) + ")"@,
        FailPoint::StageDie(i) => "StageDie("@ + crate::text::dec(i as nat) + ")"@,
        FailPoint::Die(i) => "Die("@ + crate::text::dec(i as nat) + ")"@,
    }
}

/// The message of an injected failure.
pub open spec fn injected(p: FailPoint) -> Seq<char> {
    "injected failure at "@ + fail_text(p)
}

/// The failure a run injects, if any.
#[derive(Clone, Copy, Debug, PartialEq, Eq, Structural)]
pub struct Hooks {
    /// The injected failure site.
    pub fail: Option<FailPoint>,
}

/// The decimal form of an index.
fn index_text(i: usize) -> (r: String)
    ensures
        r@ == crate::text::dec(i as nat),
{
    decimal(i as u64)
}

impl Hooks {
    /// Fails at the injected site, passes anywhere else.
    pub fn check(&self, p: FailPoint) -> (r: Result<(), String>)
        ensures
            self.fail == Some(p) ==> (r matches Err(m) && m@ == injected(p)),
            self.fail != Some(p) ==> r is Ok,
    {
        match self.fail {
            Some(f) => if f == p {
                let name = match p {
                    FailPoint::JournalWrite => "JournalWrite".to_owned(),
                    FailPoint::StageWrite(i) => cat3("StageWrite(", index_text(i).as_str(), ")"),
                    FailPoint::StageSync(i) => cat3("StageSync(", index_text(i).as_str(), ")"),
                    FailPoint::JournalUpdate => "JournalUpdate".to_owned(),
                    FailPoint::Swap(i) => cat3("Swap(", index_text(i).as_str(), ")"),
                    FailPoint::Promote(i) => cat3("Promote(", index_text(i).as_str(), ")"),
                    FailPoint::StageDie(i) => cat3("StageDie(", index_text(i).as_str(), ")"),
                    FailPoint::Die(i) => cat3("Die(", index_text(i).as_str(), ")"),
                };
                Err(cat2("injected failure at ", name.as_str()))
            } else {
                Ok(())
            },
            None => Ok(()),
        }
    }
}

/// The id of the `n`-th transaction of process `pid`.
pub open spec fn tx_id_of(pid: nat, n: nat) -> Seq<char> {
    "ontixa-tx-"@ + crate::text::dec(pid) + "-"@ + crate::text::dec(n)
}

/// The id of the `n`-th transaction of process `pid`.
pub fn tx_id(pid: u32, n: u64) -> (r: String)
    ensures
        r@ == tx_id_of(pid as nat, n as nat),
{
    cat4("ontixa-tx-", decimal(pid as u64).as_str(), "-", decimal(n).as_str())
}

/// How far a journaled transaction got.
#[derive(Clone, Copy, Debug, PartialEq, Eq, Structural)]
pub enum JournalState {
    /// The journal exists, nothing is staged.
    Prepared,
    /// Every candidate is staged.
    Staged,
    /// Destinations are being swapped.
    Swapping,
    /// Every destination holds its candidate.
    Done,
}

/// The text of a journal state.
pub open spec fn journal_state_text(s: JournalState) -> Seq<char> {
    match s {
        JournalState::Prepared => "prepared"@,
        JournalState::Staged => "staged"@,
        JournalState::Swapping => "swapping"@,
        JournalState::Done => "done"@,
    }
}

impl JournalState {
    /// The text written to the journal.
    pub fn as_str(self) -> (r: &'static str)
        ensures
            r@ == journal_state_text(self),
    {
        match self {
            JournalState::Prepared => "prepared",
            JournalState::Staged => "staged",
            JournalState::Swapping => "swapping",
            JournalState::Done => "done",
        }
    }
}

/// One file of a journal.
#[derive(Debug)]
pub struct JournalFile {
    /// Destination.
    pub path: FsPath,
    /// Where the candidate is staged.
    pub stage: FsPath,
    /// Where the destination is backed up.
    pub bak: FsPath,
    /// Digest of the validated bytes.
    pub before_fp: u64,
    /// Digest of the candidate bytes.
    pub after_fp: u64,
    /// `dest → bak` + `stage → dest` both completed.
    pub swapped: bool,
}

/// Model of [`JournalFile`].
#[verifier::ext_equal]
pub struct JournalFileV {
    pub path: FsPathV,
    pub stage: FsPathV,
    pub bak: FsPathV,
    pub before_fp: u64,
    pub after_fp: u64,
    pub swapped: bool,
}

impl JournalFile {
    /// The model of this entry.
    pub open spec fn view(&self) -> JournalFileV {
        JournalFileV {
            path: self.path@,
            stage: self.stage@,
            bak: self.bak@,
            before_fp: self.before_fp,
            after_fp: self.after_fp,
            swapped: self.swapped,
        }
    }
}

/// The journal of one transaction — written under the workspace root
/// so a later process can find pending transactions.
#[derive(Debug)]
pub struct Journal {
    /// Transaction id (`ontixa-tx-<pid>-<n>`).
    pub tx: String,
    /// Progress of the transaction.
    pub state: JournalState,
    /// The files, in transaction order.
    pub files: Vec<JournalFile>,
}

/// Model of [`Journal`].
#[verifier::ext_equal]
pub struct JournalV {
    pub tx: Seq<char>,
    pub state: JournalState,
    pub files: Seq<JournalFileV>,
}

/// The models of a sequence of journal entries.
pub open spec fn journal_files(v: Seq<JournalFile>) -> Seq<JournalFileV> {
    Seq::new(v.len(), |i: int| v[i]@)
}

impl Journal {
    /// The model of this journal.
    pub open spec fn view(&self) -> JournalV {
        JournalV { tx: self.tx@, state: self.state, files: journal_files(self.files@) }
    }
}

/// The base name stage and backup names are built on.
pub open spec fn base_name(p: FsPathV) -> Seq<char> {
    match crate::paths::final_name(p) {
        Some(n) => n,
        None => "file"@,
    }
}

/// The sibling of `p` for transaction `tx` with the given suffix.
pub open spec fn sibling_of(p: FsPathV, tx: Seq<char>, suffix: Seq<char>) -> FsPathV {
    crate::paths::renamed(p, base_name(p) + "."@ + tx + suffix)
}

/// The journal entry of a file before anything happened to it.
pub open spec fn entry_of(f: TxFileV, tx: Seq<char>) -> JournalFileV {
    JournalFileV {
        path: f.path,
        stage: sibling_of(f.path, tx, ".stage"@),
        bak: sibling_of(f.path, tx, ".bak"@),
        before_fp: fnv(f.before),
        after_fp: fnv(f.after),
        swapped: false,
    }
}

/// The sibling of `p` for transaction `tx` with the given suffix.
fn sibling(p: &FsPath, tx: &str, suffix: &str) -> (r: FsPath)
    ensures
        r@ == sibling_of(p@, tx@, suffix@),
{
    let base = match p.file_name() {
        Some(n) => n,
        None => "file",
    };
    let name = cat4(base, ".", tx, suffix);
    p.with_file_name(name.as_str())
}

/// The journal of a transaction before anything was staged.
pub open spec fn journal_of(files: Seq<TxFileV>, tx: Seq<char>) -> JournalV {
    JournalV {
        tx,
        state: JournalState::Prepared,
        files: Seq::new(files.len(), |i: int| entry_of(files[i], tx)),
    }
}

/// The journal of a transaction before anything was staged.
pub(crate) fn new_journal(files: &Vec<TxFile>, tx: String) -> (r: Journal)
    ensures
        r@ == journal_of(tx_files(files@), tx@),
{
    let mut out: Vec<JournalFile> = Vec::new();
    let mut i: usize = 0;
    while i < files.len()
        invariant
            i <= files@.len(),
            out@.len() == i,
            forall|j: int| 0 <= j < i ==> (#[trigger] out@[j])@ == entry_of(files@[j]@, tx@),
        decreases files@.len() - i,
    {
        let f = &files[i];
        out.push(
            JournalFile {
                path: f.path.copy(),
                stage: sibling(&f.path, tx.as_str(), ".stage"),
                bak: sibling(&f.path, tx.as_str(), ".bak"),
                before_fp: fp(f.before.as_slice()),
                after_fp: fp(f.after.as_slice()),
                swapped: false,
            },
        );
        i += 1;
    }
    let r = Journal { tx, state: JournalState::Prepared, files: out };
    proof {
        assert(r@.files =~= journal_of(tx_files(files@), tx@).files);
    }
    r
}

} // verus!
