//! Transactions and recovery over a disk in memory: the stale guard,
//! staging, journaling, the commit swap, rollback, and crash recovery,
//! with failures injected at every phase.

use ontixa::commit::persist_sources;
use ontixa::paths::{pending_journals, tx_root, FsPath};
use ontixa::persist::{
    FailPoint, Journal, JournalFile, JournalState, PersistError, Phase, TxFile,
};
use ontixa::commands::Answer;
use ontixa::json::Json;
use ontixa::recovery::{recover_all, recover_one, RecAction, RecRun, RecoveryOutcome};
use ontixa::routing;
use ontixa::source_file::SourceFile;
use ontixa::transaction::{persist_tx, persist_tx_hooks, Action, Event, FileKind, TxRun};

const DEP: &str = "fn double(x: i32) -> i32 { return x * 2; }\n";

const MAIN: &str = "use dep;\n\
                    fn main() -> i32 { return dep::double(21); }\n";

// ---------- a disk ----------

enum Node {
    File(Vec<u8>),
    Journal(Journal),
    Link,
    Dir,
}

#[derive(Default)]
struct Disk {
    nodes: Vec<(String, Node)>,
}

fn path(text: &str) -> FsPath {
    FsPath {
        absolute: text.starts_with('/'),
        parts: text
            .split('/')
            .filter(|p| !p.is_empty())
            .map(|p| p.to_string())
            .collect(),
    }
}

fn copy_journal(j: &Journal) -> Journal {
    Journal {
        tx: j.tx.clone(),
        state: j.state,
        files: j
            .files
            .iter()
            .map(|f| JournalFile {
                path: f.path.copy(),
                stage: f.stage.copy(),
                bak: f.bak.copy(),
                before_fp: f.before_fp,
                after_fp: f.after_fp,
                swapped: f.swapped,
            })
            .collect(),
    }
}

impl Disk {
    fn find(&self, p: &FsPath) -> Option<usize> {
        let d = p.display();
        self.nodes.iter().position(|n| n.0 == d)
    }

    fn put(&mut self, p: &FsPath, node: Node) {
        self.remove(p);
        self.nodes.push((p.display(), node));
    }

    fn remove(&mut self, p: &FsPath) -> bool {
        match self.find(p) {
            Some(i) => {
                self.nodes.remove(i);
                true
            }
            None => false,
        }
    }

    fn write(&mut self, p: &FsPath, text: &str) {
        self.put(p, Node::File(text.as_bytes().to_vec()));
    }

    fn bytes(&self, p: &FsPath) -> Vec<u8> {
        match self.find(p).map(|i| &self.nodes[i].1) {
            Some(Node::File(b)) => b.clone(),
            _ => panic!("no file {}", p.display()),
        }
    }

    fn holds(&self, p: &FsPath) -> bool {
        self.find(p).is_some()
    }

    fn rename(&mut self, from: &FsPath, to: &FsPath) -> Event {
        match self.find(from) {
            Some(i) => {
                let node = self.nodes.remove(i).1;
                self.put(to, node);
                Event::Done
            }
            None => missing(),
        }
    }

    fn unlink(&mut self, p: &FsPath) -> Event {
        if self.remove(p) {
            Event::Done
        } else {
            missing()
        }
    }

    fn read(&self, p: &FsPath) -> Event {
        match self.find(p).map(|i| &self.nodes[i].1) {
            Some(Node::File(b)) => Event::Bytes(b.clone()),
            _ => missing(),
        }
    }

    fn entries(&self, dir: &FsPath) -> Vec<FsPath> {
        self.nodes
            .iter()
            .map(|n| path(&n.0))
            .filter(|p| {
                p.parts.len() == dir.parts.len() + 1 && p.parts[..dir.parts.len()] == dir.parts[..]
            })
            .collect()
    }

    fn perform(&mut self, run: &TxRun, a: Action) -> Event {
        let at = |i: usize| &run.journal().files[i];
        match a {
            Action::ListJournals => Event::Found(pending_journals(&self.entries(run.root()))),
            Action::Resolve(i) => {
                let p = &run.files()[i].path;
                if self.holds(p) {
                    Event::Located { root: run.root().copy(), path: p.copy() }
                } else {
                    missing()
                }
            }
            Action::Stat(i) => match self.find(&run.files()[i].path).map(|n| &self.nodes[n].1) {
                Some(Node::File(_)) | Some(Node::Journal(_)) => Event::Kind(FileKind::Regular),
                Some(Node::Link) => Event::Kind(FileKind::Symlink),
                Some(Node::Dir) => Event::Kind(FileKind::Other),
                None => missing(),
            },
            Action::ReadDest(i) => self.read(&run.files()[i].path),
            Action::WriteJournal => {
                let j = copy_journal(run.journal());
                self.put(run.journal_file(), Node::Journal(j));
                Event::Done
            }
            Action::WriteStage(i) => {
                let b = run.files()[i].after.clone();
                self.put(&at(i).stage, Node::File(b));
                Event::Done
            }
            Action::SyncStage(_) => Event::Done,
            Action::RemoveStage(i) => self.unlink(&at(i).stage),
            Action::RemoveJournal => self.unlink(run.journal_file()),
            Action::DestToBak(i) => self.rename(&at(i).path, &at(i).bak),
            Action::StageToDest(i) => self.rename(&at(i).stage, &at(i).path),
            Action::BakToDest(i) => self.rename(&at(i).bak, &at(i).path),
            Action::TestBak(i) => Event::Exists(self.holds(&at(i).bak)),
            Action::RemoveBak(i) => self.unlink(&at(i).bak),
            Action::Stop => unreachable!(),
        }
    }

    fn drive(&mut self, run: TxRun) -> Result<(), PersistError> {
        let mut run = run;
        loop {
            let a = run.action();
            if a == Action::Stop {
                return run.into_outcome();
            }
            let e = self.perform(&run, a);
            run.advance(e);
        }
    }

    fn persist(&mut self, root: &FsPath, files: Vec<TxFile>) -> Result<(), PersistError> {
        self.drive(persist_tx(root, files, "ontixa-tx-1-0".to_string()))
    }

    fn persist_failing(
        &mut self,
        root: &FsPath,
        files: Vec<TxFile>,
        fail: FailPoint,
    ) -> Result<(), PersistError> {
        self.drive(persist_tx_hooks(root, files, Some(fail), "ontixa-tx-1-0".to_string()))
    }

    fn perform_recovery(&mut self, run: &RecRun, jp: &FsPath, a: RecAction) -> Event {
        let at = |i: usize| &run.journal().files[i];
        match a {
            RecAction::ReadDest(i) => self.read(&at(i).path),
            RecAction::ReadStage(i) => self.read(&at(i).stage),
            RecAction::ReadBak(i) => self.read(&at(i).bak),
            RecAction::DestToBak(i) => self.rename(&at(i).path, &at(i).bak),
            RecAction::StageToDest(i) => self.rename(&at(i).stage, &at(i).path),
            RecAction::BakToDest(i) => self.rename(&at(i).bak, &at(i).path),
            RecAction::WriteJournal => {
                let j = copy_journal(run.journal());
                self.put(jp, Node::Journal(j));
                Event::Done
            }
            RecAction::RemoveStage(i) => self.unlink(&at(i).stage),
            RecAction::RemoveBak(i) => self.unlink(&at(i).bak),
            RecAction::RemoveJournal => self.unlink(jp),
            RecAction::Stop => unreachable!(),
        }
    }

    fn read_journal(&self, jp: &FsPath) -> Option<Journal> {
        match self.find(jp).map(|i| &self.nodes[i].1) {
            Some(Node::Journal(j)) => Some(copy_journal(j)),
            _ => None,
        }
    }

    fn recover(&mut self, root: &FsPath) -> Vec<RecoveryOutcome> {
        let mut out = Vec::new();
        for jp in pending_journals(&self.entries(root)) {
            let mut run = recover_one(&jp, self.read_journal(&jp));
            loop {
                let a = run.action();
                if a == RecAction::Stop {
                    break;
                }
                let e = self.perform_recovery(&run, &jp, a);
                run.advance(e);
            }
            out.push(run.into_outcome());
        }
        recover_all(out)
    }

    /// Makes the calls of a recovery up to the first `a`, and no more.
    fn recover_until(&mut self, root: &FsPath, last: RecAction) {
        let jp = pending_journals(&self.entries(root)).remove(0);
        let mut run = recover_one(&jp, self.read_journal(&jp));
        loop {
            let a = run.action();
            if a == last {
                return;
            }
            let e = self.perform_recovery(&run, &jp, a);
            run.advance(e);
        }
    }

    /// Makes the calls of a transaction up to the first `last`, and no
    /// more: the process is killed there.
    fn persist_until(
        &mut self,
        root: &FsPath,
        files: Vec<TxFile>,
        fail: Option<FailPoint>,
        last: Action,
    ) {
        let mut run = persist_tx_hooks(root, files, fail, "ontixa-tx-1-0".to_string());
        loop {
            let a = run.action();
            if a == last {
                return;
            }
            let e = self.perform(&run, a);
            run.advance(e);
        }
    }

    /// No transaction artifacts may survive a finished run.
    fn assert_clean(&self) {
        let left: Vec<&String> = self
            .nodes
            .iter()
            .map(|n| &n.0)
            .filter(|n| n.contains("ontixa-tx"))
            .collect();
        assert!(left.is_empty(), "leftover artifacts: {left:?}");
    }
}

fn missing() -> Event {
    Event::Failed { message: "no such file".to_string(), missing: true }
}

/// A two-file transaction over `/ws`: a.ixa and b.ixa.
fn tx(disk: &mut Disk) -> (FsPath, FsPath, Vec<TxFile>) {
    let a = path("/ws/a.ixa");
    let b = path("/ws/b.ixa");
    disk.write(&a, "fn a() -> i32 { return 1; }\n");
    disk.write(&b, "fn b() -> i32 { return 2; }\n");
    let files = vec![
        TxFile {
            path: a.copy(),
            before: b"fn a() -> i32 { return 1; }\n".to_vec(),
            after: b"fn aa() -> i32 { return 1; }\n".to_vec(),
        },
        TxFile {
            path: b.copy(),
            before: b"fn b() -> i32 { return 2; }\n".to_vec(),
            after: b"fn bb() -> i32 { return 2; }\n".to_vec(),
        },
    ];
    (a, b, files)
}

fn ws() -> FsPath {
    path("/ws")
}

/// The workspace of `main` and `dep` on disk, and the texts of a rename
/// of `dep::double` to `twice`.
fn renamed(disk: &mut Disk) -> (FsPath, FsPath, Vec<SourceFile>, Vec<(usize, String)>) {
    let main_p = path("/ws/main.ixa");
    let dep_p = path("/ws/dep.ixa");
    disk.write(&main_p, MAIN);
    disk.write(&dep_p, DEP);
    let sfs = vec![
        SourceFile {
            name: "main".to_string(),
            path: Some(main_p.copy()),
            text: MAIN.to_string(),
        },
        SourceFile {
            name: "dep".to_string(),
            path: Some(dep_p.copy()),
            text: DEP.to_string(),
        },
    ];
    let news = vec![
        (0, MAIN.replace("double", "twice")),
        (1, DEP.replace("double", "twice")),
    ];
    (main_p, dep_p, sfs, news)
}

// ---------- texts of a plan ----------

#[test]
fn stale_disk_is_rejected_not_overwritten() {
    let mut disk = Disk::default();
    let (main_p, dep_p, sfs, news) = renamed(&mut disk);
    // An external writer edits dep.ixa between plan and persist.
    disk.write(&dep_p, "fn double(x: i32) -> i32 { return x * 2; } // touched\n");
    let run = persist_sources(&news, &sfs, "ontixa-tx-1-0".to_string()).expect("files to write");
    let err = disk.drive(run).expect_err("stale disk must reject");
    assert!(err.message.contains("changed on disk"), "error: {}", err.message);
    // Nothing was overwritten: the external edit and main both
    // stand exactly as they were — and no artifacts leaked.
    assert_eq!(
        disk.bytes(&dep_p),
        b"fn double(x: i32) -> i32 { return x * 2; } // touched\n"
    );
    assert_eq!(disk.bytes(&main_p), MAIN.as_bytes());
    disk.assert_clean();
}

#[test]
fn happy_path_writes_every_file() {
    let mut disk = Disk::default();
    let (main_p, dep_p, sfs, news) = renamed(&mut disk);
    let run = persist_sources(&news, &sfs, "ontixa-tx-1-0".to_string()).expect("files to write");
    disk.drive(run).expect("persist");
    let text = |p: &FsPath| String::from_utf8(disk.bytes(p)).unwrap();
    assert!(text(&dep_p).contains("fn twice"));
    assert!(text(&main_p).contains("dep::twice"));
    // Journal, stages and backups are all gone.
    disk.assert_clean();
}

#[test]
fn files_without_a_path_are_not_written() {
    let sfs = vec![SourceFile { name: "x".to_string(), path: None, text: "a".to_string() }];
    let news = vec![(0, "b".to_string())];
    assert!(persist_sources(&news, &sfs, "ontixa-tx-1-0".to_string()).is_none());
}

// ---------- prepare-phase rejections ----------

#[test]
fn external_edit_between_plan_and_persist_rejected() {
    let mut disk = Disk::default();
    let (a, b, files) = tx(&mut disk);
    // Writer races in after validation but before the transaction.
    disk.write(&b, "fn b() -> i32 { return 2; } // racy\n");
    let err = disk.persist(&ws(), files).unwrap_err();
    assert_eq!(err.phase, Phase::Prepare);
    assert!(err.message.contains("changed on disk"));
    // Both files exactly as the external writer left them.
    assert_eq!(disk.bytes(&b), b"fn b() -> i32 { return 2; } // racy\n");
    assert_eq!(disk.bytes(&a), b"fn a() -> i32 { return 1; }\n");
    disk.assert_clean();
}

#[test]
fn missing_destination_rejected() {
    let mut disk = Disk::default();
    let (a, _b, files) = tx(&mut disk);
    disk.remove(&a);
    let err = disk.persist(&ws(), files).unwrap_err();
    assert_eq!(err.phase, Phase::Prepare);
    disk.assert_clean();
}

#[test]
fn directory_in_place_of_file_rejected() {
    let mut disk = Disk::default();
    let (a, _b, files) = tx(&mut disk);
    disk.put(&a, Node::Dir);
    let err = disk.persist(&ws(), files).unwrap_err();
    assert_eq!(err.phase, Phase::Prepare);
    assert!(err.message.contains("not a regular file"), "{}", err.message);
}

#[test]
fn path_outside_root_rejected() {
    let mut disk = Disk::default();
    let outside = path("/outside/x.ixa");
    disk.write(&outside, "x");
    let files = vec![TxFile {
        path: outside.copy(),
        before: b"x".to_vec(),
        after: b"y".to_vec(),
    }];
    let err = disk.persist(&ws(), files).unwrap_err();
    assert_eq!(err.phase, Phase::Prepare);
    assert!(err.message.contains("outside the workspace root"));
    assert_eq!(disk.bytes(&outside), b"x");
}

#[test]
fn symlink_destination_rejected() {
    let mut disk = Disk::default();
    let real = path("/ws/real.ixa");
    let link = path("/ws/link.ixa");
    disk.write(&real, "fn r() -> i32 { return 1; }\n");
    disk.put(&link, Node::Link);
    let files = vec![TxFile {
        path: link,
        before: b"fn r() -> i32 { return 1; }\n".to_vec(),
        after: b"fn rr() -> i32 { return 1; }\n".to_vec(),
    }];
    let err = disk.persist(&ws(), files).unwrap_err();
    assert_eq!(err.phase, Phase::Prepare);
    assert!(err.message.contains("symlink"), "{}", err.message);
    assert_eq!(disk.bytes(&real), b"fn r() -> i32 { return 1; }\n");
}

// ---------- staging-phase failures ----------

#[test]
fn journal_write_failure_touches_nothing() {
    let mut disk = Disk::default();
    let (a, b, files) = tx(&mut disk);
    let err = disk.persist_failing(&ws(), files, FailPoint::JournalWrite).unwrap_err();
    assert_eq!(err.phase, Phase::Staging);
    assert_eq!(disk.bytes(&a), b"fn a() -> i32 { return 1; }\n");
    assert_eq!(disk.bytes(&b), b"fn b() -> i32 { return 2; }\n");
    disk.assert_clean();
}

#[test]
fn stage_write_failure_leaves_no_artifacts() {
    let mut disk = Disk::default();
    let (a, b, files) = tx(&mut disk);
    // File 1's stage fails: file 0's stage must be cleaned, the
    // journal removed, live bytes untouched.
    let err = disk.persist_failing(&ws(), files, FailPoint::StageWrite(1)).unwrap_err();
    assert_eq!(err.phase, Phase::Staging);
    assert_eq!(disk.bytes(&a), b"fn a() -> i32 { return 1; }\n");
    assert_eq!(disk.bytes(&b), b"fn b() -> i32 { return 2; }\n");
    disk.assert_clean();
}

#[test]
fn stage_sync_failure_leaves_no_artifacts() {
    let mut disk = Disk::default();
    let (a, _b, files) = tx(&mut disk);
    let err = disk.persist_failing(&ws(), files, FailPoint::StageSync(0)).unwrap_err();
    assert_eq!(err.phase, Phase::Staging);
    assert_eq!(disk.bytes(&a), b"fn a() -> i32 { return 1; }\n");
    disk.assert_clean();
}

#[test]
fn journal_update_failure_leaves_no_artifacts() {
    let mut disk = Disk::default();
    let (a, _b, files) = tx(&mut disk);
    let err = disk.persist_failing(&ws(), files, FailPoint::JournalUpdate).unwrap_err();
    assert_eq!(err.phase, Phase::Staging);
    assert_eq!(disk.bytes(&a), b"fn a() -> i32 { return 1; }\n");
    disk.assert_clean();
}

// ---------- commit-phase failures ----------

#[test]
fn swap_failure_rolls_back_swapped_files() {
    let mut disk = Disk::default();
    let (a, b, files) = tx(&mut disk);
    // File 0 swaps fine, file 1's dest→bak rename fails → file 0
    // must be restored to its exact original bytes.
    let err = disk.persist_failing(&ws(), files, FailPoint::Swap(1)).unwrap_err();
    assert_eq!(err.phase, Phase::Commit);
    assert!(err.rollback_errors.is_empty(), "{:?}", err.rollback_errors);
    assert_eq!(disk.bytes(&a), b"fn a() -> i32 { return 1; }\n");
    assert_eq!(disk.bytes(&b), b"fn b() -> i32 { return 2; }\n");
    disk.assert_clean();
}

#[test]
fn promote_failure_restores_the_current_file() {
    let mut disk = Disk::default();
    let (a, b, files) = tx(&mut disk);
    // File 0: dest→bak succeeded, stage→dest failed — the file
    // sitting only as a .bak must still come back.
    let err = disk.persist_failing(&ws(), files, FailPoint::Promote(0)).unwrap_err();
    assert_eq!(err.phase, Phase::Commit);
    assert_eq!(disk.bytes(&a), b"fn a() -> i32 { return 1; }\n");
    assert_eq!(disk.bytes(&b), b"fn b() -> i32 { return 2; }\n");
    disk.assert_clean();
}

// ---------- crash recovery ----------

/// Dying after staging: journal and stages survive, no live file
/// moved. Recovery rolls back cleanly.
#[test]
fn staged_but_never_swapped_recovers_as_rollback() {
    let mut disk = Disk::default();
    let (a, b, files) = tx(&mut disk);
    let err = disk.persist_failing(&ws(), files, FailPoint::StageDie(1)).unwrap_err();
    assert_eq!(err.phase, Phase::RecoveryRequired);
    let journal = err.journal.expect("journal survives");
    assert!(disk.holds(&journal));

    // Live files untouched; artifacts present.
    assert_eq!(disk.bytes(&a), b"fn a() -> i32 { return 1; }\n");
    assert_eq!(disk.bytes(&b), b"fn b() -> i32 { return 2; }\n");

    let out = disk.recover(&ws());
    assert_eq!(out.len(), 1);
    match &out[0] {
        RecoveryOutcome::RolledBack { files, .. } => assert_eq!(*files, 2),
        other => panic!("expected RolledBack, got {other:?}"),
    }
    assert_eq!(disk.bytes(&a), b"fn a() -> i32 { return 1; }\n");
    disk.assert_clean();
}

/// A transaction that died mid-commit is recovered forward — both files
/// hold `after`.
#[test]
fn killed_mid_commit_recovers_forward() {
    let mut disk = Disk::default();
    let (a, b, files) = tx(&mut disk);
    assert!(disk.persist_failing(&ws(), files, FailPoint::Die(0)).is_err());

    // After the kill: file 0 already swapped (after), file 1 still
    // before with its stage and journal on disk.
    assert_eq!(disk.bytes(&a), b"fn aa() -> i32 { return 1; }\n");
    assert_eq!(disk.bytes(&b), b"fn b() -> i32 { return 2; }\n");

    let out = disk.recover(&ws());
    match out.as_slice() {
        [RecoveryOutcome::Committed { files, .. }] => assert_eq!(*files, 2),
        other => panic!("expected Committed, got {other:?}"),
    }
    assert_eq!(disk.bytes(&a), b"fn aa() -> i32 { return 1; }\n");
    assert_eq!(disk.bytes(&b), b"fn bb() -> i32 { return 2; }\n");
    disk.assert_clean();

    // Recovery is idempotent — a second run finds nothing.
    assert_eq!(disk.recover(&ws()), vec![RecoveryOutcome::Clean]);
}

/// Recovery must never guess: a file whose bytes match neither
/// `before` nor `after` is a conflict — journal and backups stay.
#[test]
fn recovery_conflicting_bytes_preserved() {
    let mut disk = Disk::default();
    let (a, b, files) = tx(&mut disk);
    let err = disk.persist_failing(&ws(), files, FailPoint::Die(0)).unwrap_err();
    let journal = err.journal.unwrap();
    assert!(disk.holds(&journal));

    // Someone else edits the still-pending file.
    disk.write(&b, "fn b() -> i32 { return 2; } // foreign\n");
    let out = disk.recover(&ws());
    match out.as_slice() {
        [RecoveryOutcome::Conflict { path, .. }] => assert_eq!(*path, b),
        other => panic!("expected Conflict, got {other:?}"),
    }
    // Evidence stays: journal, the foreign bytes, and the backup
    // of the swapped file.
    assert!(disk.holds(&journal));
    assert_eq!(disk.bytes(&b), b"fn b() -> i32 { return 2; } // foreign\n");
    assert_eq!(disk.bytes(&a), b"fn aa() -> i32 { return 1; }\n");
}

#[test]
fn unreadable_journal_is_a_conflict() {
    let mut disk = Disk::default();
    let jp = path("/ws/.ontixa-tx-9-9.journal");
    disk.write(&jp, "not a journal");
    let out = disk.recover(&ws());
    match out.as_slice() {
        [RecoveryOutcome::Conflict { path, .. }] => assert_eq!(*path, jp),
        other => panic!("expected Conflict, got {other:?}"),
    }
    assert!(disk.holds(&jp));
}

#[test]
fn pending_journal_blocks_a_new_transaction() {
    let mut disk = Disk::default();
    let (a, _b, files) = tx(&mut disk);
    disk.put(
        &path("/ws/.ontixa-tx-9-9.journal"),
        Node::Journal(Journal {
            tx: "ontixa-tx-9-9".to_string(),
            state: JournalState::Staged,
            files: Vec::new(),
        }),
    );
    let err = disk.persist(&ws(), files).unwrap_err();
    assert_eq!(err.phase, Phase::Prepare);
    assert_eq!(disk.bytes(&a), b"fn a() -> i32 { return 1; }\n");
}

// ---------- content fidelity ----------

#[test]
fn unicode_and_spaced_paths_roundtrip() {
    let mut disk = Disk::default();
    let p = path("/ws/thư mục có dấu/tệp nguồn.ixa");
    disk.write(&p, "fn café() -> i32 { return 1; }\n");
    let files = vec![TxFile {
        path: p.copy(),
        before: "fn café() -> i32 { return 1; }\n".as_bytes().to_vec(),
        after: "fn thé() -> i32 { return 1; }\n".as_bytes().to_vec(),
    }];
    disk.persist(&ws(), files).expect("persist");
    assert_eq!(disk.bytes(&p), "fn thé() -> i32 { return 1; }\n".as_bytes());
    disk.assert_clean();
}

#[test]
fn crlf_lf_and_multibyte_preserved_exactly() {
    let mut disk = Disk::default();
    let p = path("/ws/mixed.ixa");
    let before = b"fn a() -> i32 {\r\n  return 1; // caf\xc3\xa9\n}\r\n".to_vec();
    let after = b"fn ab() -> i32 {\r\n  return 1; // caf\xc3\xa9\n}\r\n".to_vec();
    disk.put(&p, Node::File(before.clone()));
    let files = vec![TxFile { path: p.copy(), before: before.clone(), after: after.clone() }];
    disk.persist(&ws(), files).expect("persist");
    assert_eq!(disk.bytes(&p), after);
    disk.assert_clean();
}

#[test]
fn transaction_root_is_the_common_ancestor() {
    let root = tx_root(&vec![path("/ws/a/x.ixa"), path("/ws/b/c/y.ixa")]).unwrap();
    assert_eq!(root, path("/ws"));
    assert!(tx_root(&Vec::new()).is_none());
}

#[test]
fn recover_json_mixed_outcomes_fail_without_discarding_successful_results() {
    for (fail, expected) in [
        (FailPoint::StageDie(0), "rolled_back"),
        (FailPoint::Die(0), "committed"),
    ] {
        let before = "fn main() -> i32 { return 1; }\r\n";
        let after = "fn main() -> i32 { return 2; }\r\n";
        let mut disk = Disk::default();
        let (main, math) = (path("/ws/main.ixa"), path("/ws/math.ixa"));
        disk.write(&main, before);
        disk.write(&math, "// unchanged\n");
        let tx = vec![TxFile {
            path: main.copy(),
            before: before.as_bytes().to_vec(),
            after: after.as_bytes().to_vec(),
        }];
        let err = disk.persist_failing(&ws(), tx, fail).unwrap_err();
        let recoverable = err.journal.unwrap();
        let conflict = path("/ws/.ontixa-tx-corrupt.journal");
        let evidence = "{ invalid fixture journal\r\n";
        disk.write(&conflict, evidence);
        let outcomes = disk.recover(&ws());
        let Answer::Document(d, code) = routing::recover(&outcomes, true) else {
            panic!("a document")
        };
        assert_eq!(code, 1);
        assert_eq!(d.get("schema"), Some(&Json::Uint(1)));
        assert_eq!(d.get("success"), Some(&Json::Bool(false)));
        assert_eq!(d.get("error").unwrap().get_str("kind"), Some("conflict"));
        let Some(Json::Array(shown)) = d.get("result").unwrap().get("outcomes") else {
            panic!("outcomes")
        };
        assert_eq!(shown.len(), 2);
        assert!(shown.iter().any(|o| o.get_str("status") == Some(expected)));
        assert!(shown.iter().any(|o| o.get_str("status") == Some("conflict")));
        assert_eq!(disk.bytes(&conflict), evidence.as_bytes());
        let kept = if expected == "committed" { after } else { before };
        assert_eq!(disk.bytes(&main), kept.as_bytes());
        assert_eq!(disk.bytes(&math), b"// unchanged\n");
        assert!(!disk.holds(&recoverable), "a successful recovery removes its journal");
    }
}

/// A journal that is found again after its transaction was settled is
/// settled the same way.
#[test]
fn recovery_of_a_settled_journal_repeats_its_outcome() {
    for (fail, installed) in [(FailPoint::StageDie(1), false), (FailPoint::Die(1), true)] {
        let mut disk = Disk::default();
        let (a, b, files) = tx(&mut disk);
        let jp = disk.persist_failing(&ws(), files, fail).unwrap_err().journal.unwrap();
        let kept = match disk.find(&jp).map(|i| &disk.nodes[i].1) {
            Some(Node::Journal(j)) => copy_journal(j),
            _ => panic!("a journal"),
        };
        let first = disk.recover(&ws());
        let (bytes_a, bytes_b) = (disk.bytes(&a), disk.bytes(&b));
        disk.put(&jp, Node::Journal(kept));
        let second = disk.recover(&ws());
        assert_eq!(first, second);
        match second.as_slice() {
            [RecoveryOutcome::Committed { files: 2, .. }] => assert!(installed),
            [RecoveryOutcome::RolledBack { files: 2, .. }] => assert!(!installed),
            other => panic!("{other:?}"),
        }
        assert_eq!((disk.bytes(&a), disk.bytes(&b)), (bytes_a, bytes_b));
        assert_eq!(disk.recover(&ws()), [RecoveryOutcome::Clean]);
    }
}

/// A candidate that is gone is a conflict, and nothing moves for it:
/// the pending file before it stays as it was.
#[test]
fn recovery_with_a_missing_candidate_touches_nothing() {
    let mut disk = Disk::default();
    let names = ["/ws/a.ixa", "/ws/b.ixa", "/ws/c.ixa"];
    let files: Vec<TxFile> = names
        .iter()
        .map(|n| {
            disk.write(&path(n), "old");
            TxFile { path: path(n), before: b"old".to_vec(), after: b"new".to_vec() }
        })
        .collect();
    let jp = disk
        .persist_failing(&ws(), files, FailPoint::Die(0))
        .unwrap_err()
        .journal
        .unwrap();
    let stage = path("/ws/c.ixa.ontixa-tx-1-0.stage");
    assert!(disk.remove(&stage));
    match disk.recover(&ws()).as_slice() {
        [RecoveryOutcome::Conflict { path, .. }] => assert_eq!(*path, stage),
        other => panic!("expected Conflict, got {other:?}"),
    }
    assert_eq!(disk.bytes(&path("/ws/a.ixa")), b"new");
    assert_eq!(disk.bytes(&path("/ws/b.ixa")), b"old");
    assert_eq!(disk.bytes(&path("/ws/c.ixa")), b"old");
    assert!(disk.holds(&jp));
    assert!(disk.holds(&path("/ws/b.ixa.ontixa-tx-1-0.stage")));
}

/// Three files that a transaction takes from "old" to "new".
fn three(disk: &mut Disk) -> (Vec<FsPath>, Vec<TxFile>) {
    let names: Vec<FsPath> = ["/ws/a.ixa", "/ws/b.ixa", "/ws/c.ixa"].iter().map(|n| path(n)).collect();
    let files = names
        .iter()
        .map(|n| {
            disk.write(n, "old");
            TxFile { path: n.copy(), before: b"old".to_vec(), after: b"new".to_vec() }
        })
        .collect();
    (names, files)
}

fn assert_rolled_back(outcomes: &[RecoveryOutcome], n: usize) {
    match outcomes {
        [RecoveryOutcome::RolledBack { files, .. }] => assert_eq!(*files, n),
        other => panic!("expected RolledBack, got {other:?}"),
    }
}

fn assert_committed(outcomes: &[RecoveryOutcome], n: usize) {
    match outcomes {
        [RecoveryOutcome::Committed { files, .. }] => assert_eq!(*files, n),
        other => panic!("expected Committed, got {other:?}"),
    }
}

/// Killed between the two renames of the first swap: the file is only
/// in its backup, and goes back.
#[test]
fn killed_between_the_first_renames_rolls_back() {
    let mut disk = Disk::default();
    let (a, b, files) = tx(&mut disk);
    disk.persist_until(&ws(), files, None, Action::StageToDest(0));
    assert!(!disk.holds(&a));
    assert_rolled_back(&disk.recover(&ws()), 2);
    assert_eq!(disk.bytes(&a), b"fn a() -> i32 { return 1; }\n");
    assert_eq!(disk.bytes(&b), b"fn b() -> i32 { return 2; }\n");
    disk.assert_clean();
    assert!(matches!(disk.recover(&ws()).as_slice(), [RecoveryOutcome::Clean]));
}

/// Killed between the two renames of a later swap: the transaction is
/// finished.
#[test]
fn killed_between_later_renames_commits() {
    let mut disk = Disk::default();
    let (a, b, files) = tx(&mut disk);
    disk.persist_until(&ws(), files, None, Action::StageToDest(1));
    assert!(!disk.holds(&b));
    assert_committed(&disk.recover(&ws()), 2);
    assert_eq!(disk.bytes(&a), b"fn aa() -> i32 { return 1; }\n");
    assert_eq!(disk.bytes(&b), b"fn bb() -> i32 { return 2; }\n");
    disk.assert_clean();
    assert!(matches!(disk.recover(&ws()).as_slice(), [RecoveryOutcome::Clean]));
}

/// Killed before its rollback has taken anything back: the transaction
/// is finished.
#[test]
fn killed_before_the_first_restore_commits() {
    let mut disk = Disk::default();
    let (names, files) = three(&mut disk);
    disk.persist_until(&ws(), files, Some(FailPoint::Promote(2)), Action::BakToDest(0));
    assert_eq!(disk.bytes(&names[0]), b"new");
    assert_eq!(disk.bytes(&names[1]), b"new");
    assert!(!disk.holds(&names[2]));
    assert_committed(&disk.recover(&ws()), 3);
    for n in &names {
        assert_eq!(disk.bytes(n), b"new");
    }
    disk.assert_clean();
}

/// Killed between two restores: a candidate is gone and another is in
/// place, so nothing can be done, and nothing is.
#[test]
fn killed_between_two_restores_is_a_conflict() {
    let mut disk = Disk::default();
    let (names, files) = three(&mut disk);
    disk.persist_until(&ws(), files, Some(FailPoint::Swap(2)), Action::BakToDest(1));
    let stage = path("/ws/a.ixa.ontixa-tx-1-0.stage");
    match disk.recover(&ws()).as_slice() {
        [RecoveryOutcome::Conflict { path, .. }] => assert_eq!(*path, stage),
        other => panic!("expected Conflict, got {other:?}"),
    }
    assert_eq!(disk.bytes(&names[0]), b"old");
    assert_eq!(disk.bytes(&names[1]), b"new");
    assert_eq!(disk.bytes(&names[2]), b"old");
    assert!(disk.holds(&path("/ws/b.ixa.ontixa-tx-1-0.bak")));
}

/// Killed behind its last restore: nothing is swapped, so it is rolled
/// back.
#[test]
fn killed_behind_the_restores_rolls_back() {
    let mut disk = Disk::default();
    let (names, files) = three(&mut disk);
    disk.persist_until(&ws(), files, Some(FailPoint::Promote(2)), Action::RemoveStage(2));
    assert!(!disk.holds(&names[2]));
    assert_rolled_back(&disk.recover(&ws()), 3);
    for n in &names {
        assert_eq!(disk.bytes(n), b"old");
    }
    disk.assert_clean();
}

/// A destination that is gone and has no backup is a conflict.
#[test]
fn missing_destination_without_backup_is_a_conflict() {
    let mut disk = Disk::default();
    let (a, b, files) = tx(&mut disk);
    disk.persist_failing(&ws(), files, FailPoint::Die(0)).unwrap_err();
    assert!(disk.remove(&b));
    match disk.recover(&ws()).as_slice() {
        [RecoveryOutcome::Conflict { path, .. }] => assert_eq!(*path, b),
        other => panic!("expected Conflict, got {other:?}"),
    }
    assert_eq!(disk.bytes(&a), b"fn aa() -> i32 { return 1; }\n");
}

/// Recovery may be killed too: the next one comes to the same end.
#[test]
fn killed_recovery_is_recovered() {
    for last in [
        RecAction::StageToDest(1),
        RecAction::DestToBak(2),
        RecAction::RemoveStage(0),
        RecAction::RemoveJournal,
    ] {
        let mut disk = Disk::default();
        let (names, files) = three(&mut disk);
        disk.persist_failing(&ws(), files, FailPoint::Die(0)).unwrap_err();
        disk.recover_until(&ws(), last);
        assert_committed(&disk.recover(&ws()), 3);
        for n in &names {
            assert_eq!(disk.bytes(n), b"new");
        }
        disk.assert_clean();
    }
}
