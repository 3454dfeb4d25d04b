//! What a plan or a formatting run commits to disk.

use crate::paths::{fs_paths, tx_root, tx_root_of, FsPath, FsPathV};
use crate::persist::{tx_files, TxFile, TxFileV};
use crate::source_file::{source_files, SourceFile, SourceFileV};
use crate::splice::file_texts;
use crate::text::bytes_of;
use crate::transaction::{persist_tx, start_of, TxRun};
use vstd::prelude::*;
use vstd::string::*;

verus! {

/// The bytes of a text.
pub(crate) fn to_bytes(s: &str) -> (r: Vec<u8>)
    ensures
        r@ == bytes_of(s@),
{
    let b = s.as_bytes();
    let n: usize = b.len();
    let mut out: Vec<u8> = Vec::new();
    let mut i: usize = 0;
    while i < n
        invariant
            i <= n,
            n == b@.len(),
            out@ == b@.take(i as int),
        decreases n - i,
    {
        out.push(b[i]);
        i += 1;
        proof {
            assert(out@ =~= b@.take(i as int));
        }
    }
    proof {
        assert(b@.take(n as int) =~= b@);
    }
    out
}

/// The files a plan commits: those with a path, from the validated
/// snapshot to the new text. Files of in-memory sessions are skipped.
pub open spec fn committed(news: Seq<(usize, Seq<char>)>, files: Seq<SourceFileV>) -> Seq<TxFileV>
    decreases news.len(),
{
    if news.len() == 0 {
        Seq::empty()
    } else {
        let front = committed(news.drop_last(), files);
        let (f, text) = news.last();
        match files[f as int].path {
            Some(path) => front.push(
                TxFileV {
                    path,
                    before: bytes_of(files[f as int].text),
                    after: bytes_of(text),
                },
            ),
            None => front,
        }
    }
}

/// The paths of transaction files.
pub open spec fn tx_paths(v: Seq<TxFileV>) -> Seq<FsPathV> {
    Seq::new(v.len(), |i: int| v[i].path)
}

fn paths_of(v: &Vec<TxFile>) -> (r: Vec<FsPath>)
    ensures
        fs_paths(r@) == tx_paths(tx_files(v@)),
{
    let ghost all = tx_paths(tx_files(v@));
    let mut out: Vec<FsPath> = Vec::new();
    let mut i: usize = 0;
    proof {
        assert(fs_paths(out@) =~= all.take(0));
    }
    while i < v.len()
        invariant
            i <= v@.len(),
            all == tx_paths(tx_files(v@)),
            fs_paths(out@) == all.take(i as int),
        decreases v@.len() - i,
    {
        let p = v[i].path.copy();
        let ghost pv = p@;
        let ghost before = fs_paths(out@);
        out.push(p);
        i += 1;
        proof {
            assert(fs_paths(out@) =~= before.push(pv));
            assert(all.take(i as int) =~= all.take(i - 1).push(all[i - 1]));
        }
    }
    proof {
        assert(all.take(all.len() as int) =~= all);
    }
    out
}

fn commit_files(news: &Vec<(usize, String)>, files: &Vec<SourceFile>) -> (r: Vec<TxFile>)
    requires
        forall|i: int| 0 <= i < news@.len() ==> (#[trigger] news@[i]).0 < files@.len(),
    ensures
        tx_files(r@) == committed(file_texts(news@), source_files(files@)),
{
    let ghost all = file_texts(news@);
    let ghost fs = source_files(files@);
    let mut out: Vec<TxFile> = Vec::new();
    let mut i: usize = 0;
    proof {
        assert(all.take(0) =~= Seq::empty());
        assert(tx_files(out@) =~= Seq::empty());
    }
    while i < news.len()
        invariant
            i <= news@.len(),
            all == file_texts(news@),
            fs == source_files(files@),
            forall|j: int| 0 <= j < news@.len() ==> (#[trigger] news@[j]).0 < files@.len(),
            tx_files(out@) == committed(all.take(i as int), fs),
        decreases news@.len() - i,
    {
        proof {
            assert(all.take(i + 1).drop_last() =~= all.take(i as int));
            assert(all.take(i + 1).last() == (news@[i as int].0, news@[i as int].1@));
        }
        let f = news[i].0;
        assert(fs[f as int] == files@[f as int]@);
        if let Some(path) = &files[f].path {
            let t = TxFile {
                path: path.copy(),
                before: to_bytes(files[f].text.as_str()),
                after: to_bytes(news[i].1.as_str()),
            };
            let ghost tv = t@;
            let ghost before = tx_files(out@);
            out.push(t);
            proof {
                assert(tx_files(out@) =~= before.push(tv));
            }
        }
        i += 1;
    }
    proof {
        assert(all.take(all.len() as int) =~= all);
    }
    out
}

/// Starts the disk commit of transaction files, under the journal
/// protocol of [`crate::persist`]. Committing nothing is a no-op.
pub fn commit(files: Vec<TxFile>, tx: String) -> (r: Option<TxRun>)
    ensures
        match (r, tx_root_of(tx_paths(tx_files(files@)))) {
            (Some(run), Some(root)) => run@ == start_of(root, tx_files(files@), None, tx@)
                && crate::transaction::run_wf(run@),
            (None, None) => true,
            _ => false,
        },
{
    let paths = paths_of(&files);
    match tx_root(&paths) {
        Some(root) => Some(persist_tx(&root, files, tx)),
        None => None,
    }
}

/// Starts the disk commit of a plan's new texts. Each destination's
/// disk bytes must equal the snapshot the plan validated, or nothing is
/// written; a plan that touches no file on disk is a no-op.
pub fn persist_sources(news: &Vec<(usize, String)>, files: &Vec<SourceFile>, tx: String) -> (r:
    Option<TxRun>)
    requires
        forall|i: int| 0 <= i < news@.len() ==> (#[trigger] news@[i]).0 < files@.len(),
    ensures
        ({
            let fs = committed(file_texts(news@), source_files(files@));
            match (r, tx_root_of(tx_paths(fs))) {
                (Some(run), Some(root)) => run@ == start_of(root, fs, None, tx@)
                    && crate::transaction::run_wf(run@),
                (None, None) => true,
                _ => false,
            }
        }),
{
    commit(commit_files(news, files), tx)
}

/// A commit replaces exactly what the plan validated: every file's
/// guard is the snapshot's bytes, its candidate the new text's.
pub proof fn law_commit_guards_snapshot(
    news: Seq<(usize, Seq<char>)>,
    files: Seq<SourceFileV>,
    i: int,
)
    requires
        0 <= i < committed(news, files).len(),
    ensures
        exists|k: int|
            0 <= k < news.len() && ({
                let (f, text) = #[trigger] news[k];
                let t = committed(news, files)[i];
                &&& files[f as int].path == Some(t.path)
                &&& t.before == bytes_of(files[f as int].text)
                &&& t.after == bytes_of(text)
            }),
    decreases news.len(),
{
    let front = committed(news.drop_last(), files);
    if i < front.len() {
        law_commit_guards_snapshot(news.drop_last(), files, i);
        let k = choose|k: int|
            0 <= k < news.len() - 1 && ({
                let (f, text) = #[trigger] news.drop_last()[k];
                let t = front[i];
                &&& files[f as int].path == Some(t.path)
                &&& t.before == bytes_of(files[f as int].text)
                &&& t.after == bytes_of(text)
            });
        assert(news[k] == news.drop_last()[k]);
        assert(committed(news, files)[i] == front[i]);
    } else {
        assert(news[news.len() - 1] == news.last());
    }
}

} // verus!
