//! The inputs of a compiler session: the registered files, the revision
//! that counts writes, and the fingerprints that bind a plan to what it
//! was computed from.

use crate::persist::{fnv, fp};
use crate::splice::file_texts;
use crate::text::{bytes_of, cat2, decimal, dec};
use vstd::prelude::*;
use vstd::string::*;

verus! {

/// One registered file.
pub struct FileSlot {
    /// The module name this file provides (`use m;` resolves against
    /// it). Convention: the file's stem.
    pub module: String,
    /// The file's text.
    pub text: String,
}

/// Model of [`FileSlot`].
#[verifier::ext_equal]
pub struct FileSlotV {
    pub module: Seq<char>,
    pub text: Seq<char>,
}

impl FileSlot {
    /// The model of this file.
    pub open spec fn view(&self) -> FileSlotV {
        FileSlotV { module: self.module@, text: self.text@ }
    }
}

/// The models of a sequence of files.
pub open spec fn slots(v: Seq<FileSlot>) -> Seq<FileSlotV> {
    Seq::new(v.len(), |i: int| v[i]@)
}

/// The inputs of one session.
pub struct Session {
    id: u64,
    revision: u64,
    files: Vec<FileSlot>,
}

/// Model of [`Session`].
#[verifier::ext_equal]
pub struct SessionV {
    pub id: u64,
    pub revision: u64,
    pub files: Seq<FileSlotV>,
}

/// The files after new texts were installed, in order.
pub open spec fn installed(files: Seq<FileSlotV>, news: Seq<(usize, Seq<char>)>) -> Seq<FileSlotV>
    decreases news.len(),
{
    if news.len() == 0 {
        files
    } else {
        let done = installed(files, news.drop_last());
        let (f, text) = news.last();
        if f < done.len() {
            done.update(f as int, FileSlotV { text, ..done[f as int] })
        } else {
            done
        }
    }
}

/// The bytes a fingerprint of files covers: every module name and text,
/// each closed by a zero byte.
pub open spec fn slot_bytes(files: Seq<FileSlotV>) -> Seq<u8>
    decreases files.len(),
{
    if files.len() == 0 {
        Seq::empty()
    } else {
        slot_bytes(files.drop_last()) + bytes_of(files.last().module) + seq![0u8] + bytes_of(
            files.last().text,
        ) + seq![0u8]
    }
}

/// The bytes a fingerprint of new texts covers: every file number and
/// text, each closed by a zero byte.
pub open spec fn text_bytes(news: Seq<(usize, Seq<char>)>) -> Seq<u8>
    decreases news.len(),
{
    if news.len() == 0 {
        Seq::empty()
    } else {
        text_bytes(news.drop_last()) + bytes_of(dec(news.last().0 as nat)) + seq![0u8] + bytes_of(
            news.last().1,
        ) + seq![0u8]
    }
}

fn push_text(out: &mut Vec<u8>, text: &str)
    ensures
        final(out)@ == old(out)@ + bytes_of(text@) + seq![0u8],
{
    let b = text.as_bytes();
    let ghost before = out@;
    let n: usize = b.len();
    let mut i: usize = 0;
    proof {
        assert(before + b@.take(0) =~= before);
    }
    while i < n
        invariant
            i <= n,
            n == b@.len(),
            out@ == before + b@.take(i as int),
        decreases n - i,
    {
        out.push(b[i]);
        i += 1;
        proof {
            assert(out@ =~= before + b@.take(i as int));
        }
    }
    out.push(0u8);
    proof {
        assert(b@.take(n as int) =~= b@);
        assert(out@ =~= before + b@ + seq![0u8]);
    }
}

/// Fingerprint of new texts — proves at apply time that a plan's payload
/// is the one validation approved.
pub fn sources_fingerprint(news: &Vec<(usize, String)>) -> (r: u64)
    ensures
        r == fnv(text_bytes(file_texts(news@))),
{
    let ghost all = file_texts(news@);
    let mut buf: Vec<u8> = Vec::new();
    let mut i: usize = 0;
    proof {
        assert(all.take(0) =~= Seq::empty());
        assert(buf@ =~= Seq::empty());
    }
    while i < news.len()
        invariant
            i <= news@.len(),
            all == file_texts(news@),
            buf@ == text_bytes(all.take(i as int)),
        decreases news@.len() - i,
    {
        proof {
            assert(all.take(i + 1).drop_last() =~= all.take(i as int));
        }
        let n = decimal(news[i].0 as u64);
        push_text(&mut buf, n.as_str());
        push_text(&mut buf, news[i].1.as_str());
        i += 1;
    }
    proof {
        assert(all.take(all.len() as int) =~= all);
    }
    fp(buf.as_slice())
}

impl Session {
    /// The model of this session.
    pub closed spec fn view(&self) -> SessionV {
        SessionV { id: self.id, revision: self.revision, files: slots(self.files@) }
    }

    /// A session without files. `id` tells it from every other one.
    pub fn new(id: u64) -> (r: Session)
        ensures
            r@ == (SessionV { id, revision: 0, files: Seq::empty() }),
    {
        let r = Session { id, revision: 0, files: Vec::new() };
        proof {
            assert(slots(r.files@) =~= Seq::empty());
        }
        r
    }

    /// What tells this session from every other one.
    pub fn id(&self) -> (r: u64)
        ensures
            r == self@.id,
    {
        self.id
    }

    /// How many writes the session has seen.
    pub fn revision(&self) -> (r: u64)
        ensures
            r == self@.revision,
    {
        self.revision
    }

    /// Number of registered files.
    pub fn file_count(&self) -> (r: usize)
        ensures
            r == self@.files.len(),
    {
        self.files.len()
    }

    /// The current source text of a file.
    pub fn source(&self, file: usize) -> (r: &str)
        requires
            file < self@.files.len(),
        ensures
            r@ == self@.files[file as int].text,
    {
        self.files[file].text.as_str()
    }

    /// The module name a file provides (its stem, by convention).
    pub fn file_module(&self, file: usize) -> (r: &str)
        requires
            file < self@.files.len(),
        ensures
            r@ == self@.files[file as int].module,
    {
        self.files[file].module.as_str()
    }

    /// Registers a source file; returns its index. The file provides
    /// a module named `file{n}` — single-source callers never resolve
    /// `use`s, so the name is only a placeholder.
    pub fn add_source(&mut self, text: String) -> (r: usize)
        requires
            old(self)@.revision < u64::MAX,
        ensures
            r == old(self)@.files.len(),
            final(self)@ == (SessionV {
                revision: (old(self)@.revision + 1) as u64,
                files: old(self)@.files.push(
                    FileSlotV { module: "file"@ + dec(old(self)@.files.len()), text: text@ },
                ),
                ..old(self)@
            }),
    {
        let n = decimal(self.files.len() as u64);
        self.add_source_named(cat2("file", n.as_str()), text)
    }

    /// Registers a source file providing module `module` (its file
    /// stem, by convention); returns its index.
    pub fn add_source_named(&mut self, module: String, text: String) -> (r: usize)
        requires
            old(self)@.revision < u64::MAX,
        ensures
            r == old(self)@.files.len(),
            final(self)@ == (SessionV {
                revision: (old(self)@.revision + 1) as u64,
                files: old(self)@.files.push(FileSlotV { module: module@, text: text@ }),
                ..old(self)@
            }),
    {
        self.revision = self.revision + 1;
        let n: usize = self.files.len();
        let ghost before = slots(self.files@);
        let slot = FileSlot { module, text };
        let ghost sv = slot@;
        self.files.push(slot);
        proof {
            assert(slots(self.files@) =~= before.push(sv));
        }
        n
    }

    /// Replaces a file's text. The revision is a write counter: it moves
    /// even when the text is unchanged.
    pub fn set_source(&mut self, file: usize, text: String)
        requires
            old(self)@.revision < u64::MAX,
            file < old(self)@.files.len(),
        ensures
            final(self)@ == (SessionV {
                revision: (old(self)@.revision + 1) as u64,
                files: old(self)@.files.update(
                    file as int,
                    FileSlotV { text: text@, ..old(self)@.files[file as int] },
                ),
                ..old(self)@
            }),
    {
        self.revision = self.revision + 1;
        let ghost before = slots(self.files@);
        let ghost tv = text@;
        self.files[file].text = text;
        proof {
            assert(slots(self.files@) =~= before.update(
                file as int,
                FileSlotV { text: tv, ..before[file as int] },
            ));
        }
    }

    /// Replaces the texts of several files in one revision. A file that
    /// is not registered is passed over.
    pub fn set_sources(&mut self, news: &Vec<(usize, String)>)
        requires
            old(self)@.revision < u64::MAX,
        ensures
            final(self)@ == (SessionV {
                revision: (old(self)@.revision + 1) as u64,
                files: installed(old(self)@.files, file_texts(news@)),
                ..old(self)@
            }),
    {
        self.revision = self.revision + 1;
        let ghost start = slots(self.files@);
        let ghost all = file_texts(news@);
        let mut i: usize = 0;
        proof {
            assert(all.take(0) =~= Seq::empty());
        }
        while i < news.len()
            invariant
                i <= news@.len(),
                all == file_texts(news@),
                start.len() == self.files@.len(),
                installed(start, all.take(i as int)).len() == start.len(),
                slots(self.files@) == installed(start, all.take(i as int)),
                self.id == old(self).id,
                self.revision == old(self).revision + 1,
            decreases news@.len() - i,
        {
            proof {
                assert(all.take(i + 1).drop_last() =~= all.take(i as int));
                assert(all.take(i + 1).last() == (news@[i as int].0, news@[i as int].1@));
            }
            let f: usize = news[i].0;
            let ghost before = slots(self.files@);
            if f < self.files.len() {
                self.files[f].text = news[i].1.clone();
                proof {
                    assert(slots(self.files@) =~= before.update(
                        f as int,
                        FileSlotV { text: news@[i as int].1@, ..before[f as int] },
                    ));
                }
            }
            i += 1;
        }
        proof {
            assert(all.take(all.len() as int) =~= all);
        }
    }

    /// Fingerprint of every registered file's module name and raw
    /// source bytes.
    pub fn workspace_fingerprint(&self) -> (r: u64)
        ensures
            r == fnv(slot_bytes(self@.files)),
    {
        let ghost all = self@.files;
        let mut buf: Vec<u8> = Vec::new();
        let mut i: usize = 0;
        proof {
            assert(all.take(0) =~= Seq::empty());
            assert(buf@ =~= Seq::empty());
        }
        while i < self.files.len()
            invariant
                i <= self.files@.len(),
                all == slots(self.files@),
                buf@ == slot_bytes(all.take(i as int)),
            decreases self.files@.len() - i,
        {
            proof {
                assert(all.take(i + 1).drop_last() =~= all.take(i as int));
            }
            push_text(&mut buf, self.files[i].module.as_str());
            push_text(&mut buf, self.files[i].text.as_str());
            i += 1;
        }
        proof {
            assert(all.take(all.len() as int) =~= all);
        }
        fp(buf.as_slice())
    }
}

/// Installing new texts touches nothing but the texts of the files that
/// have one: no module name, no other file, and no file's place.
pub proof fn law_install_touches_only_its_files(
    files: Seq<FileSlotV>,
    news: Seq<(usize, Seq<char>)>,
    f: int,
)
    requires
        0 <= f < files.len(),
    ensures
        installed(files, news).len() == files.len(),
        installed(files, news)[f].module == files[f].module,
        (forall|i: int| 0 <= i < news.len() ==> (#[trigger] news[i]).0 != f) ==> installed(
            files,
            news,
        )[f] == files[f],
    decreases news.len(),
{
    if news.len() > 0 {
        law_install_touches_only_its_files(files, news.drop_last(), f);
        if forall|i: int| 0 <= i < news.len() ==> (#[trigger] news[i]).0 != f {
            assert forall|i: int| 0 <= i < news.drop_last().len() implies (
            #[trigger] news.drop_last()[i]).0 != f by {
                assert(news[i].0 != f);
            }
            assert(news[news.len() - 1].0 != f);
        }
    }
}

} // verus!
