//! The daemon's session: which files a client has bound, what a request
//! asks for, and what it is answered.
//!
//! One request per line, one envelope per answer. The session persists
//! across requests. A request handler that fails internally poisons the
//! session: nothing is served from it until `open` or `set` starts over.

use crate::envelope::{envelope_json, envelope_of, with_error, Envelope};
use crate::json::{at_key, bool_of, str_of, uint_of, Json, JsonV};
use crate::paths::{FsPath, FsPathV};
use crate::patch::PatchError;
use crate::patch_plan::{apply_error, patch_applied, PatchPlan, PatchReport};
use crate::rename::{rename_applied, rename_apply_error, RenameError, RenamePlan, RenameReport};
use crate::session::{installed, FileSlotV, Session, SessionV};
use crate::source_file::{source_files, SourceFile, SourceFileV};
use crate::text::same;
use vstd::prelude::*;

verus! {

// ---------- bindings ----------

/// A path a client has bound.
pub struct Binding {
    /// The canonical spelling.
    pub key: String,
    /// The file it stands for.
    pub file: usize,
}

/// Model of [`Binding`].
#[verifier::ext_equal]
pub struct BindingV {
    pub key: Seq<char>,
    pub file: usize,
}

impl Binding {
    /// The model of this binding.
    pub open spec fn view(&self) -> BindingV {
        BindingV { key: self.key@, file: self.file }
    }
}

/// The models of a sequence of bindings.
pub open spec fn bindings_view(v: Seq<Binding>) -> Seq<BindingV> {
    Seq::new(v.len(), |i: int| v[i]@)
}

/// How a file is shown.
pub struct Shown {
    /// Display name.
    pub name: String,
    /// Where it is on disk.
    pub path: FsPath,
}

/// Model of [`Shown`].
#[verifier::ext_equal]
pub struct ShownV {
    pub name: Seq<char>,
    pub path: FsPathV,
}

impl Shown {
    /// The model of this entry.
    pub open spec fn view(&self) -> ShownV {
        ShownV { name: self.name@, path: self.path@ }
    }
}

/// The models of a sequence of shown files.
pub open spec fn shown_view(v: Seq<Shown>) -> Seq<ShownV> {
    Seq::new(v.len(), |i: int| v[i]@)
}

/// The session of one client.
pub struct Daemon {
    session: Session,
    files: Vec<Binding>,
    display: Vec<Shown>,
    poisoned: bool,
}

/// Model of [`Daemon`].
#[verifier::ext_equal]
pub struct DaemonV {
    pub session: SessionV,
    pub files: Seq<BindingV>,
    pub display: Seq<ShownV>,
    pub poisoned: bool,
}

/// The file a path is bound to, among the bindings from `i` on.
pub open spec fn bound_from(bs: Seq<BindingV>, key: Seq<char>, i: int) -> Option<usize>
    decreases bs.len() - i,
{
    if i < 0 || i >= bs.len() {
        None
    } else if bs[i].key == key {
        Some(bs[i].file)
    } else {
        bound_from(bs, key, i + 1)
    }
}

/// The file a path is bound to.
pub open spec fn bound_to(d: DaemonV, key: Seq<char>) -> Option<usize> {
    bound_from(d.files, key, 0)
}

/// Every file has a display entry, every binding a file, and no path is
/// bound twice.
pub open spec fn daemon_wf(d: DaemonV) -> bool {
    &&& d.display.len() == d.session.files.len()
    &&& forall|i: int| 0 <= i < d.files.len() ==> (#[trigger] d.files[i]).file < d.display.len()
    &&& forall|i: int, j: int|
        0 <= i < j < d.files.len() ==> (#[trigger] d.files[i]).key != (#[trigger] d.files[j]).key
}

/// A session without files.
pub open spec fn fresh_daemon(id: u64) -> DaemonV {
    DaemonV {
        session: SessionV { id, revision: 0, files: Seq::empty() },
        files: Seq::empty(),
        display: Seq::empty(),
        poisoned: false,
    }
}

/// A session with one more file.
pub open spec fn bound_fresh(
    d: DaemonV,
    key: Seq<char>,
    shown: ShownV,
    module: Seq<char>,
    text: Seq<char>,
) -> DaemonV {
    let f = d.session.files.len() as usize;
    DaemonV {
        session: SessionV {
            revision: (d.session.revision + 1) as u64,
            files: d.session.files.push(FileSlotV { module, text }),
            ..d.session
        },
        files: d.files.push(BindingV { key, file: f }),
        display: d.display.push(shown),
        ..d
    }
}

/// A session in which a path has a text: a known file gets it, an
/// unknown one is added.
pub open spec fn bound_text(
    d: DaemonV,
    key: Seq<char>,
    shown: ShownV,
    module: Seq<char>,
    text: Seq<char>,
) -> DaemonV {
    match bound_to(d, key) {
        Some(f) => DaemonV {
            session: SessionV {
                revision: (d.session.revision + 1) as u64,
                files: d.session.files.update(
                    f as int,
                    FileSlotV { text, ..d.session.files[f as int] },
                ),
                ..d.session
            },
            ..d
        },
        None => bound_fresh(d, key, shown, module, text),
    }
}

/// The bindings without the first one of a path from `i` on.
pub open spec fn unbound_from(bs: Seq<BindingV>, key: Seq<char>, i: int) -> Seq<BindingV>
    decreases bs.len() - i,
{
    if i < 0 || i >= bs.len() {
        bs
    } else if bs[i].key == key {
        bs.remove(i)
    } else {
        unbound_from(bs, key, i + 1)
    }
}

/// The bound files as diagnostics are rendered against them.
pub open spec fn daemon_files(d: DaemonV) -> Seq<SourceFileV> {
    Seq::new(
        d.display.len(),
        |i: int|
            SourceFileV {
                name: d.display[i].name,
                path: Some(d.display[i].path),
                text: d.session.files[i].text,
            },
    )
}

proof fn lemma_installed_len(files: Seq<FileSlotV>, news: Seq<(usize, Seq<char>)>)
    ensures
        installed(files, news).len() == files.len(),
    decreases news.len(),
{
    if news.len() > 0 {
        lemma_installed_len(files, news.drop_last());
    }
}

proof fn lemma_bound_file(d: DaemonV, key: Seq<char>, i: int)
    requires
        daemon_wf(d),
        0 <= i <= d.files.len(),
        bound_from(d.files, key, i) is Some,
    ensures
        bound_from(d.files, key, i)->0 < d.display.len(),
    decreases d.files.len() - i,
{
    if i < d.files.len() && d.files[i].key != key {
        lemma_bound_file(d, key, i + 1);
    }
}

proof fn lemma_bound_none(bs: Seq<BindingV>, key: Seq<char>, i: int, j: int)
    requires
        0 <= i <= j < bs.len(),
        bound_from(bs, key, i) is None,
    ensures
        bs[j].key != key,
    decreases bs.len() - i,
{
    if i < j {
        lemma_bound_none(bs, key, i + 1, j);
    }
}

proof fn lemma_fresh_wf(
    d: DaemonV,
    key: Seq<char>,
    shown: ShownV,
    module: Seq<char>,
    text: Seq<char>,
)
    requires
        daemon_wf(d),
        bound_to(d, key) is None,
        d.session.files.len() < usize::MAX,
    ensures
        daemon_wf(bound_fresh(d, key, shown, module, text)),
{
    let e = bound_fresh(d, key, shown, module, text);
    assert forall|i: int, j: int| 0 <= i < j < e.files.len() implies (#[trigger] e.files[i]).key
        != (#[trigger] e.files[j]).key by {
        if j == d.files.len() {
            lemma_bound_none(d.files, key, 0, i);
        }
    }
}

impl Daemon {
    /// The model of this session.
    pub closed spec fn view(&self) -> DaemonV {
        DaemonV {
            session: self.session@,
            files: bindings_view(self.files@),
            display: shown_view(self.display@),
            poisoned: self.poisoned,
        }
    }

    /// Whether the session is well formed.
    pub open spec fn wf(&self) -> bool {
        daemon_wf(self@)
    }

    /// A session without files. `id` tells it from every other one.
    pub fn new(id: u64) -> (r: Daemon)
        ensures
            r@ == fresh_daemon(id),
            r.wf(),
    {
        let r = Daemon {
            session: Session::new(id),
            files: Vec::new(),
            display: Vec::new(),
            poisoned: false,
        };
        proof {
            assert(bindings_view(r.files@) =~= Seq::empty());
            assert(shown_view(r.display@) =~= Seq::empty());
        }
        r
    }

    /// The sources.
    pub fn session(&self) -> (r: &Session)
        ensures
            r@ == self@.session,
    {
        &self.session
    }

    /// The revision of the sources.
    pub fn revision(&self) -> (r: u64)
        ensures
            r == self@.session.revision,
    {
        self.session.revision()
    }

    /// Applies a rename to the sources; a refused one changes nothing.
    pub fn apply_rename(&mut self, plan: &RenamePlan) -> (r: Result<RenameReport, RenameError>)
        requires
            old(self).wf(),
            rename_apply_error(old(self)@.session, plan@) is None
                ==> old(self)@.session.revision < u64::MAX,
        ensures
            final(self).wf(),
            final(self)@ == (DaemonV { session: final(self)@.session, ..old(self)@ }),
            rename_applied(old(self)@.session, plan@, r, final(self)@.session),
    {
        let ghost before = self@.session.files;
        let r = crate::rename::apply_rename(&mut self.session, plan);
        proof {
            lemma_installed_len(before, plan@.new_sources);
        }
        r
    }

    /// Applies a patch to the sources; a refused one changes nothing.
    pub fn apply_patch(&mut self, plan: &PatchPlan) -> (r: Result<PatchReport, PatchError>)
        requires
            old(self).wf(),
            apply_error(old(self)@.session, plan@) is None
                ==> old(self)@.session.revision < u64::MAX,
        ensures
            final(self).wf(),
            final(self)@ == (DaemonV { session: final(self)@.session, ..old(self)@ }),
            patch_applied(old(self)@.session, plan@, r, final(self)@.session),
    {
        let ghost before = self@.session.files;
        let r = crate::patch_plan::apply_patch(&mut self.session, plan);
        proof {
            lemma_installed_len(before, plan@.new_sources);
        }
        r
    }

    /// Answers a rename request whose plan is made: applies the plan
    /// when the request asks for it. One that only asks for the plan
    /// changes nothing.
    pub fn settle_rename(&mut self, plan: &RenamePlan, apply: bool) -> (r: Option<
        Result<RenameReport, RenameError>,
    >)
        requires
            old(self).wf(),
            apply && rename_apply_error(old(self)@.session, plan@) is None
                ==> old(self)@.session.revision < u64::MAX,
        ensures
            final(self).wf(),
            final(self)@ == (DaemonV { session: final(self)@.session, ..old(self)@ }),
            match r {
                None => !apply && final(self)@ == old(self)@,
                Some(done) => apply && rename_applied(
                    old(self)@.session,
                    plan@,
                    done,
                    final(self)@.session,
                ),
            },
    {
        if apply {
            Some(self.apply_rename(plan))
        } else {
            None
        }
    }

    /// Answers a patch request whose plan is made: applies the plan when
    /// the request asks for it. One that only asks for the plan changes
    /// nothing.
    pub fn settle_patch(&mut self, plan: &PatchPlan, apply: bool) -> (r: Option<
        Result<PatchReport, PatchError>,
    >)
        requires
            old(self).wf(),
            apply && apply_error(old(self)@.session, plan@) is None
                ==> old(self)@.session.revision < u64::MAX,
        ensures
            final(self).wf(),
            final(self)@ == (DaemonV { session: final(self)@.session, ..old(self)@ }),
            match r {
                None => !apply && final(self)@ == old(self)@,
                Some(done) => apply && patch_applied(
                    old(self)@.session,
                    plan@,
                    done,
                    final(self)@.session,
                ),
            },
    {
        if apply {
            Some(self.apply_patch(plan))
        } else {
            None
        }
    }

    /// The file a path is bound to.
    pub fn lookup(&self, key: &str) -> (r: Option<usize>)
        requires
            self.wf(),
        ensures
            r == bound_to(self@, key@),
            r matches Some(f) ==> f < self@.display.len(),
    {
        let ghost all = self@.files;
        let mut i: usize = 0;
        while i < self.files.len()
            invariant
                i <= self.files@.len(),
                self.wf(),
                all == self@.files,
                all == bindings_view(self.files@),
                bound_from(all, key@, 0) == bound_from(all, key@, i as int),
            decreases self.files@.len() - i,
        {
            assert(all[i as int] == self.files@[i as int]@);
            if same(self.files[i].key.as_str(), key) {
                return Some(self.files[i].file);
            }
            i += 1;
        }
        None
    }

    fn bind_named(&mut self, key: String, shown: Shown, module: String, text: String) -> (r: usize)
        requires
            old(self).wf(),
            old(self)@.session.revision < u64::MAX,
            bound_to(old(self)@, key@) is None,
        ensures
            r == old(self)@.session.files.len(),
            final(self)@ == bound_fresh(old(self)@, key@, shown@, module@, text@),
            final(self).wf(),
    {
        let ghost d = self@;
        let ghost kv = key@;
        let ghost sv = shown@;
        let ghost mv = module@;
        let ghost tv = text@;
        let n: usize = self.session.file_count();
        let f: usize = self.session.add_source_named(module, text);
        self.files.push(Binding { key, file: f });
        self.display.push(shown);
        proof {
            assert(self.display@.len() == self.display.len());
            assert(bindings_view(self.files@) =~= d.files.push(BindingV { key: kv, file: f }));
            assert(shown_view(self.display@) =~= d.display.push(sv));
            assert(self@ =~= bound_fresh(d, kv, sv, mv, tv));
            assert(n < usize::MAX);
            lemma_fresh_wf(d, kv, sv, mv, tv);
        }
        f
    }

    /// Gives a path a text: a known file gets it, an unknown one is
    /// added and provides `module`.
    pub fn bind(&mut self, key: String, shown: Shown, module: String, text: String) -> (r: usize)
        requires
            old(self).wf(),
            old(self)@.session.revision < u64::MAX,
        ensures
            final(self)@ == bound_text(old(self)@, key@, shown@, module@, text@),
            final(self).wf(),
            r == match bound_to(old(self)@, key@) {
                Some(f) => f as int,
                None => old(self)@.session.files.len() as int,
            },
    {
        match self.lookup(key.as_str()) {
            Some(f) => {
                self.session.set_source(f, text);
                f
            },
            None => self.bind_named(key, shown, module, text),
        }
    }

    /// Adds a file of the workspace that is on disk, unless its path is
    /// bound: what a client has set always wins.
    pub fn bind_sibling(&mut self, key: String, shown: Shown, module: String, text: String)
        requires
            old(self).wf(),
            old(self)@.session.revision < u64::MAX,
        ensures
            final(self)@ == (if bound_to(old(self)@, key@) is Some {
                old(self)@
            } else {
                bound_fresh(old(self)@, key@, shown@, module@, text@)
            }),
            final(self).wf(),
    {
        if self.lookup(key.as_str()).is_none() {
            self.bind_named(key, shown, module, text);
        }
    }

    /// Drops the binding of a path; says whether there was one.
    pub fn close(&mut self, key: &str) -> (r: bool)
        requires
            old(self).wf(),
        ensures
            r == bound_to(old(self)@, key@) is Some,
            final(self)@ == (DaemonV {
                files: unbound_from(old(self)@.files, key@, 0),
                ..old(self)@
            }),
            final(self).wf(),
    {
        let ghost d = self@;
        let ghost all = d.files;
        let mut i: usize = 0;
        while i < self.files.len()
            invariant
                i <= self.files@.len(),
                d == old(self)@,
                self@ == d,
                daemon_wf(d),
                all == d.files,
                all == bindings_view(self.files@),
                bound_from(all, key@, 0) == bound_from(all, key@, i as int),
                unbound_from(all, key@, 0) == unbound_from(all, key@, i as int),
            decreases self.files@.len() - i,
        {
            assert(all[i as int] == self.files@[i as int]@);
            if same(self.files[i].key.as_str(), key) {
                let _ = self.files.remove(i);
                proof {
                    assert(bindings_view(self.files@) =~= all.remove(i as int));
                    assert(self@ =~= DaemonV { files: all.remove(i as int), ..d });
                    assert forall|a: int, b: int| 0 <= a < b < self@.files.len() implies (
                    #[trigger] self@.files[a]).key != (#[trigger] self@.files[b]).key by {
                        let x = if a < i {
                            a
                        } else {
                            a + 1
                        };
                        let y = if b < i {
                            b
                        } else {
                            b + 1
                        };
                        assert(self@.files[a] == all[x] && self@.files[b] == all[y]);
                    }
                }
                return true;
            }
            i += 1;
        }
        proof {
            assert(self@ =~= DaemonV { files: all, ..d });
        }
        false
    }

    /// The bound files as diagnostics are rendered against them.
    pub fn source_files(&self) -> (r: Vec<SourceFile>)
        requires
            self.wf(),
        ensures
            source_files(r@) == daemon_files(self@),
    {
        let ghost all = daemon_files(self@);
        let mut out: Vec<SourceFile> = Vec::new();
        let mut i: usize = 0;
        proof {
            assert(source_files(out@) =~= all.take(0));
        }
        while i < self.display.len()
            invariant
                i <= self.display@.len(),
                self.wf(),
                all == daemon_files(self@),
                self@.display == shown_view(self.display@),
                source_files(out@) == all.take(i as int),
            decreases self.display@.len() - i,
        {
            let s = &self.display[i];
            assert(self@.display[i as int] == s@);
            let f = SourceFile {
                name: s.name.clone(),
                path: Some(s.path.copy()),
                text: self.session.source(i).to_owned(),
            };
            let ghost fv = f@;
            let ghost before = source_files(out@);
            out.push(f);
            proof {
                assert(fv =~= all[i as int]);
                assert(source_files(out@) =~= before.push(fv));
                assert(all.take(i + 1) =~= all.take(i as int).push(all[i as int]));
            }
            i += 1;
        }
        proof {
            assert(all.take(all.len() as int) =~= all);
        }
        out
    }

    /// Marks the session unusable after an internal failure.
    pub fn poison(&mut self)
        ensures
            final(self)@ == (DaemonV { poisoned: true, ..old(self)@ }),
            old(self).wf() ==> final(self).wf(),
    {
        self.poisoned = true;
    }

    /// Lets a request through or refuses it. A poisoned session serves
    /// nothing; `open` and `set` start over, as session `id`.
    pub fn gate(&mut self, op: &str, id: u64) -> (r: Option<Json>)
        requires
            old(self).wf(),
        ensures
            final(self).wf(),
            r is Some <==> old(self)@.poisoned && !starts_over(op@),
            r matches Some(j) ==> j@ == poisoned_reply(),
            final(self)@ == (if old(self)@.poisoned && starts_over(op@) {
                fresh_daemon(id)
            } else {
                old(self)@
            }),
    {
        if !self.poisoned {
            return None;
        }
        if same(op, "open") || same(op, "set") {
            *self = Daemon::new(id);
            return None;
        }
        let e = Envelope::new("daemon").error(
            "internal",
            "session was reset after an internal failure; reopen files",
            3,
        );
        Some(e.into_json())
    }
}

/// Whether a request starts a poisoned session over.
pub open spec fn starts_over(op: Seq<char>) -> bool {
    op == "open"@ || op == "set"@
}

/// What a poisoned session answers.
pub open spec fn poisoned_reply() -> JsonV {
    envelope_json(
        with_error(
            envelope_of("daemon"@),
            "internal"@,
            "session was reset after an internal failure; reopen files"@,
            3,
        ),
    )
}

// ---------- requests ----------

/// What a client asks for.
#[allow(inconsistent_fields)]
pub enum Request {
    /// Bind a path, with a text or from disk.
    Open {
        /// The path.
        path: String,
        /// The text, when the client has one.
        text: Option<String>,
    },
    /// Check a workspace.
    Check {
        /// The root's path.
        path: String,
    },
    /// Explain a symbol or the workspace.
    Explain {
        /// The root's path.
        path: String,
        /// The symbol.
        symbol: Option<String>,
    },
    /// Preview or apply a rename.
    Rename {
        /// The root's path.
        path: String,
        /// The symbol.
        symbol: String,
        /// The new name.
        to: String,
        /// Whether to apply.
        apply: bool,
        /// The revision the client planned at.
        revision: Option<u64>,
        /// The byte that selects a local, instead of the symbol.
        at: Option<u64>,
    },
    /// Preview or apply a patch.
    Patch {
        /// The root's path.
        path: String,
        /// The op list.
        ops: Json,
        /// Whether to apply.
        apply: bool,
        /// The revision the client planned at.
        revision: Option<u64>,
    },
    /// Format a file.
    Fmt {
        /// The path.
        path: String,
    },
    /// Session counters.
    Stats,
    /// Drop a binding.
    Close {
        /// The path.
        path: String,
    },
    /// End the session.
    Shutdown,
    /// Anything else.
    Unknown(String),
}

/// Model of [`Request`].
#[verifier::ext_equal]
#[allow(inconsistent_fields)]
pub enum RequestV {
    Open { path: Seq<char>, text: Option<Seq<char>> },
    Check { path: Seq<char> },
    Explain { path: Seq<char>, symbol: Option<Seq<char>> },
    Rename {
        path: Seq<char>,
        symbol: Seq<char>,
        to: Seq<char>,
        apply: bool,
        revision: Option<u64>,
        at: Option<u64>,
    },
    Patch { path: Seq<char>, ops: JsonV, apply: bool, revision: Option<u64> },
    Fmt { path: Seq<char> },
    Stats,
    Close { path: Seq<char> },
    Shutdown,
    Unknown(Seq<char>),
}

/// The model of a text that may be missing.
pub open spec fn opt_chars(o: Option<String>) -> Option<Seq<char>> {
    match o {
        Some(s) => Some(s@),
        None => None,
    }
}

impl Request {
    /// The model of this request.
    pub open spec fn view(&self) -> RequestV {
        match self {
            Request::Open { path, text } => RequestV::Open { path: path@, text: opt_chars(*text) },
            Request::Check { path } => RequestV::Check { path: path@ },
            Request::Explain { path, symbol } => RequestV::Explain {
                path: path@,
                symbol: opt_chars(*symbol),
            },
            Request::Rename { path, symbol, to, apply, revision, at } => RequestV::Rename {
                path: path@,
                symbol: symbol@,
                to: to@,
                apply: *apply,
                revision: *revision,
                at: *at,
            },
            Request::Patch { path, ops, apply, revision } => RequestV::Patch {
                path: path@,
                ops: ops@,
                apply: *apply,
                revision: *revision,
            },
            Request::Fmt { path } => RequestV::Fmt { path: path@ },
            Request::Stats => RequestV::Stats,
            Request::Close { path } => RequestV::Close { path: path@ },
            Request::Shutdown => RequestV::Shutdown,
            Request::Unknown(op) => RequestV::Unknown(op@),
        }
    }
}

/// The string at a key; empty when there is none.
pub open spec fn text_at(req: JsonV, key: Seq<char>) -> Seq<char> {
    match str_of(at_key(req, key)) {
        Some(s) => s,
        None => Seq::empty(),
    }
}

fn get_text(req: &Json, key: &str) -> (r: String)
    ensures
        r@ == text_at(req@, key@),
{
    match req.get_str(key) {
        Some(s) => s.to_owned(),
        None => {
            let e = String::new();
            assert(e@ =~= Seq::empty());
            e
        },
    }
}

fn get_opt(req: &Json, key: &str) -> (r: Option<String>)
    ensures
        opt_chars(r) == str_of(at_key(req@, key@)),
{
    match req.get_str(key) {
        Some(s) => Some(s.to_owned()),
        None => None,
    }
}

fn get_apply(req: &Json) -> (r: bool)
    ensures
        r == (bool_of(at_key(req@, "apply"@)) == Some(true)),
{
    match req.get_bool("apply") {
        Some(b) => b,
        None => false,
    }
}

/// What a request asks for.
pub open spec fn request_of(req: JsonV) -> RequestV {
    let op = text_at(req, "op"@);
    let path = text_at(req, "path"@);
    if op == "open"@ || op == "set"@ {
        RequestV::Open { path, text: str_of(at_key(req, "text"@)) }
    } else if op == "check"@ {
        RequestV::Check { path }
    } else if op == "explain"@ {
        RequestV::Explain { path, symbol: str_of(at_key(req, "symbol"@)) }
    } else if op == "rename"@ {
        RequestV::Rename {
            path,
            symbol: text_at(req, "symbol"@),
            to: text_at(req, "to"@),
            apply: bool_of(at_key(req, "apply"@)) == Some(true),
            revision: uint_of(at_key(req, "revision"@)),
            at: uint_of(at_key(req, "at"@)),
        }
    } else if op == "patch"@ {
        RequestV::Patch {
            path,
            ops: at_key(req, "ops"@),
            apply: bool_of(at_key(req, "apply"@)) == Some(true),
            revision: uint_of(at_key(req, "revision"@)),
        }
    } else if op == "fmt"@ {
        RequestV::Fmt { path }
    } else if op == "stats"@ {
        RequestV::Stats
    } else if op == "close"@ {
        RequestV::Close { path }
    } else if op == "shutdown"@ {
        RequestV::Shutdown
    } else {
        RequestV::Unknown(op)
    }
}

/// Reads a request.
pub fn request(req: &Json) -> (r: Request)
    ensures
        r@ == request_of(req@),
{
    let op = get_text(req, "op");
    let name = op.as_str();
    let path = get_text(req, "path");
    if same(name, "open") || same(name, "set") {
        Request::Open { path, text: get_opt(req, "text") }
    } else if same(name, "check") {
        Request::Check { path }
    } else if same(name, "explain") {
        Request::Explain { path, symbol: get_opt(req, "symbol") }
    } else if same(name, "rename") {
        Request::Rename {
            path,
            symbol: get_text(req, "symbol"),
            to: get_text(req, "to"),
            apply: get_apply(req),
            revision: req.get_u64("revision"),
            at: req.get_u64("at"),
        }
    } else if same(name, "patch") {
        let ops = match req.get("ops") {
            Some(v) => v.copy(),
            None => Json::Null,
        };
        Request::Patch { path, ops, apply: get_apply(req), revision: req.get_u64("revision") }
    } else if same(name, "fmt") {
        Request::Fmt { path }
    } else if same(name, "stats") {
        Request::Stats
    } else if same(name, "close") {
        Request::Close { path }
    } else if same(name, "shutdown") {
        Request::Shutdown
    } else {
        Request::Unknown(op)
    }
}

// ---------- laws ----------

proof fn lemma_bound_push(bs: Seq<BindingV>, b: BindingV, key: Seq<char>, i: int)
    requires
        0 <= i <= bs.len(),
        bound_from(bs, key, i) is None,
    ensures
        bound_from(bs.push(b), key, i) == (if b.key == key {
            Some(b.file)
        } else {
            None
        }),
    decreases bs.len() - i,
{
    let all = bs.push(b);
    if i < bs.len() {
        assert(all[i] == bs[i]);
        lemma_bound_push(bs, b, key, i + 1);
    } else {
        assert(bound_from(all, key, all.len() as int) is None);
    }
}

proof fn lemma_bound_kept(bs: Seq<BindingV>, b: BindingV, key: Seq<char>, i: int)
    requires
        0 <= i <= bs.len(),
        bound_from(bs, key, i) is Some,
    ensures
        bound_from(bs.push(b), key, i) == bound_from(bs, key, i),
    decreases bs.len() - i,
{
    assert(i < bs.len());
    assert(bs.push(b)[i] == bs[i]);
    if bs[i].key != key {
        lemma_bound_kept(bs, b, key, i + 1);
    }
}

/// A path that was given a text reads as that text.
pub proof fn law_bound_text_reads_back(
    d: DaemonV,
    key: Seq<char>,
    shown: ShownV,
    module: Seq<char>,
    text: Seq<char>,
)
    requires
        daemon_wf(d),
        d.session.files.len() < usize::MAX,
    ensures
        ({
            let e = bound_text(d, key, shown, module, text);
            &&& bound_to(e, key) is Some
            &&& bound_to(e, key)->0 < e.session.files.len()
            &&& e.session.files[bound_to(e, key)->0 as int].text == text
        }),
{
    match bound_to(d, key) {
        Some(f) => {
            lemma_bound_file(d, key, 0);
        },
        None => {
            let b = BindingV { key, file: d.session.files.len() as usize };
            lemma_bound_push(d.files, b, key, 0);
        },
    }
}

/// Binding one path leaves what another is bound to alone.
pub proof fn law_bind_keeps_others(
    d: DaemonV,
    key: Seq<char>,
    shown: ShownV,
    module: Seq<char>,
    text: Seq<char>,
    other: Seq<char>,
)
    requires
        daemon_wf(d),
        other != key,
    ensures
        bound_to(bound_text(d, key, shown, module, text), other) == bound_to(d, other),
{
    if bound_to(d, key) is None {
        let b = BindingV { key, file: d.session.files.len() as usize };
        if bound_to(d, other) is Some {
            lemma_bound_kept(d.files, b, other, 0);
        } else {
            lemma_bound_push(d.files, b, other, 0);
        }
    }
}

proof fn lemma_all_other(bs: Seq<BindingV>, key: Seq<char>, i: int)
    requires
        0 <= i <= bs.len(),
        forall|j: int| i <= j < bs.len() ==> (#[trigger] bs[j]).key != key,
    ensures
        bound_from(bs, key, i) is None,
    decreases bs.len() - i,
{
    if i < bs.len() {
        assert(bs[i].key != key);
        lemma_all_other(bs, key, i + 1);
    }
}

proof fn lemma_unbound_at(d: DaemonV, key: Seq<char>, i: int)
    requires
        daemon_wf(d),
        0 <= i <= d.files.len(),
        forall|j: int| 0 <= j < i ==> (#[trigger] d.files[j]).key != key,
    ensures
        forall|j: int|
            0 <= j < unbound_from(d.files, key, i).len() ==> (#[trigger] unbound_from(
                d.files,
                key,
                i,
            )[j]).key != key,
    decreases d.files.len() - i,
{
    if i < d.files.len() {
        if d.files[i].key == key {
            let rest = d.files.remove(i);
            assert(unbound_from(d.files, key, i) == rest);
            assert forall|j: int| 0 <= j < rest.len() implies (#[trigger] rest[j]).key != key by {
                if j < i {
                    assert(rest[j] == d.files[j]);
                } else {
                    assert(rest[j] == d.files[j + 1]);
                    assert(d.files[i].key != d.files[j + 1].key);
                }
            }
        } else {
            lemma_unbound_at(d, key, i + 1);
            assert(unbound_from(d.files, key, i) == unbound_from(d.files, key, i + 1));
        }
    }
}

/// A closed path is bound to nothing.
pub proof fn law_closed_is_unbound(d: DaemonV, key: Seq<char>)
    requires
        daemon_wf(d),
    ensures
        bound_to(DaemonV { files: unbound_from(d.files, key, 0), ..d }, key) is None,
{
    lemma_unbound_at(d, key, 0);
    lemma_all_other(unbound_from(d.files, key, 0), key, 0);
}

} // verus!
