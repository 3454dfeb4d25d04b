//! What stands between a planned rename and its texts: the plan must
//! still fit the session, and every touched file gets its new text.

use crate::rename::{first_lost, rename_apply_error, RenamePlanV};
use crate::session::SessionV;
use crate::source::FileId;
use crate::splice::{of_file, spliced, spliced_files, EditV};
use crate::text::slice_spec;
use vstd::prelude::*;

verus! {

/// An edit covers a name in the texts of a session.
pub open spec fn covers_name(s: SessionV, e: EditV, name: Seq<char>) -> bool {
    &&& e.file.raw < s.files.len()
    &&& slice_spec(
        s.files[e.file.raw as int].text,
        e.span.start as int,
        e.span.end as int,
    ) == Some(name)
}

proof fn lemma_lost(s: SessionV, es: Seq<EditV>, name: Seq<char>)
    ensures
        first_lost(s, es, name) is None <==> forall|i: int|
            0 <= i < es.len() ==> covers_name(s, #[trigger] es[i], name),
    decreases es.len(),
{
    if es.len() > 0 {
        let front = es.drop_last();
        lemma_lost(s, front, name);
        assert(es[es.len() - 1] == es.last());
        assert forall|i: int| 0 <= i < front.len() implies #[trigger] front[i] == es[i] by {}
        if forall|i: int| 0 <= i < es.len() ==> covers_name(s, #[trigger] es[i], name) {
            assert forall|i: int| 0 <= i < front.len() implies covers_name(
                s,
                #[trigger] front[i],
                name,
            ) by {
                assert(covers_name(s, es[i], name));
            }
        }
        if first_lost(s, es, name) is None {
            assert forall|i: int| 0 <= i < es.len() implies covers_name(
                s,
                #[trigger] es[i],
                name,
            ) by {
                if i < front.len() {
                    assert(covers_name(s, front[i], name));
                }
            }
        }
    }
}

/// A rename is applied only to the session it was planned in, at the
/// revision it was planned at, and where every edit still covers the old
/// name.
pub proof fn law_applied_rename_still_fits(s: SessionV, p: RenamePlanV, i: int)
    requires
        rename_apply_error(s, p) is None,
        0 <= i < p.edits.len(),
    ensures
        p.db_id == s.id,
        p.revision == s.revision,
        covers_name(s, p.edits[i], p.old_name),
{
    lemma_lost(s, p.edits, p.old_name);
}

/// An edit that no longer covers the old name refuses the whole rename.
pub proof fn law_lost_site_refused(s: SessionV, p: RenamePlanV, i: int)
    requires
        0 <= i < p.edits.len(),
        !covers_name(s, p.edits[i], p.old_name),
    ensures
        rename_apply_error(s, p) is Some,
{
    lemma_lost(s, p.edits, p.old_name);
}

proof fn lemma_own(es: Seq<EditV>, f: FileId)
    ensures
        of_file(es, f) == es.filter(|e: EditV| e.file == f),
        of_file(es, f).len() > 0 <==> exists|i: int|
            0 <= i < es.len() && (#[trigger] es[i]).file == f,
    decreases es.len(),
{
    reveal(Seq::filter);
    if es.len() > 0 {
        let front = es.drop_last();
        lemma_own(front, f);
        assert(es[es.len() - 1] == es.last());
        if exists|i: int| 0 <= i < front.len() && (#[trigger] front[i]).file == f {
            let i = choose|i: int| 0 <= i < front.len() && (#[trigger] front[i]).file == f;
            assert(es[i].file == f);
        }
        if exists|i: int| 0 <= i < es.len() && (#[trigger] es[i]).file == f {
            let i = choose|i: int| 0 <= i < es.len() && (#[trigger] es[i]).file == f;
            if i < front.len() {
                assert(front[i].file == f);
            }
        }
    }
}

/// A file gets a new text exactly where an edit is made in it: its own
/// text with its own edits in place.
pub proof fn law_touched_files_rewritten(
    sources: Seq<Seq<char>>,
    es: Seq<EditV>,
    n: int,
    f: usize,
    text: Seq<char>,
)
    requires
        0 <= n <= sources.len() <= usize::MAX,
    ensures
        spliced_files(sources, es, n).contains((f, text)) <==> {
            &&& f < n
            &&& exists|i: int| 0 <= i < es.len() && (#[trigger] es[i]).file.raw == f
            &&& text == spliced(
                sources[f as int],
                es.filter(|e: EditV| e.file == FileId { raw: f }),
            )
        },
    decreases n,
{
    if n > 0 {
        law_touched_files_rewritten(sources, es, n - 1, f, text);
        let k = FileId { raw: (n - 1) as usize };
        let done = spliced_files(sources, es, n - 1);
        let now = spliced_files(sources, es, n);
        lemma_own(es, k);
        lemma_own(es, FileId { raw: f });
        let own = of_file(es, k);
        if own.len() > 0 {
            let x = ((n - 1) as usize, spliced(sources[n - 1], own));
            assert(now == done.push(x));
            assert(now[done.len() as int] == x);
            if done.contains((f, text)) {
                let i = choose|i: int| 0 <= i < done.len() && done[i] == (f, text);
                assert(now[i] == (f, text));
            }
            if now.contains((f, text)) {
                let i = choose|i: int| 0 <= i < now.len() && now[i] == (f, text);
                if i < done.len() {
                    assert(done[i] == (f, text));
                } else {
                    let q = choose|q: int| 0 <= q < es.len() && (#[trigger] es[q]).file == k;
                    assert(es[q].file.raw == f);
                }
            }
        }
        if f == n - 1 && exists|i: int| 0 <= i < es.len() && (#[trigger] es[i]).file.raw == f {
            let q = choose|q: int| 0 <= q < es.len() && (#[trigger] es[q]).file.raw == f;
            assert(es[q].file == k);
        }
    }
}

} // verus!
