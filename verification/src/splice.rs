//! Splicing planned edits into source texts.
//!
//! Edits of one file are applied from the last to the first, so that the
//! offsets of those still to come stay valid.

use crate::order::{lemma_sorted_mapped, mapped, sort_by, sorted};
use crate::source::{FileId, Span};
use crate::text::{bytes_of, cat3, lemma_bytes_concat, slice, slice_spec, texts};
use vstd::prelude::*;
use vstd::string::*;
use vstd::utf8::*;

verus! {

/// One textual replacement: the name token at `span` in `file`
/// becomes `replace`. Spans are absolute within their file.
#[derive(Debug, Clone)]
pub struct RenameEdit {
    /// The file containing the site.
    pub file: FileId,
    /// Byte range of the name token to rewrite.
    pub span: Span,
    /// Replacement text (the new name).
    pub replace: String,
}

/// Model of [`RenameEdit`].
#[verifier::ext_equal]
pub struct EditV {
    pub file: FileId,
    pub span: Span,
    pub replace: Seq<char>,
}

impl RenameEdit {
    /// The model of this edit.
    pub open spec fn view(&self) -> EditV {
        EditV { file: self.file, span: self.span, replace: self.replace@ }
    }

    /// A copy.
    pub fn copy(&self) -> (r: RenameEdit)
        ensures
            r@ == self@,
    {
        RenameEdit { file: self.file, span: self.span, replace: self.replace.clone() }
    }
}

/// The models of a sequence of edits.
pub open spec fn edit_views(v: Seq<RenameEdit>) -> Seq<EditV> {
    Seq::new(v.len(), |i: int| v[i]@)
}

/// A text with the bytes of `span` replaced; a span that is no range of
/// the text, or splits a character, changes nothing.
pub open spec fn replaced(text: Seq<char>, span: Span, replace: Seq<char>) -> Seq<char> {
    if span.start <= span.end {
        match (
            slice_spec(text, 0, span.start as int),
            slice_spec(text, span.end as int, bytes_of(text).len() as int),
        ) {
            (Some(a), Some(b)) => a + replace + b,
            _ => text,
        }
    } else {
        text
    }
}

fn replace_in(text: String, span: Span, replace: &str) -> (r: String)
    ensures
        r@ == replaced(text@, span, replace@),
{
    if span.start > span.end {
        return text;
    }
    let n: usize = text.as_str().as_bytes().len();
    let head = slice(text.as_str(), 0, span.start as usize);
    let tail = slice(text.as_str(), span.end as usize, n);
    match (head, tail) {
        (Some(a), Some(b)) => cat3(a.as_str(), replace, b.as_str()),
        _ => text,
    }
}

/// A text after edits were applied, in the given order.
pub open spec fn applied(text: Seq<char>, es: Seq<EditV>) -> Seq<char>
    decreases es.len(),
{
    if es.len() == 0 {
        text
    } else {
        replaced(applied(text, es.drop_last()), es.last().span, es.last().replace)
    }
}

fn apply_all(text: &str, es: &Vec<RenameEdit>) -> (r: String)
    ensures
        r@ == applied(text@, edit_views(es@)),
{
    let ghost all = edit_views(es@);
    let mut out = text.to_owned();
    let mut i: usize = 0;
    proof {
        assert(all.take(0) =~= Seq::empty());
    }
    while i < es.len()
        invariant
            i <= es@.len(),
            all == edit_views(es@),
            out@ == applied(text@, all.take(i as int)),
        decreases es@.len() - i,
    {
        proof {
            assert(all.take(i + 1).drop_last() =~= all.take(i as int));
            assert(all.take(i + 1).last() == es@[i as int]@);
        }
        out = replace_in(out, es[i].span, es[i].replace.as_str());
        i += 1;
    }
    proof {
        assert(all.take(all.len() as int) =~= all);
    }
    out
}

/// The edits of one file, in order.
pub open spec fn of_file(es: Seq<EditV>, file: FileId) -> Seq<EditV>
    decreases es.len(),
{
    if es.len() == 0 {
        Seq::empty()
    } else {
        let done = of_file(es.drop_last(), file);
        if es.last().file == file {
            done.push(es.last())
        } else {
            done
        }
    }
}

fn edits_of(es: &Vec<RenameEdit>, file: FileId) -> (r: Vec<RenameEdit>)
    ensures
        edit_views(r@) == of_file(edit_views(es@), file),
{
    let ghost all = edit_views(es@);
    let mut out: Vec<RenameEdit> = Vec::new();
    let mut i: usize = 0;
    proof {
        assert(all.take(0) =~= Seq::empty());
        assert(edit_views(out@) =~= Seq::empty());
    }
    while i < es.len()
        invariant
            i <= es@.len(),
            all == edit_views(es@),
            edit_views(out@) == of_file(all.take(i as int), file),
        decreases es@.len() - i,
    {
        proof {
            assert(all.take(i + 1).drop_last() =~= all.take(i as int));
            assert(all.take(i + 1).last() == es@[i as int]@);
        }
        if es[i].file == file {
            let ghost before = edit_views(out@);
            let e = es[i].copy();
            out.push(e);
            proof {
                assert(edit_views(out@) =~= before.push(es@[i as int]@));
            }
        }
        i += 1;
    }
    proof {
        assert(all.take(all.len() as int) =~= all);
    }
    out
}

/// Later sites first.
pub open spec fn later_first() -> spec_fn(EditV, EditV) -> bool {
    |a: EditV, b: EditV| a.span.start >= b.span.start
}

fn sort_later_first(es: Vec<RenameEdit>) -> (r: Vec<RenameEdit>)
    ensures
        edit_views(r@) == sorted(edit_views(es@), later_first()),
{
    let ghost f = |e: RenameEdit| e@;
    let ghost le = |a: RenameEdit, b: RenameEdit| later_first()(a@, b@);
    proof {
        lemma_sorted_mapped(es@, f, le, later_first());
        assert(mapped(es@, f) =~= edit_views(es@));
    }
    let before = |a: &RenameEdit, b: &RenameEdit| -> (r: bool)
        ensures
            r == (a.span.start >= b.span.start),
        { a.span.start >= b.span.start };
    let r = sort_by(es, before, Ghost(le));
    proof {
        assert(mapped(r@, f) =~= edit_views(r@));
    }
    r
}

/// The text of a file after its edits were spliced in.
pub open spec fn spliced(text: Seq<char>, es: Seq<EditV>) -> Seq<char> {
    applied(text, sorted(es, later_first()))
}

/// A file and its text.
pub type FileText = (usize, String);

/// The models of a sequence of files with their texts.
pub open spec fn file_texts(v: Seq<(usize, String)>) -> Seq<(usize, Seq<char>)> {
    Seq::new(v.len(), |i: int| (v[i].0, v[i].1@))
}

/// The files below `n` that have edits, with their new texts, in order.
pub open spec fn spliced_files(sources: Seq<Seq<char>>, es: Seq<EditV>, n: int) -> Seq<
    (usize, Seq<char>),
>
    decreases n,
{
    if n <= 0 {
        Seq::empty()
    } else {
        let done = spliced_files(sources, es, n - 1);
        let own = of_file(es, FileId { raw: (n - 1) as usize });
        if own.len() > 0 {
            done.push(((n - 1) as usize, spliced(sources[n - 1], own)))
        } else {
            done
        }
    }
}

/// Splices edits into post-edit sources: one text per touched file, in
/// file order.
pub fn splice_sources(sources: &Vec<String>, es: &Vec<RenameEdit>) -> (r: Vec<(usize, String)>)
    ensures
        file_texts(r@) == spliced_files(
            texts(sources@),
            edit_views(es@),
            sources@.len() as int,
        ),
{
    let mut out: Vec<(usize, String)> = Vec::new();
    let n: usize = sources.len();
    let mut f: usize = 0;
    proof {
        assert(file_texts(out@) =~= Seq::empty());
    }
    while f < n
        invariant
            f <= n,
            n == sources@.len(),
            file_texts(out@) == spliced_files(texts(sources@), edit_views(es@), f as int),
        decreases n - f,
    {
        let own = edits_of(es, FileId { raw: f });
        if own.len() > 0 {
            assert(edit_views(own@).len() == own@.len());
            let order = sort_later_first(own);
            let text = apply_all(sources[f].as_str(), &order);
            let ghost before = file_texts(out@);
            let ghost tv = text@;
            out.push((f, text));
            proof {
                assert(texts(sources@)[f as int] == sources@[f as int]@);
                assert(file_texts(out@) =~= before.push((f, tv)));
            }
        } else {
            assert(edit_views(own@).len() == own@.len());
        }
        f += 1;
    }
    out
}

// ---------- what splicing does to the bytes ----------

/// Whether an edit lies inside a text and splits no character of it.
pub open spec fn fits(b: Seq<u8>, e: EditV) -> bool {
    &&& e.span.start <= e.span.end <= b.len()
    &&& is_char_boundary(b, e.span.start as int)
    &&& is_char_boundary(b, e.span.end as int)
}

/// Whether edits fit a text, come from the last to the first, and do
/// not overlap.
pub open spec fn disjoint(b: Seq<u8>, es: Seq<EditV>) -> bool {
    &&& forall|i: int| 0 <= i < es.len() ==> fits(b, #[trigger] es[i])
    &&& forall|i: int, j: int|
        0 <= i < j < es.len() ==> (#[trigger] es[j]).span.end <= (#[trigger] es[i]).span.start
}

/// The bytes from position `p` on, each edit's range — they come from
/// the last to the first — replaced and every other byte kept.
pub open spec fn woven(b: Seq<u8>, es: Seq<EditV>, p: int) -> Seq<u8>
    decreases es.len(),
{
    if es.len() == 0 {
        b.skip(p)
    } else {
        b.subrange(p, es.last().span.start as int) + bytes_of(es.last().replace) + woven(
            b,
            es.drop_last(),
            es.last().span.end as int,
        )
    }
}

/// Up to the first edit a woven text is the text itself.
proof fn lemma_woven_prefix(b: Seq<u8>, es: Seq<EditV>, p: int, q: int)
    requires
        0 <= p <= q <= b.len(),
        disjoint(b, es),
        es.len() > 0 ==> q <= es.last().span.start,
    ensures
        woven(b, es, p) == b.subrange(p, q) + woven(b, es, q),
{
    if es.len() == 0 {
        assert(b.skip(p) =~= b.subrange(p, q) + b.skip(q));
    } else {
        let s = es.last().span.start as int;
        let rest = bytes_of(es.last().replace) + woven(b, es.drop_last(), es.last().span.end as int);
        assert(fits(b, es.last()));
        assert(woven(b, es, p) =~= b.subrange(p, s) + rest);
        assert(woven(b, es, q) =~= b.subrange(q, s) + rest);
        assert(b.subrange(p, q) + (b.subrange(q, s) + rest) =~= b.subrange(p, s) + rest);
    }
}

/// The bytes of a text in which a range was replaced.
proof fn lemma_replaced_bytes(text: Seq<char>, span: Span, replace: Seq<char>)
    requires
        span.start <= span.end <= bytes_of(text).len(),
        is_char_boundary(bytes_of(text), span.start as int),
        is_char_boundary(bytes_of(text), span.end as int),
    ensures
        bytes_of(replaced(text, span, replace)) == bytes_of(text).take(span.start as int)
            + bytes_of(replace) + bytes_of(text).skip(span.end as int),
{
    let b = bytes_of(text);
    let n = b.len() as int;
    encode_utf8_valid_utf8(text);
    is_char_boundary_start_end_of_seq(b);
    valid_utf8_split(b, span.start as int);
    valid_utf8_split(b, span.end as int);
    let head = b.subrange(0, span.start as int);
    let tail = b.subrange(span.end as int, n);
    decode_utf8_encode_utf8(head);
    decode_utf8_encode_utf8(tail);
    let a = decode_utf8(head);
    let c = decode_utf8(tail);
    lemma_bytes_concat(a, replace);
    lemma_bytes_concat(a + replace, c);
    assert(head =~= b.take(span.start as int));
    assert(tail =~= b.skip(span.end as int));
}

/// Two encoded texts in a row are an encoded text, and the seam is one of
/// its boundaries.
proof fn lemma_valid_concat(a: Seq<u8>, b: Seq<u8>)
    requires
        valid_utf8(a),
        valid_utf8(b),
    ensures
        valid_utf8(a + b),
        is_char_boundary(a + b, a.len() as int),
{
    decode_utf8_encode_utf8(a);
    decode_utf8_encode_utf8(b);
    lemma_bytes_concat(decode_utf8(a), decode_utf8(b));
    encode_utf8_valid_utf8(decode_utf8(a) + decode_utf8(b));
    if b.len() == 0 {
        is_char_boundary_start_end_of_seq(a + b);
    } else {
        is_char_boundary_start_end_of_seq(b);
        is_char_boundary_iff_not_is_continuation_byte(b, 0);
        is_char_boundary_iff_not_is_continuation_byte(a + b, a.len() as int);
    }
}

/// What stands between two boundaries of a text is an encoded text.
proof fn lemma_valid_between(b: Seq<u8>, p: int, q: int)
    requires
        valid_utf8(b),
        0 <= p <= q <= b.len(),
        is_char_boundary(b, p),
        is_char_boundary(b, q),
    ensures
        valid_utf8(b.subrange(p, q)),
        valid_utf8(b.skip(p)),
{
    valid_utf8_split(b, p);
    let tail = b.subrange(p, b.len() as int);
    assert(tail =~= b.skip(p));
    if q == b.len() {
        is_char_boundary_start_end_of_seq(tail);
    } else {
        is_char_boundary_iff_not_is_continuation_byte(b, q);
        is_char_boundary_iff_not_is_continuation_byte(tail, q - p);
    }
    valid_utf8_split(tail, q - p);
    assert(tail.subrange(0, q - p) =~= b.subrange(p, q));
}

proof fn lemma_woven_valid(b: Seq<u8>, es: Seq<EditV>, p: int)
    requires
        valid_utf8(b),
        0 <= p <= b.len(),
        is_char_boundary(b, p),
        disjoint(b, es),
        es.len() > 0 ==> p <= es.last().span.start,
    ensures
        valid_utf8(woven(b, es, p)),
    decreases es.len(),
{
    if es.len() == 0 {
        is_char_boundary_start_end_of_seq(b);
        lemma_valid_between(b, p, b.len() as int);
    } else {
        let e = es.last();
        assert(fits(b, e));
        lemma_valid_between(b, p, e.span.start as int);
        encode_utf8_valid_utf8(e.replace);
        lemma_woven_valid(b, es.drop_last(), e.span.end as int);
        let head = b.subrange(p, e.span.start as int);
        lemma_valid_concat(head, bytes_of(e.replace));
        lemma_valid_concat(
            head + bytes_of(e.replace),
            woven(b, es.drop_last(), e.span.end as int),
        );
    }
}

/// Splicing is exact: every planned range holds its replacement, and
/// every other byte of the file stays as it was.
pub proof fn law_splice_exact(text: Seq<char>, es: Seq<EditV>)
    requires
        disjoint(bytes_of(text), es),
    ensures
        bytes_of(applied(text, es)) == woven(bytes_of(text), es, 0),
    decreases es.len(),
{
    let b = bytes_of(text);
    encode_utf8_valid_utf8(text);
    if es.len() == 0 {
        assert(b.skip(0) =~= b);
    } else {
        let rest = es.drop_last();
        let e = es.last();
        let start = e.span.start as int;
        let end = e.span.end as int;
        assert(fits(b, e));
        law_splice_exact(text, rest);
        lemma_woven_prefix(b, rest, 0, end);
        let t = applied(text, rest);
        let bt = bytes_of(t);
        let tail = woven(b, rest, end);
        let head = b.subrange(0, end);
        assert(bt == head + tail);
        is_char_boundary_start_end_of_seq(b);
        lemma_valid_between(b, 0, end);
        lemma_woven_valid(b, rest, end);
        lemma_valid_concat(head, tail);
        if start < end {
            is_char_boundary_iff_not_is_continuation_byte(b, start);
            is_char_boundary_iff_not_is_continuation_byte(bt, start);
        }
        lemma_replaced_bytes(t, e.span, e.replace);
        assert(bt.take(start) =~= b.subrange(0, start));
        assert(bt.skip(end) =~= tail);
    }
}

} // verus!
