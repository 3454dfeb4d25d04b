//! What each patch op does to the text: which bytes its edit covers,
//! what it puts there, and when it is refused.

use crate::ast::{item_span, path_text, type_span, DataDeclV, FnDeclV, ItemV};
use crate::code::Code;
use crate::patch::{PatchEditV, PatchErrorV, PatchOp};
use crate::patch_edits::{
    field_named, op_edits_of, param_named, target_item, tree_of, use_named, OpEditsV,
};
use crate::seam::{
    back_blanks, back_spaces, canonical_path, covered_text, ending_of, first_byte, is_space,
    skip_spaces,
};
use crate::snapshot::{source_of, SnapV};
use crate::source::{FileId, Span};
use crate::target::module_file_spec;
use crate::text::{bytes_of, opt_text, trimmed};
use vstd::prelude::*;
use vstd::utf8::*;

verus! {

// ---------- words for places in a text ----------

/// Nothing but white space stands between two offsets.
pub open spec fn blank(b: Seq<u8>, from: int, to: int) -> bool {
    from <= to && forall|i: int| from <= i < to && 0 <= i < b.len() ==> is_space(#[trigger] b[i])
}

/// The first offset from `from` on that holds no white space.
pub open spec fn first_solid(b: Seq<u8>, from: int, p: int) -> bool {
    &&& 0 <= from <= p
    &&& p <= b.len() || p == from
    &&& blank(b, from, p)
    &&& p < b.len() ==> !is_space(b[p])
}

/// The offset behind the last byte in front of `to` that is no white
/// space.
pub open spec fn last_solid(b: Seq<u8>, p: int, to: int) -> bool {
    &&& 0 <= p <= to <= b.len()
    &&& blank(b, p, to)
    &&& p > 0 ==> !is_space(b[p - 1])
}

/// The two bytes that open a comment stand at an offset.
pub open spec fn comment_starts(b: Seq<u8>, p: int) -> bool {
    0 <= p && p + 1 < b.len() && b[p] == 0x2f && (b[p + 1] == 0x2f || b[p + 1] == 0x2a)
}

/// An op comes down to one edit.
pub open spec fn one_edit(r: Result<OpEditsV, PatchErrorV>) -> Option<PatchEditV> {
    match r {
        Ok(o) => if o.edits.len() == 1 {
            Some(o.edits[0])
        } else {
            None
        },
        Err(_) => None,
    }
}

/// An op comes down to putting `text` in the place of a span of a file.
pub open spec fn puts(
    s: SnapV,
    r: Result<OpEditsV, PatchErrorV>,
    op: usize,
    file: FileId,
    start: int,
    end: int,
    text: Seq<char>,
) -> bool {
    match one_edit(r) {
        Some(e) => {
            &&& e.file == file
            &&& e.span.start == start
            &&& e.span.end == end
            &&& e.replace == text
            &&& e.op == op
            &&& start < end ==> e.expected == covered_text(source_of(s, file), e.span)
        },
        None => false,
    }
}

/// An op is refused as not supported, with `E_UNSUPPORTED_TARGET`.
pub open spec fn unsupported(r: Result<OpEditsV, PatchErrorV>) -> bool {
    r matches Err(PatchErrorV::Unsupported(d)) && d.code == Code::UnsupportedTarget
}

proof fn lemma_skip(b: Seq<u8>, from: int, p: int)
    requires
        first_solid(b, from, p),
    ensures
        skip_spaces(b, from) == p,
    decreases p - from,
{
    if from < p {
        assert(is_space(b[from]));
        assert forall|i: int| from + 1 <= i < p && 0 <= i < b.len() implies is_space(
            #[trigger] b[i],
        ) by {}
        lemma_skip(b, from + 1, p);
    }
}

proof fn lemma_back(b: Seq<u8>, p: int, to: int)
    requires
        last_solid(b, p, to),
    ensures
        back_spaces(b, to) == p,
    decreases to - p,
{
    if p < to {
        assert(is_space(b[to - 1]));
        lemma_back(b, p, to - 1);
    }
}

proof fn lemma_back_blanks(b: Seq<u8>, p: int)
    requires
        0 <= p <= b.len(),
    ensures
        0 <= back_blanks(b, p) <= p,
        forall|i: int|
            back_blanks(b, p) <= i < p ==> #[trigger] b[i] == 0x20 || b[i] == 0x9,
        back_blanks(b, p) > 0 ==> b[back_blanks(b, p) - 1] != 0x20 && b[back_blanks(b, p) - 1]
            != 0x9,
    decreases p,
{
    if 0 < p && (b[p - 1] == 0x20 || b[p - 1] == 0x9) {
        lemma_back_blanks(b, p - 1);
    }
}

proof fn lemma_first_byte(b: Seq<u8>, p: int, x: u8)
    requires
        0 <= p,
    ensures
        match first_byte(b, p, x) {
            Some(q) => p <= q < b.len() && b[q] == x && forall|i: int|
                p <= i < q ==> #[trigger] b[i] != x,
            None => forall|i: int| p <= i < b.len() ==> #[trigger] b[i] != x,
        },
    decreases b.len() - p,
{
    if p < b.len() && b[p] != x {
        lemma_first_byte(b, p + 1, x);
    }
}

// ---------- functions ----------

/// `replace_body` puts the given text in the place of the function's
/// block, from the opening brace to the end of the block, and nothing
/// else. It is refused for a `data`, and where something other than white
/// space stands in front of the brace.
pub proof fn law_replace_body(
    s: SnapV,
    root: FileId,
    seq: usize,
    op: PatchOp,
    added: Option<Seq<char>>,
    p: int,
)
    requires
        op is ReplaceBody,
        target_item(s, root, op->ReplaceBody_symbol@) is Ok,
        target_item(s, root, op->ReplaceBody_symbol@)->Ok_0.item matches ItemV::Fn(f) ==> {
            let b = bytes_of(source_of(s, target_item(s, root, op->ReplaceBody_symbol@)->Ok_0.file));
            first_solid(b, f.body.span.start as int, p) && p <= u32::MAX
        },
    ensures
        ({
            let t = target_item(s, root, op->ReplaceBody_symbol@)->Ok_0;
            let b = bytes_of(source_of(s, t.file));
            let r = op_edits_of(s, root, seq, op, added);
            match t.item {
                ItemV::Data(_) => unsupported(r),
                ItemV::Fn(f) => if 0 <= p < b.len() && b[p] == 0x7b {
                    one_edit(r) matches Some(e) && e.file == t.file && e.span.start == p
                        && e.span.end == f.body.span.end && e.replace == op->ReplaceBody_body@
                        && e.op == seq && e.expected == covered_text(
                        source_of(s, t.file),
                        e.span,
                    )
                } else {
                    unsupported(r)
                },
            }
        }),
{
    let t = target_item(s, root, op->ReplaceBody_symbol@)->Ok_0;
    if let ItemV::Fn(f) = t.item {
        lemma_skip(bytes_of(source_of(s, t.file)), f.body.span.start as int, p);
    }
}

/// `remove_def` takes out the whole item and nothing in front of it.
/// Behind the item only the end of its line goes with it: both bytes of
/// `\r\n`, or the one of `\n`, or nothing where no line ends.
pub proof fn law_remove_def(
    s: SnapV,
    root: FileId,
    seq: usize,
    op: PatchOp,
    added: Option<Seq<char>>,
)
    requires
        op is RemoveDef,
        target_item(s, root, op->RemoveDef_symbol@) is Ok,
        bytes_of(source_of(s, target_item(s, root, op->RemoveDef_symbol@)->Ok_0.file)).len()
            <= u32::MAX,
    ensures
        ({
            let t = target_item(s, root, op->RemoveDef_symbol@)->Ok_0;
            let b = bytes_of(source_of(s, t.file));
            let end = item_span(t.item).end as int;
            &&& one_edit(op_edits_of(s, root, seq, op, added)) matches Some(e)
            &&& e.file == t.file && e.op == seq && e.replace.len() == 0
            &&& e.span.start == item_span(t.item).start
            &&& end <= e.span.end <= end + 2
            &&& forall|i: int|
                end <= i < e.span.end ==> 0 <= i < b.len() && (#[trigger] b[i] == 0xa || b[i]
                    == 0xd)
            &&& e.span.end > end ==> b[e.span.end - 1] == 0xa
            &&& 0 <= end < b.len() && b[end] == 0xa ==> e.span.end == end + 1
            &&& end + 1 < b.len() && b[end] == 0xd && b[end + 1] == 0xa ==> e.span.end == end + 2
            &&& e.expected == covered_text(source_of(s, t.file), e.span)
        }),
{
}

/// `set_param_type` puts the given type in the place of the annotation of
/// the first parameter of that name, from its first byte that is no white
/// space to its end. It is refused where a comment stands there, for a
/// `data`, and for a name that no parameter bears.
pub proof fn law_set_param_type(
    s: SnapV,
    root: FileId,
    seq: usize,
    op: PatchOp,
    added: Option<Seq<char>>,
    f: FnDeclV,
    i: int,
    p: int,
)
    requires
        op is SetParamType,
        target_item(s, root, op->SetParamType_symbol@) is Ok,
        target_item(s, root, op->SetParamType_symbol@)->Ok_0.item == ItemV::Fn(f),
        0 <= i <= f.params.len(),
        forall|j: int| 0 <= j < i ==> (#[trigger] f.params[j]).name.name != op->SetParamType_param@,
        i < f.params.len() ==> {
            let b = bytes_of(
                source_of(s, target_item(s, root, op->SetParamType_symbol@)->Ok_0.file),
            );
            &&& f.params[i].name.name == op->SetParamType_param@
            &&& first_solid(b, type_span(f.params[i].ty).start as int, p)
            &&& p <= b.len() <= u32::MAX
            &&& is_char_boundary(b, p)
        },
    ensures
        ({
            let t = target_item(s, root, op->SetParamType_symbol@)->Ok_0;
            let b = bytes_of(source_of(s, t.file));
            let r = op_edits_of(s, root, seq, op, added);
            if i == f.params.len() {
                r matches Err(PatchErrorV::UnknownSymbol(d)) && d.code == Code::UnknownSymbol
            } else if comment_starts(b, p) {
                unsupported(r)
            } else {
                puts(
                    s,
                    r,
                    seq,
                    t.file,
                    p,
                    type_span(f.params[i].ty).end as int,
                    trimmed(op->SetParamType_ty@),
                )
            }
        }),
{
    let t = target_item(s, root, op->SetParamType_symbol@)->Ok_0;
    let b = bytes_of(source_of(s, t.file));
    lemma_param_named(f.params, op->SetParamType_param@, i);
    if i < f.params.len() {
        lemma_skip(b, type_span(f.params[i].ty).start as int, p);
    }
}

proof fn lemma_param_named(ps: Seq<crate::ast::ParamV>, name: Seq<char>, i: int)
    requires
        0 <= i <= ps.len(),
        forall|j: int| 0 <= j < i ==> (#[trigger] ps[j]).name.name != name,
        i < ps.len() ==> ps[i].name.name == name,
    ensures
        param_named(ps, name) == (if i < ps.len() {
            Some(i)
        } else {
            None
        }),
    decreases ps.len(),
{
    if ps.len() > 0 {
        let front = ps.drop_last();
        let k = if i < front.len() {
            i
        } else {
            front.len() as int
        };
        assert forall|j: int| 0 <= j < k implies (#[trigger] front[j]).name.name != name by {
            assert(front[j] == ps[j]);
        }
        if k < front.len() {
            assert(front[k] == ps[k]);
        }
        lemma_param_named(front, name, k);
        assert(ps[ps.len() - 1] == ps.last());
    }
}

/// `set_ret_type` with a type, on a function that has one, puts it in
/// the place of the annotation; a comment in front of it refuses the op.
pub proof fn law_set_ret_type_replaces(
    s: SnapV,
    root: FileId,
    seq: usize,
    op: PatchOp,
    added: Option<Seq<char>>,
    f: FnDeclV,
    p: int,
)
    requires
        op is SetRetType,
        op->SetRetType_ty is Some,
        target_item(s, root, op->SetRetType_symbol@) is Ok,
        target_item(s, root, op->SetRetType_symbol@)->Ok_0.item == ItemV::Fn(f),
        f.ret is Some,
        ({
            let b = bytes_of(source_of(s, target_item(s, root, op->SetRetType_symbol@)->Ok_0.file));
            &&& first_solid(b, type_span(f.ret->0).start as int, p)
            &&& p <= b.len() <= u32::MAX
            &&& is_char_boundary(b, p)
        }),
    ensures
        ({
            let t = target_item(s, root, op->SetRetType_symbol@)->Ok_0;
            let b = bytes_of(source_of(s, t.file));
            let r = op_edits_of(s, root, seq, op, added);
            if comment_starts(b, p) {
                unsupported(r)
            } else {
                puts(
                    s,
                    r,
                    seq,
                    t.file,
                    p,
                    type_span(f.ret->0).end as int,
                    trimmed(op->SetRetType_ty->0@),
                )
            }
        }),
{
    let t = target_item(s, root, op->SetRetType_symbol@)->Ok_0;
    let b = bytes_of(source_of(s, t.file));
    lemma_skip(b, type_span(f.ret->0).start as int, p);
}

/// `set_ret_type` with a type, on a function that has none, puts an arrow
/// and the type behind the closing parenthesis of the parameter list.
pub proof fn law_set_ret_type_adds(
    s: SnapV,
    root: FileId,
    seq: usize,
    op: PatchOp,
    added: Option<Seq<char>>,
    f: FnDeclV,
    p: int,
)
    requires
        op is SetRetType,
        op->SetRetType_ty is Some,
        target_item(s, root, op->SetRetType_symbol@) is Ok,
        target_item(s, root, op->SetRetType_symbol@)->Ok_0.item == ItemV::Fn(f),
        f.ret is None,
        ({
            let b = bytes_of(source_of(s, target_item(s, root, op->SetRetType_symbol@)->Ok_0.file));
            last_solid(b, p, f.body.span.start as int)
        }),
    ensures
        ({
            let t = target_item(s, root, op->SetRetType_symbol@)->Ok_0;
            let b = bytes_of(source_of(s, t.file));
            let r = op_edits_of(s, root, seq, op, added);
            if p > 0 && b[p - 1] == 0x29 {
                puts(s, r, seq, t.file, p, p, " -> "@ + trimmed(op->SetRetType_ty->0@))
            } else {
                unsupported(r)
            }
        }),
{
    let t = target_item(s, root, op->SetRetType_symbol@)->Ok_0;
    let b = bytes_of(source_of(s, t.file));
    lemma_back(b, p, f.body.span.start as int);
}

/// `set_ret_type` without a type takes out the arrow, the annotation and
/// the blanks in front of the arrow, and nothing else. It is refused
/// where there is no annotation, and where something other than white
/// space stands between the arrow and the type.
pub proof fn law_set_ret_type_drops(
    s: SnapV,
    root: FileId,
    seq: usize,
    op: PatchOp,
    added: Option<Seq<char>>,
    f: FnDeclV,
    p: int,
    q: int,
)
    requires
        op is SetRetType,
        op->SetRetType_ty is None,
        target_item(s, root, op->SetRetType_symbol@) is Ok,
        target_item(s, root, op->SetRetType_symbol@)->Ok_0.item == ItemV::Fn(f),
        f.ret matches Some(ret) ==> {
            let b = bytes_of(source_of(s, target_item(s, root, op->SetRetType_symbol@)->Ok_0.file));
            &&& first_solid(b, type_span(ret).start as int, p)
            &&& p <= b.len() <= u32::MAX
            &&& is_char_boundary(b, p)
            &&& last_solid(b, q, p)
        },
    ensures
        ({
            let t = target_item(s, root, op->SetRetType_symbol@)->Ok_0;
            let b = bytes_of(source_of(s, t.file));
            let r = op_edits_of(s, root, seq, op, added);
            match f.ret {
                None => unsupported(r),
                Some(ret) => if comment_starts(b, p) || q < 2 || b[q - 2] != 0x2d || b[q - 1]
                    != 0x3e {
                    unsupported(r)
                } else {
                    &&& one_edit(r) matches Some(e)
                    &&& e.file == t.file && e.op == seq && e.replace.len() == 0
                    &&& e.span.end == type_span(ret).end
                    &&& e.span.start <= q - 2
                    &&& forall|i: int|
                        e.span.start <= i < q - 2 ==> #[trigger] b[i] == 0x20 || b[i] == 0x9
                    &&& e.span.start > 0 ==> b[e.span.start - 1] != 0x20 && b[e.span.start - 1]
                        != 0x9
                },
            }
        }),
{
    let t = target_item(s, root, op->SetRetType_symbol@)->Ok_0;
    let b = bytes_of(source_of(s, t.file));
    if let Some(ret) = f.ret {
        lemma_skip(b, type_span(ret).start as int, p);
        lemma_back(b, q, p);
        if q >= 2 {
            lemma_back_blanks(b, q - 2);
        }
    }
}

// ---------- files ----------

/// The file an op on a module means: the root without a name, the file
/// that provides the module with one.
pub open spec fn file_meant(s: SnapV, root: FileId, module: Option<Seq<char>>) -> Option<FileId> {
    match module {
        None => Some(root),
        Some(m) => module_file_spec(s.scope, s.names, m),
    }
}

/// An op on a module that no file provides is refused, whichever it is.
pub proof fn law_unknown_module_refused(
    s: SnapV,
    root: FileId,
    seq: usize,
    op: PatchOp,
    added: Option<Seq<char>>,
)
    requires
        op is AddDef || op is AddUse || op is RemoveUse,
        file_meant(
            s,
            root,
            match op {
                PatchOp::AddDef { module, text } => opt_text(module),
                PatchOp::AddUse { module, path, alias } => opt_text(module),
                PatchOp::RemoveUse { module, path, alias } => opt_text(module),
                _ => None,
            },
        ) is None,
    ensures
        op_edits_of(s, root, seq, op, added) matches Err(PatchErrorV::UnknownModule(d)) && d.code
            == Code::UnknownModule,
{
}

/// `add_def` puts the item at the end of the file, on lines of its own:
/// behind a line end that is added where the file does not end in one,
/// and followed by one.
pub proof fn law_add_def(
    s: SnapV,
    root: FileId,
    seq: usize,
    op: PatchOp,
    added: Option<Seq<char>>,
    file: FileId,
)
    requires
        op is AddDef,
        file_meant(s, root, opt_text(op->AddDef_module)) == Some(file),
        bytes_of(source_of(s, file)).len() <= u32::MAX,
    ensures
        ({
            let b = bytes_of(source_of(s, file));
            &&& one_edit(op_edits_of(s, root, seq, op, added)) matches Some(e)
            &&& e.file == file && e.op == seq && e.expected.len() == 0
            &&& e.span.start == b.len() && e.span.end == b.len()
            &&& e.replace == (if b.len() == 0 || b.last() == 0xa {
                trimmed(op->AddDef_text@) + "\n"@
            } else {
                "\n"@ + trimmed(op->AddDef_text@) + "\n"@
            })
        }),
{
}

/// The line that imports a path, under an alias where there is one.
pub open spec fn use_line(path: Seq<char>, alias: Option<Seq<char>>) -> Seq<char> {
    match alias {
        Some(a) => "use "@ + canonical_path(path) + " as "@ + trimmed(a) + ";"@,
        None => "use "@ + canonical_path(path) + ";"@,
    }
}

/// `add_use` puts one import line into the file, ended as the file ends
/// its lines: behind the line of the last import where there is one, in
/// front of the first item otherwise, and at the start of an empty file.
pub proof fn law_add_use(
    s: SnapV,
    root: FileId,
    seq: usize,
    op: PatchOp,
    added: Option<Seq<char>>,
    file: FileId,
)
    requires
        op is AddUse,
        file_meant(s, root, opt_text(op->AddUse_module)) == Some(file),
        bytes_of(source_of(s, file)).len() <= u32::MAX,
    ensures
        ({
            let src = source_of(s, file);
            let b = bytes_of(src);
            let ast = tree_of(s, file);
            let line = use_line(op->AddUse_path@, opt_text(op->AddUse_alias)) + ending_of(src);
            &&& one_edit(op_edits_of(s, root, seq, op, added)) matches Some(e)
            &&& e.file == file && e.op == seq && e.expected.len() == 0
            &&& e.span.start == e.span.end
            &&& ast.uses.len() == 0 && ast.items.len() == 0 ==> e.span.start == 0 && e.replace
                == line
            &&& ast.uses.len() == 0 && ast.items.len() > 0 ==> e.span.start == item_span(
                ast.items[0],
            ).start && e.replace == line
            &&& ast.uses.len() > 0 ==> {
                let end = ast.uses[ast.uses.len() - 1].span.end as int;
                ||| {
                    &&& end < e.span.start <= b.len() && b[e.span.start - 1] == 0xa
                    &&& forall|i: int| end <= i < e.span.start - 1 ==> #[trigger] b[i] != 0xa
                    &&& e.replace == line
                }
                ||| {
                    &&& forall|i: int| end <= i < b.len() ==> #[trigger] b[i] != 0xa
                    &&& e.span.start == b.len()
                    &&& e.replace == ending_of(src) + line
                }
            }
        }),
{
    let src = source_of(s, file);
    let b = bytes_of(src);
    let ast = tree_of(s, file);
    let decl = use_line(op->AddUse_path@, opt_text(op->AddUse_alias));
    if ast.uses.len() > 0 {
        let end = ast.uses[ast.uses.len() - 1].span.end as int;
        assert(ast.uses.last() == ast.uses[ast.uses.len() - 1]);
        lemma_first_byte(b, end, 0xa);
        assert(ending_of(src) + decl + ending_of(src) =~= ending_of(src) + (decl + ending_of(src)));
    }
}

/// A `use` imports a path, under an alias where one is given.
pub open spec fn writes_use(
    u: crate::ast::UseDeclV,
    path: Seq<char>,
    alias: Option<Seq<char>>,
) -> bool {
    &&& path_text(u.path.segs) == canonical_path(path)
    &&& u.alias is Some <==> alias is Some
    &&& u.alias is Some && alias is Some ==> u.alias->0.name == trimmed(alias->0)
}

proof fn lemma_use_named(
    us: Seq<crate::ast::UseDeclV>,
    path: Seq<char>,
    alias: Option<Seq<char>>,
    i: int,
)
    requires
        0 <= i <= us.len(),
        forall|j: int| 0 <= j < i ==> !writes_use(#[trigger] us[j], path, alias),
        i < us.len() ==> writes_use(us[i], path, alias),
    ensures
        use_named(us, path, alias) == (if i < us.len() {
            Some(i)
        } else {
            None
        }),
    decreases us.len(),
{
    if us.len() > 0 {
        let front = us.drop_last();
        let k = if i < front.len() {
            i
        } else {
            front.len() as int
        };
        assert forall|j: int| 0 <= j < k implies !writes_use(#[trigger] front[j], path, alias) by {
            assert(front[j] == us[j]);
        }
        if k < front.len() {
            assert(front[k] == us[k]);
        }
        lemma_use_named(front, path, alias, k);
        assert(us[us.len() - 1] == us.last());
    }
}

/// `remove_use` takes out the first declaration that imports the path
/// under the alias, whole, with the end of its line and nothing else. A
/// declaration under another alias, or with one where none is given, is
/// not meant; where none is left the op is refused.
pub proof fn law_remove_use(
    s: SnapV,
    root: FileId,
    seq: usize,
    op: PatchOp,
    added: Option<Seq<char>>,
    file: FileId,
    i: int,
)
    requires
        op is RemoveUse,
        file_meant(s, root, opt_text(op->RemoveUse_module)) == Some(file),
        bytes_of(source_of(s, file)).len() <= u32::MAX,
        0 <= i <= tree_of(s, file).uses.len(),
        forall|j: int|
            0 <= j < i ==> !writes_use(
                #[trigger] tree_of(s, file).uses[j],
                op->RemoveUse_path@,
                opt_text(op->RemoveUse_alias),
            ),
        i < tree_of(s, file).uses.len() ==> writes_use(
            tree_of(s, file).uses[i],
            op->RemoveUse_path@,
            opt_text(op->RemoveUse_alias),
        ),
    ensures
        ({
            let b = bytes_of(source_of(s, file));
            let us = tree_of(s, file).uses;
            let r = op_edits_of(s, root, seq, op, added);
            if i == us.len() {
                r matches Err(PatchErrorV::UnknownSymbol(d)) && d.code == Code::UnknownSymbol
            } else {
                let end = us[i].span.end as int;
                &&& one_edit(r) matches Some(e)
                &&& e.file == file && e.op == seq && e.replace.len() == 0
                &&& e.span.start == us[i].span.start
                &&& end <= e.span.end <= end + 2
                &&& forall|k: int|
                    end <= k < e.span.end ==> 0 <= k < b.len() && (#[trigger] b[k] == 0xa || b[k]
                        == 0xd)
                &&& e.span.end > end ==> b[e.span.end - 1] == 0xa
                &&& end < b.len() && b[end] == 0xa ==> e.span.end == end + 1
                &&& end + 1 < b.len() && b[end] == 0xd && b[end + 1] == 0xa ==> e.span.end == end
                    + 2
            }
        }),
{
    lemma_use_named(
        tree_of(s, file).uses,
        op->RemoveUse_path@,
        opt_text(op->RemoveUse_alias),
        i,
    );
}

// ---------- fields ----------

/// `add_field` puts the declaration behind the last field, after the same
/// white space that stands in front of that field's name; in a `data`
/// without fields it goes behind the opening brace. It is refused for a
/// function.
pub proof fn law_add_field(
    s: SnapV,
    root: FileId,
    seq: usize,
    op: PatchOp,
    added: Option<Seq<char>>,
    d: DataDeclV,
    p: int,
)
    requires
        op is AddField,
        target_item(s, root, op->AddField_symbol@) is Ok,
        target_item(s, root, op->AddField_symbol@)->Ok_0.item == ItemV::Data(d),
        d.fields.len() > 0,
        ({
            let b = bytes_of(source_of(s, target_item(s, root, op->AddField_symbol@)->Ok_0.file));
            last_solid(b, p, d.fields[d.fields.len() - 1].name.span.start as int)
        }),
    ensures
        ({
            let t = target_item(s, root, op->AddField_symbol@)->Ok_0;
            let last = d.fields[d.fields.len() - 1];
            puts(
                s,
                op_edits_of(s, root, seq, op, added),
                seq,
                t.file,
                last.span.end as int,
                last.span.end as int,
                covered_text(
                    source_of(s, t.file),
                    Span { start: p as u32, end: last.name.span.start },
                ) + (trimmed(op->AddField_field@) + ": "@ + trimmed(op->AddField_ty@) + ";"@),
            )
        }),
{
    let t = target_item(s, root, op->AddField_symbol@)->Ok_0;
    let b = bytes_of(source_of(s, t.file));
    let last = d.fields[d.fields.len() - 1];
    assert(d.fields.last() == last);
    lemma_back(b, p, last.name.span.start as int);
}

proof fn lemma_field_named(fs: Seq<crate::ast::FieldV>, name: Seq<char>, i: int)
    requires
        0 <= i <= fs.len(),
        forall|j: int| 0 <= j < i ==> (#[trigger] fs[j]).name.name != name,
        i < fs.len() ==> fs[i].name.name == name,
    ensures
        field_named(fs, name) == (if i < fs.len() {
            Some(i)
        } else {
            None
        }),
    decreases fs.len(),
{
    if fs.len() > 0 {
        let front = fs.drop_last();
        let k = if i < front.len() {
            i
        } else {
            front.len() as int
        };
        assert forall|j: int| 0 <= j < k implies (#[trigger] front[j]).name.name != name by {
            assert(front[j] == fs[j]);
        }
        if k < front.len() {
            assert(front[k] == fs[k]);
        }
        lemma_field_named(front, name, k);
        assert(fs[fs.len() - 1] == fs.last());
    }
}

/// `remove_field` takes out the first field of that name, its whole span
/// and nothing else. It is refused where a comment stands in front of the
/// field's name inside that span, and for a name that no field bears.
pub proof fn law_remove_field(
    s: SnapV,
    root: FileId,
    seq: usize,
    op: PatchOp,
    added: Option<Seq<char>>,
    d: DataDeclV,
    i: int,
)
    requires
        op is RemoveField,
        target_item(s, root, op->RemoveField_symbol@) is Ok,
        target_item(s, root, op->RemoveField_symbol@)->Ok_0.item == ItemV::Data(d),
        0 <= i <= d.fields.len(),
        forall|j: int| 0 <= j < i ==> (#[trigger] d.fields[j]).name.name != op->RemoveField_field@,
        i < d.fields.len() ==> d.fields[i].name.name == op->RemoveField_field@,
    ensures
        ({
            let t = target_item(s, root, op->RemoveField_symbol@)->Ok_0;
            let b = bytes_of(source_of(s, t.file));
            let r = op_edits_of(s, root, seq, op, added);
            if i == d.fields.len() {
                r matches Err(PatchErrorV::UnknownSymbol(x)) && x.code == Code::UnknownField
            } else if exists|k: int|
                d.fields[i].span.start <= k && k + 1 < d.fields[i].name.span.start
                    && #[trigger] comment_starts(b, k) {
                unsupported(r)
            } else {
                &&& one_edit(r) matches Some(e)
                &&& e.file == t.file && e.op == seq && e.replace.len() == 0
                &&& e.span == d.fields[i].span
                &&& e.expected == covered_text(source_of(s, t.file), e.span)
            }
        }),
{
    let t = target_item(s, root, op->RemoveField_symbol@)->Ok_0;
    let b = bytes_of(source_of(s, t.file));
    lemma_field_named(d.fields, op->RemoveField_field@, i);
    if i < d.fields.len() {
        let from = d.fields[i].span.start as int;
        let to = d.fields[i].name.span.start as int;
        assert forall|k: int| #[trigger] comment_starts(b, k) <==> crate::seam::pair_at(
            b,
            k,
            0x2f,
            0x2f,
        ) || crate::seam::pair_at(b, k, 0x2f, 0x2a) by {}
        if crate::patch_edits::comment_in(b, from, to) {
            if crate::seam::pair_in(b, from, to, 0x2f, 0x2f) {
                let k = choose|k: int|
                    from <= k && k + 1 < to && #[trigger] crate::seam::pair_at(b, k, 0x2f, 0x2f);
                assert(comment_starts(b, k));
            } else {
                let k = choose|k: int|
                    from <= k && k + 1 < to && #[trigger] crate::seam::pair_at(b, k, 0x2f, 0x2a);
                assert(comment_starts(b, k));
            }
        }
    }
}

/// `set_field_type` puts the given type in the place of the annotation
/// of the first field of that name. It is refused where a comment stands
/// there, and for a name that no field bears.
pub proof fn law_set_field_type(
    s: SnapV,
    root: FileId,
    seq: usize,
    op: PatchOp,
    added: Option<Seq<char>>,
    d: DataDeclV,
    i: int,
    p: int,
)
    requires
        op is SetFieldType,
        target_item(s, root, op->SetFieldType_symbol@) is Ok,
        target_item(s, root, op->SetFieldType_symbol@)->Ok_0.item == ItemV::Data(d),
        0 <= i <= d.fields.len(),
        forall|j: int| 0 <= j < i ==> (#[trigger] d.fields[j]).name.name != op->SetFieldType_field@,
        i < d.fields.len() ==> {
            let b = bytes_of(
                source_of(s, target_item(s, root, op->SetFieldType_symbol@)->Ok_0.file),
            );
            &&& d.fields[i].name.name == op->SetFieldType_field@
            &&& first_solid(b, type_span(d.fields[i].ty).start as int, p)
            &&& p <= b.len() <= u32::MAX
            &&& is_char_boundary(b, p)
        },
    ensures
        ({
            let t = target_item(s, root, op->SetFieldType_symbol@)->Ok_0;
            let b = bytes_of(source_of(s, t.file));
            let r = op_edits_of(s, root, seq, op, added);
            if i == d.fields.len() {
                r matches Err(PatchErrorV::UnknownSymbol(x)) && x.code == Code::UnknownField
            } else if comment_starts(b, p) {
                unsupported(r)
            } else {
                puts(
                    s,
                    r,
                    seq,
                    t.file,
                    p,
                    type_span(d.fields[i].ty).end as int,
                    trimmed(op->SetFieldType_ty@),
                )
            }
        }),
{
    let t = target_item(s, root, op->SetFieldType_symbol@)->Ok_0;
    let b = bytes_of(source_of(s, t.file));
    lemma_field_named(d.fields, op->SetFieldType_field@, i);
    if i < d.fields.len() {
        lemma_skip(b, type_span(d.fields[i].ty).start as int, p);
    }
}

// ---------- all ops ----------

/// The symbol an op works on, where it works on one.
pub open spec fn symbol_of(op: PatchOp) -> Option<Seq<char>> {
    match op {
        PatchOp::ReplaceBody { symbol, body } => Some(symbol@),
        PatchOp::RemoveDef { symbol } => Some(symbol@),
        PatchOp::RenameParam { symbol, param, to } => Some(symbol@),
        PatchOp::SetParamType { symbol, param, ty } => Some(symbol@),
        PatchOp::SetRetType { symbol, ty } => Some(symbol@),
        PatchOp::AddField { symbol, field, ty } => Some(symbol@),
        PatchOp::RemoveField { symbol, field } => Some(symbol@),
        PatchOp::RenameField { symbol, field, to } => Some(symbol@),
        PatchOp::SetFieldType { symbol, field, ty } => Some(symbol@),
        PatchOp::AddDef { module, text } => None,
        PatchOp::AddUse { module, path, alias } => None,
        PatchOp::RemoveUse { module, path, alias } => None,
    }
}

/// Whether an op is about functions only.
pub open spec fn wants_fn(op: PatchOp) -> bool {
    op is ReplaceBody || op is RenameParam || op is SetParamType || op is SetRetType
}

/// Whether an op is about `data` only.
pub open spec fn wants_data(op: PatchOp) -> bool {
    op is AddField || op is RemoveField || op is RenameField || op is SetFieldType
}

/// An op on a symbol that stands for nothing is refused with the reason
/// for that; one on a definition of the wrong kind is not supported.
pub proof fn law_op_needs_its_target(
    s: SnapV,
    root: FileId,
    seq: usize,
    op: PatchOp,
    added: Option<Seq<char>>,
)
    requires
        symbol_of(op) is Some,
    ensures
        target_item(s, root, symbol_of(op)->0) matches Err(e) ==> op_edits_of(
            s,
            root,
            seq,
            op,
            added,
        ) == Err::<OpEditsV, PatchErrorV>(e),
        target_item(s, root, symbol_of(op)->0) matches Ok(t) ==> (t.item is Data && wants_fn(op)
            ==> unsupported(op_edits_of(s, root, seq, op, added))) && (t.item is Fn && wants_data(
            op,
        ) ==> unsupported(op_edits_of(s, root, seq, op, added))),
{
}

/// Every edit of an op bears the op's number, and expects the text that
/// its span covers; one that covers nothing expects nothing.
#[verifier::spinoff_prover]
#[verifier::rlimit(60)]
pub proof fn law_edits_expect_what_they_cover(
    s: SnapV,
    root: FileId,
    seq: usize,
    op: PatchOp,
    added: Option<Seq<char>>,
    k: int,
)
    requires
        op_edits_of(s, root, seq, op, added) is Ok,
        0 <= k < op_edits_of(s, root, seq, op, added)->Ok_0.edits.len(),
    ensures
        ({
            let e = op_edits_of(s, root, seq, op, added)->Ok_0.edits[k];
            &&& e.op == seq
            &&& e.expected == covered_text(source_of(s, e.file), e.span) || (e.span.start
                == e.span.end && e.expected.len() == 0)
        }),
{
    match op {
        PatchOp::ReplaceBody { symbol, body } => {},
        PatchOp::RemoveDef { symbol } => {},
        PatchOp::RenameParam { symbol, param, to } => {},
        PatchOp::SetParamType { symbol, param, ty } => {},
        PatchOp::SetRetType { symbol, ty } => {},
        PatchOp::AddField { symbol, field, ty } => {},
        PatchOp::RemoveField { symbol, field } => {},
        PatchOp::RenameField { symbol, field, to } => {},
        PatchOp::SetFieldType { symbol, field, ty } => {},
        PatchOp::AddDef { module, text } => {},
        PatchOp::AddUse { module, path, alias } => {},
        PatchOp::RemoveUse { module, path, alias } => {},
    }
}

} // verus!
