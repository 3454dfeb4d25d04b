//! From a patch operation to the text edits that carry it out.
//!
//! Every op resolves against a [`Snapshot`]; a comment sitting in a seam
//! an op would have to delete refuses the op rather than silently
//! dropping the text.

use crate::ast::{
    item_span, path_text, type_span, AstModuleV, DataDecl, DataDeclV, Field, FieldV, FnDecl,
    FnDeclV, Item, ItemV, Param, ParamV, UseDecl, UseDeclV,
};
use crate::code::Code;
use crate::diagnostic::{error_of, Diagnostic, DiagnosticV};
use crate::fxmap::entry;
use crate::hir::{shape_of, sig_of, ParamDef, Symbol};
use crate::patch::{edits_view, PatchEdit, PatchEditV, PatchError, PatchErrorV, PatchOp};
use crate::seam::{
    back_blanks, back_spaces, before_blanks, before_spaces, byte_at, byte_outside, canonical_path,
    contains_pair, covered, covered_text, ending_of, find_byte, first_byte, has_byte, has_pair, least,
    line_ending, next_byte, norm_path, pair_at, pair_in, past_spaces, skip_spaces,
    swallow_newline, ty_edit_span, type_site, with_newline,
};
use crate::snapshot::{
    all_field_sites, binding_sites, item_of, local_binding_sites, lowered_of, source_of, texts_fit,
    FieldRef, SnapV, Snapshot,
};
use crate::source::{lookup, span_abs, DefId, FileId, InternId, Span};
use crate::target::{
    module_file_of, module_file_spec, module_name_of, module_text, no_symbol, resolve_target_diag,
    target_of,
};
use crate::text::{bytes_of, cat2, cat3, cat4, cat5, cat6, opt_text, same, trim, trimmed};
use vstd::prelude::*;
use vstd::string::*;

verus! {

/// The edits of one op and its one-line summary for the preview.
pub struct OpEdits {
    /// The edits.
    pub edits: Vec<PatchEdit>,
    /// The summary.
    pub summary: String,
}

/// Model of [`OpEdits`].
#[verifier::ext_equal]
pub struct OpEditsV {
    pub edits: Seq<PatchEditV>,
    pub summary: Seq<char>,
}

/// The result of resolving an op.
pub open spec fn op_result(r: Result<OpEdits, PatchError>) -> Result<OpEditsV, PatchErrorV> {
    match r {
        Ok(x) => Ok(OpEditsV { edits: edits_view(x.edits@), summary: x.summary@ }),
        Err(e) => Err(e@),
    }
}

// ---------- targets ----------

/// A definition, the file that declares it, and its item.
#[verifier::ext_equal]
pub struct TargetV {
    pub def: DefId,
    pub file: FileId,
    pub item: ItemV,
}

/// The definition a symbol stands for, with its item.
pub open spec fn target_item(s: SnapV, root: FileId, symbol: Seq<char>) -> Result<
    TargetV,
    PatchErrorV,
> {
    match target_of(s.scope, s.names, root, symbol) {
        Err(d) => if d.code == Code::AmbiguousSymbol {
            Err(PatchErrorV::AmbiguousSymbol(d))
        } else {
            Err(PatchErrorV::UnknownSymbol(d))
        },
        Ok(def) => match item_of(s, def) {
            Some(item) => Ok(
                TargetV { def, file: s.scope.defs[def.raw as int].file, item },
            ),
            None => Err(PatchErrorV::UnknownSymbol(no_symbol(symbol))),
        },
    }
}

/// An `E_UNSUPPORTED_TARGET` diagnostic about a symbol.
pub open spec fn refused(message: Seq<char>, symbol: Seq<char>) -> DiagnosticV {
    error_of(Code::UnsupportedTarget, message).with_subject(symbol)
}

/// An `E_UNSUPPORTED_TARGET` diagnostic about a place in a symbol.
pub open spec fn refused_at(message: Seq<char>, span: Span, symbol: Seq<char>) -> DiagnosticV {
    error_of(Code::UnsupportedTarget, message).with_primary(span).with_subject(symbol)
}

fn err_refused(message: String, symbol: &str) -> (r: PatchError)
    ensures
        r@ == PatchErrorV::Unsupported(refused(message@, symbol@)),
{
    PatchError::Unsupported(
        Box::new(Diagnostic::error(Code::UnsupportedTarget, message).subject(symbol.to_string())),
    )
}

fn err_refused_at(message: String, span: Span, symbol: &str) -> (r: PatchError)
    ensures
        r@ == PatchErrorV::Unsupported(refused_at(message@, span, symbol@)),
{
    PatchError::Unsupported(
        Box::new(
            Diagnostic::error(Code::UnsupportedTarget, message).primary(span).subject(
                symbol.to_string(),
            ),
        ),
    )
}

/// A `data` where a function is wanted.
pub open spec fn not_fn(symbol: Seq<char>, op: Seq<char>) -> PatchErrorV {
    PatchErrorV::Unsupported(
        refused(
            "`"@ + symbol + "` is a data definition — "@ + op + " applies to `fn` targets only"@,
            symbol,
        ),
    )
}

/// A function where a `data` is wanted.
pub open spec fn not_data(symbol: Seq<char>, op: Seq<char>) -> PatchErrorV {
    PatchErrorV::Unsupported(
        refused(
            "`"@ + symbol + "` is a function — "@ + op + " applies to `data` targets only"@,
            symbol,
        ),
    )
}

fn err_not_fn(symbol: &str, op: &str) -> (r: PatchError)
    ensures
        r@ == not_fn(symbol@, op@),
{
    err_refused(
        cat5("`", symbol, "` is a data definition — ", op, " applies to `fn` targets only"),
        symbol,
    )
}

fn err_not_data(symbol: &str, op: &str) -> (r: PatchError)
    ensures
        r@ == not_data(symbol@, op@),
{
    err_refused(
        cat5("`", symbol, "` is a function — ", op, " applies to `data` targets only"),
        symbol,
    )
}

/// A definition, the file that declares it, and its item.
pub struct Target<'a> {
    /// The definition.
    pub def: DefId,
    /// The declaring file.
    pub file: FileId,
    /// The item.
    pub item: &'a Item,
}

/// The file a `module`/`None` module field names.
pub open spec fn module_file_result(s: SnapV, root: FileId, module: Option<Seq<char>>) -> Result<
    FileId,
    PatchErrorV,
> {
    match module {
        Some(m) => match module_file_spec(s.scope, s.names, m) {
            Some(f) => Ok(f),
            None => Err(
                PatchErrorV::UnknownModule(
                    error_of(
                        Code::UnknownModule,
                        "module `"@ + m
                            + "` is not reachable from this workspace's root — a patch can only edit files in the `use` graph"@,
                    ).with_subject(m),
                ),
            ),
        },
        None => Ok(root),
    }
}

impl Snapshot {
    /// Resolves `symbol` to its definition, file, and AST item through
    /// the workspace scope — the same resolution a rename target uses.
    /// A definition without an item resolves to nothing.
    pub fn target_def<'a>(&'a self, root: FileId, symbol: &str) -> (r: Result<
        Target<'a>,
        PatchError,
    >)
        ensures
            match r {
                Ok(t) => target_item(self@, root, symbol@) == Ok::<TargetV, PatchErrorV>(
                    TargetV { def: t.def, file: t.file, item: t.item@ },
                ),
                Err(e) => target_item(self@, root, symbol@) == Err::<TargetV, PatchErrorV>(e@),
            },
    {
        match resolve_target_diag(&self.scope, &self.interner, root, symbol) {
            Err(d) => if d.code == Code::AmbiguousSymbol {
                Err(PatchError::AmbiguousSymbol(Box::new(d)))
            } else {
                Err(PatchError::UnknownSymbol(Box::new(d)))
            },
            Ok(def) => match self.item(def) {
                Some(item) => {
                    assert(self@.scope.defs[def.raw as int] == self.scope.defs@[def.raw as int]@);
                    Ok(Target { def, file: self.scope.defs[def.raw].file, item })
                },
                None => Err(
                    PatchError::UnknownSymbol(
                        Box::new(
                            Diagnostic::error(
                                Code::UnknownSymbol,
                                cat3("no symbol named `", symbol, "`"),
                            ).subject(symbol.to_string()),
                        ),
                    ),
                ),
            },
        }
    }

    /// The file a `module`/`None` module field names — `add_def`,
    /// `add_use`, and `remove_use` share this reachability rule.
    pub fn module_file(&self, root: FileId, module: &Option<String>) -> (r: Result<
        FileId,
        PatchError,
    >)
        ensures
            match r {
                Ok(f) => module_file_result(self@, root, opt_text(*module)) == Ok::<
                    FileId,
                    PatchErrorV,
                >(f),
                Err(e) => module_file_result(self@, root, opt_text(*module)) == Err::<
                    FileId,
                    PatchErrorV,
                >(e@),
            },
    {
        match module {
            Some(m) => match module_file_of(&self.scope, &self.interner, m.as_str()) {
                Some(f) => Ok(f),
                None => Err(
                    PatchError::UnknownModule(
                        Box::new(
                            Diagnostic::error(
                                Code::UnknownModule,
                                cat3(
                                    "module `",
                                    m.as_str(),
                                    "` is not reachable from this workspace's root — a patch can only edit files in the `use` graph",
                                ),
                            ).subject(m.clone()),
                        ),
                    ),
                ),
            },
            None => Ok(root),
        }
    }
}

// ---------- edits ----------

/// An edit that replaces what `span` covers.
pub open spec fn edit_of(s: SnapV, file: FileId, span: Span, replace: Seq<char>, op: usize) -> PatchEditV {
    PatchEditV { file, span, replace, op, expected: covered_text(source_of(s, file), span) }
}

/// An edit that inserts at `at`.
pub open spec fn insertion(file: FileId, at: u32, replace: Seq<char>, op: usize) -> PatchEditV {
    PatchEditV { file, span: Span { start: at, end: at }, replace, op, expected: Seq::empty() }
}

/// One edit under a summary.
pub open spec fn single_edit(e: PatchEditV, summary: Seq<char>) -> Result<OpEditsV, PatchErrorV> {
    Ok(OpEditsV { edits: seq![e], summary })
}

fn one_edit(e: PatchEdit, summary: String) -> (r: Result<OpEdits, PatchError>)
    ensures
        op_result(r) == single_edit(e@, summary@),
{
    let mut v: Vec<PatchEdit> = Vec::new();
    let ghost ev = e@;
    v.push(e);
    proof {
        assert(edits_view(v@) =~= seq![ev]);
    }
    Ok(OpEdits { edits: v, summary })
}

impl Snapshot {
    fn edit(&self, file: FileId, span: Span, replace: String, op: usize) -> (r: PatchEdit)
        ensures
            r@ == edit_of(self@, file, span, replace@, op),
    {
        let expected = covered(self.source(file), span);
        PatchEdit { file, span, replace, op, expected }
    }
}

fn insert_edit(file: FileId, at: u32, replace: String, op: usize) -> (r: PatchEdit)
    ensures
        r@ == insertion(file, at, replace@, op),
{
    let e = String::new();
    proof {
        assert(e@ =~= Seq::empty());
    }
    PatchEdit { file, span: Span::empty(at), replace, op, expected: e }
}

// ---------- replace_body, remove_def, add_def ----------

/// What `replace_body` does to a function.
pub open spec fn replace_body_of(
    s: SnapV,
    root: FileId,
    op: usize,
    symbol: Seq<char>,
    body: Seq<char>,
) -> Result<OpEditsV, PatchErrorV> {
    match target_item(s, root, symbol) {
        Err(e) => Err(e),
        Ok(t) => match t.item {
            ItemV::Data(_) => Err(
                PatchErrorV::Unsupported(
                    refused(
                        "`"@ + symbol
                            + "` is a data definition — replace_body applies to `fn` bodies only"@,
                        symbol,
                    ),
                ),
            ),
            ItemV::Fn(f) => {
                let b = bytes_of(source_of(s, t.file));
                let start = skip_spaces(b, f.body.span.start as int);
                let span = Span { start: start as u32, end: f.body.span.end };
                if byte_at(b, start, 0x7b) {
                    single_edit(edit_of(s, t.file, span, body, op), "replace_body "@ + symbol)
                } else {
                    Err(
                        PatchErrorV::Unsupported(
                            refused_at(
                                "`"@ + symbol
                                    + "` has a comment between its signature and body — replace_body would have to drop it; move the comment and re-plan"@,
                                span,
                                symbol,
                            ),
                        ),
                    )
                }
            },
        },
    }
}

/// What `remove_def` does to a definition.
pub open spec fn remove_def_of(s: SnapV, root: FileId, op: usize, symbol: Seq<char>) -> Result<
    OpEditsV,
    PatchErrorV,
> {
    match target_item(s, root, symbol) {
        Err(e) => Err(e),
        Ok(t) => {
            let span = with_newline(bytes_of(source_of(s, t.file)), item_span(t.item));
            single_edit(edit_of(s, t.file, span, Seq::empty(), op), "remove_def "@ + symbol)
        },
    }
}

/// The text that appends an item to a file: the file gets its `\n`
/// terminator and the item gets one trailing newline.
pub open spec fn appended_item(src: Seq<char>, text: Seq<char>) -> Seq<char> {
    let b = bytes_of(src);
    if b.len() > 0 && !byte_at(b, b.len() - 1, 0xa) {
        "\n"@ + trimmed(text) + "\n"@
    } else {
        trimmed(text) + "\n"@
    }
}

/// What `add_def` does to a module.
pub open spec fn add_def_of(
    s: SnapV,
    root: FileId,
    op: usize,
    module: Option<Seq<char>>,
    text: Seq<char>,
    added: Option<Seq<char>>,
) -> Result<OpEditsV, PatchErrorV> {
    match module_file_result(s, root, module) {
        Err(e) => Err(e),
        Ok(file) => {
            let src = source_of(s, file);
            single_edit(
                insertion(file, bytes_of(src).len() as u32, appended_item(src, text), op),
                "add_def "@ + (match added {
                    Some(n) => n,
                    None => "item"@,
                }) + " → "@ + module_text(s.scope, s.names, file),
            )
        },
    }
}

impl Snapshot {
    fn replace_body(&self, root: FileId, op: usize, symbol: &String, body: &String) -> (r: Result<
        OpEdits,
        PatchError,
    >)
        requires
            texts_fit(self@.sources),
        ensures
            op_result(r) == replace_body_of(self@, root, op, symbol@, body@),
    {
        match self.target_def(root, symbol.as_str()) {
            Err(e) => Err(e),
            Ok(t) => match t.item {
                Item::Data(_) => Err(
                    err_refused(
                        cat3(
                            "`",
                            symbol.as_str(),
                            "` is a data definition — replace_body applies to `fn` bodies only",
                        ),
                        symbol.as_str(),
                    ),
                ),
                Item::Fn(f) => {
                    // The block's span covers the trivia between the
                    // signature and `{`. Trim leading whitespace so the
                    // replacement block drops in verbatim; if a comment
                    // sits in the seam the site is not editable without
                    // touching it — refuse.
                    let b = self.source(t.file).as_bytes();
                    let start: usize = past_spaces(b, f.body.span.start as usize);
                    let span = Span::new(start as u32, f.body.span.end);
                    if has_byte(b, start, 0x7b) {
                        one_edit(
                            self.edit(t.file, span, body.clone(), op),
                            cat2("replace_body ", symbol.as_str()),
                        )
                    } else {
                        Err(
                            err_refused_at(
                                cat3(
                                    "`",
                                    symbol.as_str(),
                                    "` has a comment between its signature and body — replace_body would have to drop it; move the comment and re-plan",
                                ),
                                span,
                                symbol.as_str(),
                            ),
                        )
                    }
                },
            },
        }
    }

    fn remove_def(&self, root: FileId, op: usize, symbol: &String) -> (r: Result<
        OpEdits,
        PatchError,
    >)
        requires
            texts_fit(self@.sources),
        ensures
            op_result(r) == remove_def_of(self@, root, op, symbol@),
    {
        match self.target_def(root, symbol.as_str()) {
            Err(e) => Err(e),
            Ok(t) => {
                // Swallow one following newline so the removal does not
                // leave a stray blank line.
                let span = swallow_newline(self.source(t.file), t.item.span());
                let none = String::new();
                proof {
                    assert(none@ =~= Seq::empty());
                }
                one_edit(
                    self.edit(t.file, span, none, op),
                    cat2("remove_def ", symbol.as_str()),
                )
            },
        }
    }

    fn add_def(
        &self,
        root: FileId,
        op: usize,
        module: &Option<String>,
        text: &String,
        added: &Option<String>,
    ) -> (r: Result<OpEdits, PatchError>)
        requires
            texts_fit(self@.sources),
        ensures
            op_result(r) == add_def_of(
                self@,
                root,
                op,
                opt_text(*module),
                text@,
                opt_text(*added),
            ),
    {
        match self.module_file(root, module) {
            Err(e) => Err(e),
            Ok(file) => {
                let b = self.source(file).as_bytes();
                let n: usize = b.len();
                let t = trim(text.as_str());
                // Splice verbatim, normalizing only the seam.
                let insert = if n > 0 && b[n - 1] != 0xa {
                    cat3("\n", t.as_str(), "\n")
                } else {
                    cat2(t.as_str(), "\n")
                };
                let name = match added {
                    Some(a) => a.as_str(),
                    None => "item",
                };
                one_edit(
                    insert_edit(file, n as u32, insert, op),
                    cat4(
                        "add_def ",
                        name,
                        " → ",
                        module_name_of(&self.scope, &self.interner, file),
                    ),
                )
            },
        }
    }
}

// ---------- parameters ----------

/// The position of the first parameter of a name.
pub open spec fn param_named(ps: Seq<ParamV>, name: Seq<char>) -> Option<int>
    decreases ps.len(),
{
    if ps.len() == 0 {
        None
    } else {
        match param_named(ps.drop_last(), name) {
            Some(i) => Some(i),
            None => if ps.last().name.name == name {
                Some(ps.len() - 1)
            } else {
                None
            },
        }
    }
}

proof fn lemma_param_named_stable(ps: Seq<ParamV>, n: int, name: Seq<char>)
    requires
        0 <= n <= ps.len(),
        param_named(ps.take(n), name) is Some,
    ensures
        param_named(ps, name) == param_named(ps.take(n), name),
    decreases ps.len() - n,
{
    if n < ps.len() {
        assert(ps.take(n + 1).drop_last() =~= ps.take(n));
        lemma_param_named_stable(ps, n + 1, name);
    } else {
        assert(ps.take(n) =~= ps);
    }
}

fn find_param(ps: &Vec<Param>, name: &str) -> (r: Option<usize>)
    ensures
        match r {
            Some(i) => i < ps@.len() && param_named(crate::ast::params(ps@), name@) == Some(
                i as int,
            ),
            None => param_named(crate::ast::params(ps@), name@) is None,
        },
{
    let ghost all = crate::ast::params(ps@);
    let mut i: usize = 0;
    proof {
        assert(all.take(0) =~= Seq::empty());
    }
    while i < ps.len()
        invariant
            i <= ps@.len(),
            all == crate::ast::params(ps@),
            param_named(all.take(i as int), name@) is None,
        decreases ps@.len() - i,
    {
        proof {
            assert(all.take(i + 1).drop_last() =~= all.take(i as int));
            assert(all.take(i + 1).last() == ps@[i as int]@);
        }
        if same(ps[i].name.name.as_str(), name) {
            proof {
                lemma_param_named_stable(all, i + 1, name@);
            }
            return Some(i);
        }
        i += 1;
    }
    proof {
        assert(all.take(all.len() as int) =~= all);
    }
    None
}

/// The first parameter of a signature that bears an interned name.
pub open spec fn sig_param(ps: Seq<ParamDef>, id: InternId) -> Option<ParamDef>
    decreases ps.len(),
{
    if ps.len() == 0 {
        None
    } else {
        match sig_param(ps.drop_last(), id) {
            Some(p) => Some(p),
            None => if ps.last().name == id {
                Some(ps.last())
            } else {
                None
            },
        }
    }
}

proof fn lemma_sig_param_stable(ps: Seq<ParamDef>, n: int, id: InternId)
    requires
        0 <= n <= ps.len(),
        sig_param(ps.take(n), id) is Some,
    ensures
        sig_param(ps, id) == sig_param(ps.take(n), id),
    decreases ps.len() - n,
{
    if n < ps.len() {
        assert(ps.take(n + 1).drop_last() =~= ps.take(n));
        lemma_sig_param_stable(ps, n + 1, id);
    } else {
        assert(ps.take(n) =~= ps);
    }
}

fn find_sig_param(ps: &Vec<ParamDef>, id: InternId) -> (r: Option<ParamDef>)
    ensures
        r == sig_param(ps@, id),
{
    let mut i: usize = 0;
    proof {
        assert(ps@.take(0) =~= Seq::empty());
    }
    while i < ps.len()
        invariant
            i <= ps@.len(),
            sig_param(ps@.take(i as int), id) is None,
        decreases ps@.len() - i,
    {
        proof {
            assert(ps@.take(i + 1).drop_last() =~= ps@.take(i as int));
        }
        if ps[i].name == id {
            proof {
                lemma_sig_param_stable(ps@, i + 1, id);
            }
            return Some(ps[i]);
        }
        i += 1;
    }
    proof {
        assert(ps@.take(ps@.len() as int) =~= ps@);
    }
    None
}

/// The first local of a body that bears an interned name.
pub open spec fn local_named(ss: Seq<Symbol>, id: InternId) -> Option<Symbol>
    decreases ss.len(),
{
    if ss.len() == 0 {
        None
    } else {
        match local_named(ss.drop_last(), id) {
            Some(x) => Some(x),
            None => if ss.last().name == id {
                Some(ss.last())
            } else {
                None
            },
        }
    }
}

proof fn lemma_local_named_stable(ss: Seq<Symbol>, n: int, id: InternId)
    requires
        0 <= n <= ss.len(),
        local_named(ss.take(n), id) is Some,
    ensures
        local_named(ss, id) == local_named(ss.take(n), id),
    decreases ss.len() - n,
{
    if n < ss.len() {
        assert(ss.take(n + 1).drop_last() =~= ss.take(n));
        lemma_local_named_stable(ss, n + 1, id);
    } else {
        assert(ss.take(n) =~= ss);
    }
}

fn find_local(ss: &Vec<Symbol>, id: InternId) -> (r: Option<Symbol>)
    ensures
        r == local_named(ss@, id),
{
    let mut i: usize = 0;
    proof {
        assert(ss@.take(0) =~= Seq::empty());
    }
    while i < ss.len()
        invariant
            i <= ss@.len(),
            local_named(ss@.take(i as int), id) is None,
        decreases ss@.len() - i,
    {
        proof {
            assert(ss@.take(i + 1).drop_last() =~= ss@.take(i as int));
        }
        if ss[i].name == id {
            proof {
                lemma_local_named_stable(ss@, i + 1, id);
            }
            return Some(ss[i]);
        }
        i += 1;
    }
    proof {
        assert(ss@.take(ss@.len() as int) =~= ss@);
    }
    None
}

/// A function without such a parameter.
pub open spec fn no_param(symbol: Seq<char>, param: Seq<char>) -> PatchErrorV {
    PatchErrorV::UnknownSymbol(
        error_of(
            Code::UnknownSymbol,
            "`"@ + symbol + "` has no parameter `"@ + param + "`"@,
        ).with_subject(symbol + "::"@ + param),
    )
}

fn err_no_param(symbol: &str, param: &str) -> (r: PatchError)
    ensures
        r@ == no_param(symbol@, param@),
{
    PatchError::UnknownSymbol(
        Box::new(
            Diagnostic::error(
                Code::UnknownSymbol,
                cat5("`", symbol, "` has no parameter `", param, "`"),
            ).subject(cat3(symbol, "::", param)),
        ),
    )
}

/// Edits that put the same text at several places of a file.
pub open spec fn edits_at(
    s: SnapV,
    file: FileId,
    spans: Seq<Span>,
    replace: Seq<char>,
    op: usize,
) -> Seq<PatchEditV> {
    Seq::new(spans.len(), |i: int| edit_of(s, file, spans[i], replace, op))
}

/// What `rename_param` does inside a function: every token bound to the
/// parameter is rewritten. A name that the body binds already refuses
/// the op — a binding of that name would silently capture the rewritten
/// references even though the result compiles.
pub open spec fn rename_param_in(
    s: SnapV,
    op: usize,
    t: TargetV,
    symbol: Seq<char>,
    param: Seq<char>,
    to: Seq<char>,
) -> Result<OpEditsV, PatchErrorV> {
    let found = match (sig_of(s.scope, t.def), lookup(s.names, param)) {
        (Some(sig), Some(id)) => sig_param(sig.params, id),
        _ => None,
    };
    match (found, lowered_of(s, t.def)) {
        (Some(p), Some(body)) => {
            let name = trimmed(to);
            let base = item_span(t.item).start;
            let bound = match lookup(s.names, name) {
                Some(id) => local_named(body.local_symbols, id),
                None => None,
            };
            match bound {
                Some(rec) => Err(
                    PatchErrorV::Conflict(
                        error_of(
                            Code::NameConflict,
                            "name `"@ + name + "` is already bound in `"@ + symbol + "`"@,
                        ).with_primary(span_abs(rec.span, base)).with_subject(name),
                    ),
                ),
                None => Ok(
                    OpEditsV {
                        edits: edits_at(
                            s,
                            t.file,
                            binding_sites(body, p.symbol, bytes_of(param).len(), base),
                            name,
                            op,
                        ),
                        summary: "rename_param "@ + symbol + " "@ + param + " → "@ + name,
                    },
                ),
            }
        },
        _ => Err(no_param(symbol, param)),
    }
}

/// What `rename_param` does.
pub open spec fn rename_param_of(
    s: SnapV,
    root: FileId,
    op: usize,
    symbol: Seq<char>,
    param: Seq<char>,
    to: Seq<char>,
) -> Result<OpEditsV, PatchErrorV> {
    match target_item(s, root, symbol) {
        Err(e) => Err(e),
        Ok(t) => match t.item {
            ItemV::Data(_) => Err(not_fn(symbol, "rename_param"@)),
            ItemV::Fn(_) => rename_param_in(s, op, t, symbol, param, to),
        },
    }
}

/// A retyping edit, or the refusal of a comment inside the annotation.
pub open spec fn retype(
    s: SnapV,
    op: usize,
    file: FileId,
    span: Span,
    ty: Seq<char>,
    refusal: Seq<char>,
    symbol: Seq<char>,
    summary: Seq<char>,
) -> Result<OpEditsV, PatchErrorV> {
    match type_site(bytes_of(source_of(s, file)), span) {
        Some(site) => single_edit(edit_of(s, file, site, trimmed(ty), op), summary),
        None => Err(PatchErrorV::Unsupported(refused_at(refusal, span, symbol))),
    }
}

/// What `set_param_type` does.
pub open spec fn set_param_type_of(
    s: SnapV,
    root: FileId,
    op: usize,
    symbol: Seq<char>,
    param: Seq<char>,
    ty: Seq<char>,
) -> Result<OpEditsV, PatchErrorV> {
    match target_item(s, root, symbol) {
        Err(e) => Err(e),
        Ok(t) => match t.item {
            ItemV::Data(_) => Err(not_fn(symbol, "set_param_type"@)),
            ItemV::Fn(f) => match param_named(f.params, param) {
                None => Err(no_param(symbol, param)),
                Some(i) => retype(
                    s,
                    op,
                    t.file,
                    type_span(f.params[i].ty),
                    ty,
                    "`"@ + symbol + "`'s parameter `"@ + param
                        + "` has a comment inside its type annotation — move the comment and re-plan"@,
                    symbol,
                    "set_param_type "@ + symbol + " "@ + param + ": "@ + trimmed(ty),
                ),
            },
        },
    }
}

impl Snapshot {
    fn edits_at(&self, file: FileId, spans: &Vec<Span>, replace: &str, op: usize) -> (r: Vec<
        PatchEdit,
    >)
        ensures
            edits_view(r@) == edits_at(self@, file, spans@, replace@, op),
    {
        let ghost all = edits_at(self@, file, spans@, replace@, op);
        let mut out: Vec<PatchEdit> = Vec::new();
        let mut i: usize = 0;
        proof {
            assert(edits_view(out@) =~= all.take(0));
        }
        while i < spans.len()
            invariant
                i <= spans@.len(),
                all == edits_at(self@, file, spans@, replace@, op),
                edits_view(out@) == all.take(i as int),
            decreases spans@.len() - i,
        {
            let ghost before = edits_view(out@);
            let e = self.edit(file, spans[i], replace.to_owned(), op);
            let ghost ev = e@;
            out.push(e);
            proof {
                assert(edits_view(out@) =~= before.push(ev));
                assert(all.take(i + 1) =~= all.take(i as int).push(ev));
            }
            i += 1;
        }
        proof {
            assert(all.take(all.len() as int) =~= all);
        }
        out
    }

    fn rename_param(
        &self,
        root: FileId,
        op: usize,
        symbol: &String,
        param: &String,
        to: &String,
    ) -> (r: Result<OpEdits, PatchError>)
        ensures
            op_result(r) == rename_param_of(self@, root, op, symbol@, param@, to@),
    {
        let t = match self.target_def(root, symbol.as_str()) {
            Err(e) => return Err(e),
            Ok(t) => t,
        };
        if let Item::Data(_) = t.item {
            return Err(err_not_fn(symbol.as_str(), "rename_param"));
        }
        let base = t.item.span().start;
        let sig = match self.scope.fn_sig(t.def) {
            Some(s) => s,
            None => return Err(err_no_param(symbol.as_str(), param.as_str())),
        };
        let id = match self.interner.get(param.as_str()) {
            Some(id) => id,
            None => return Err(err_no_param(symbol.as_str(), param.as_str())),
        };
        let p = match find_sig_param(&sig.params, id) {
            Some(p) => p,
            None => return Err(err_no_param(symbol.as_str(), param.as_str())),
        };
        let body = match self.lowered(t.def) {
            Some(b) => b,
            None => return Err(err_no_param(symbol.as_str(), param.as_str())),
        };
        let name = trim(to.as_str());
        if let Some(tid) = self.interner.get(name.as_str()) {
            if let Some(rec) = find_local(&body.local_symbols, tid) {
                return Err(
                    PatchError::Conflict(
                        Box::new(
                            Diagnostic::error(
                                Code::NameConflict,
                                cat5(
                                    "name `",
                                    name.as_str(),
                                    "` is already bound in `",
                                    symbol.as_str(),
                                    "`",
                                ),
                            ).primary(rec.span.abs(base)).subject(name),
                        ),
                    ),
                );
            }
        }
        let spans = local_binding_sites(body, p.symbol, param.as_str(), base);
        let edits = self.edits_at(t.file, &spans, name.as_str(), op);
        Ok(
            OpEdits {
                edits,
                summary: cat6(
                    "rename_param ",
                    symbol.as_str(),
                    " ",
                    param.as_str(),
                    " → ",
                    name.as_str(),
                ),
            },
        )
    }

    fn retype(
        &self,
        op: usize,
        file: FileId,
        span: Span,
        ty: &str,
        refusal: String,
        symbol: &str,
        summary: String,
    ) -> (r: Result<OpEdits, PatchError>)
        requires
            texts_fit(self@.sources),
        ensures
            op_result(r) == retype(self@, op, file, span, ty@, refusal@, symbol@, summary@),
    {
        match ty_edit_span(self.source(file), span) {
            Some(site) => one_edit(self.edit(file, site, trim(ty), op), summary),
            None => Err(err_refused_at(refusal, span, symbol)),
        }
    }

    fn set_param_type(
        &self,
        root: FileId,
        op: usize,
        symbol: &String,
        param: &String,
        ty: &String,
    ) -> (r: Result<OpEdits, PatchError>)
        requires
            texts_fit(self@.sources),
        ensures
            op_result(r) == set_param_type_of(self@, root, op, symbol@, param@, ty@),
    {
        match self.target_def(root, symbol.as_str()) {
            Err(e) => Err(e),
            Ok(t) => match t.item {
                Item::Data(_) => Err(err_not_fn(symbol.as_str(), "set_param_type")),
                Item::Fn(f) => match find_param(&f.params, param.as_str()) {
                    None => Err(err_no_param(symbol.as_str(), param.as_str())),
                    Some(i) => {
                        assert(f@.params[i as int] == f.params@[i as int]@);
                        let tt = trim(ty.as_str());
                        self.retype(
                            op,
                            t.file,
                            f.params[i].ty.span(),
                            ty.as_str(),
                            cat5(
                                "`",
                                symbol.as_str(),
                                "`'s parameter `",
                                param.as_str(),
                                "` has a comment inside its type annotation — move the comment and re-plan",
                            ),
                            symbol.as_str(),
                            cat6(
                                "set_param_type ",
                                symbol.as_str(),
                                " ",
                                param.as_str(),
                                ": ",
                                tt.as_str(),
                            ),
                        )
                    },
                },
            },
        }
    }
}

// ---------- return types ----------

/// Where a new return type goes: right behind the parameter list's `)`.
pub open spec fn add_ret_of(s: SnapV, op: usize, file: FileId, f: FnDeclV, ty: Seq<char>, symbol: Seq<
    char,
>) -> Result<OpEditsV, PatchErrorV> {
    let b = bytes_of(source_of(s, file));
    let p = back_spaces(b, f.body.span.start as int);
    if byte_at(b, p - 1, 0x29) {
        single_edit(
            edit_of(
                s,
                file,
                Span { start: p as u32, end: p as u32 },
                " -> "@ + trimmed(ty),
                op,
            ),
            "set_ret_type "@ + symbol + " -> "@ + trimmed(ty),
        )
    } else {
        Err(
            PatchErrorV::Unsupported(
                refused_at(
                    "`"@ + symbol + "` has no parameter list to attach a return type to"@,
                    f.body.span,
                    symbol,
                ),
            ),
        )
    }
}

/// A comment inside a return type.
pub open spec fn ret_refusal(symbol: Seq<char>) -> Seq<char> {
    "`"@ + symbol + "`'s return type has a comment inside it — move the comment and re-plan"@
}

/// What removing a return type deletes: the type, the `->` in front of
/// it, and the inline white space before that. Anything else in the
/// seam refuses the op.
pub open spec fn drop_ret_of(s: SnapV, op: usize, file: FileId, span: Span, symbol: Seq<char>) -> Result<
    OpEditsV,
    PatchErrorV,
> {
    let b = bytes_of(source_of(s, file));
    match type_site(b, span) {
        None => Err(PatchErrorV::Unsupported(refused_at(ret_refusal(symbol), span, symbol))),
        Some(site) => {
            let p = back_spaces(b, site.start as int);
            if p >= 2 && pair_at(b, p - 2, 0x2d, 0x3e) {
                single_edit(
                    edit_of(
                        s,
                        file,
                        Span { start: back_blanks(b, p - 2) as u32, end: site.end },
                        Seq::empty(),
                        op,
                    ),
                    "set_ret_type "@ + symbol + " -> unit"@,
                )
            } else {
                Err(
                    PatchErrorV::Unsupported(
                        refused_at(
                            "`"@ + symbol
                                + "` has a comment inside its `-> T` annotation — move the comment and re-plan"@,
                            span,
                            symbol,
                        ),
                    ),
                )
            }
        },
    }
}

/// What `set_ret_type` does.
pub open spec fn set_ret_type_of(
    s: SnapV,
    root: FileId,
    op: usize,
    symbol: Seq<char>,
    ty: Option<Seq<char>>,
) -> Result<OpEditsV, PatchErrorV> {
    match target_item(s, root, symbol) {
        Err(e) => Err(e),
        Ok(t) => match t.item {
            ItemV::Data(_) => Err(not_fn(symbol, "set_ret_type"@)),
            ItemV::Fn(f) => match (f.ret, ty) {
                (Some(ret), Some(x)) => retype(
                    s,
                    op,
                    t.file,
                    type_span(ret),
                    x,
                    ret_refusal(symbol),
                    symbol,
                    "set_ret_type "@ + symbol + " -> "@ + trimmed(x),
                ),
                (Some(ret), None) => drop_ret_of(s, op, t.file, type_span(ret), symbol),
                (None, Some(x)) => add_ret_of(s, op, t.file, f, x, symbol),
                (None, None) => Err(
                    PatchErrorV::Unsupported(
                        refused("`"@ + symbol + "` has no return type to remove"@, symbol),
                    ),
                ),
            },
        },
    }
}

impl Snapshot {
    fn add_ret(&self, op: usize, file: FileId, f: &FnDecl, ty: &String, symbol: &str) -> (r: Result<
        OpEdits,
        PatchError,
    >)
        ensures
            op_result(r) == add_ret_of(self@, op, file, f@, ty@, symbol@),
    {
        // The byte before the body's span, whose leading trivia keeps
        // any `)`-and-`{` comment where the author put it.
        let b = self.source(file).as_bytes();
        let p: usize = before_spaces(b, f.body.span.start as usize);
        if p > 0 && has_byte(b, p - 1, 0x29) {
            let t = trim(ty.as_str());
            one_edit(
                self.edit(
                    file,
                    Span::new(p as u32, p as u32),
                    cat2(" -> ", t.as_str()),
                    op,
                ),
                cat4("set_ret_type ", symbol, " -> ", t.as_str()),
            )
        } else {
            Err(
                err_refused_at(
                    cat3("`", symbol, "` has no parameter list to attach a return type to"),
                    f.body.span,
                    symbol,
                ),
            )
        }
    }

    fn drop_ret(&self, op: usize, file: FileId, span: Span, symbol: &str) -> (r: Result<
        OpEdits,
        PatchError,
    >)
        requires
            texts_fit(self@.sources),
        ensures
            op_result(r) == drop_ret_of(self@, op, file, span, symbol@),
    {
        let src = self.source(file);
        let b = src.as_bytes();
        match ty_edit_span(src, span) {
            None => Err(
                err_refused_at(
                    cat3(
                        "`",
                        symbol,
                        "`'s return type has a comment inside it — move the comment and re-plan",
                    ),
                    span,
                    symbol,
                ),
            ),
            Some(site) => {
                // Walk back over whitespace from the type's trimmed
                // start to the `->` token.
                let p: usize = before_spaces(b, site.start as usize);
                if p >= 2 && has_pair(b, p - 2, 0x2d, 0x3e) {
                    // Swallow the inline whitespace before `->` too so
                    // `fn f() -> T` becomes `fn f()`, not `fn f() `.
                    let start: usize = before_blanks(b, p - 2);
                    let none = String::new();
                    proof {
                        assert(none@ =~= Seq::empty());
                    }
                    one_edit(
                        self.edit(file, Span::new(start as u32, site.end), none, op),
                        cat3("set_ret_type ", symbol, " -> unit"),
                    )
                } else {
                    Err(
                        err_refused_at(
                            cat3(
                                "`",
                                symbol,
                                "` has a comment inside its `-> T` annotation — move the comment and re-plan",
                            ),
                            span,
                            symbol,
                        ),
                    )
                }
            },
        }
    }

    fn set_ret_type(&self, root: FileId, op: usize, symbol: &String, ty: &Option<String>) -> (r:
        Result<OpEdits, PatchError>)
        requires
            texts_fit(self@.sources),
        ensures
            op_result(r) == set_ret_type_of(self@, root, op, symbol@, opt_text(*ty)),
    {
        match self.target_def(root, symbol.as_str()) {
            Err(e) => Err(e),
            Ok(t) => match t.item {
                Item::Data(_) => Err(err_not_fn(symbol.as_str(), "set_ret_type")),
                Item::Fn(f) => match (&f.ret, ty) {
                    (Some(ret), Some(x)) => {
                        let tt = trim(x.as_str());
                        self.retype(
                            op,
                            t.file,
                            ret.span(),
                            x.as_str(),
                            cat3(
                                "`",
                                symbol.as_str(),
                                "`'s return type has a comment inside it — move the comment and re-plan",
                            ),
                            symbol.as_str(),
                            cat4("set_ret_type ", symbol.as_str(), " -> ", tt.as_str()),
                        )
                    },
                    (Some(ret), None) => self.drop_ret(op, t.file, ret.span(), symbol.as_str()),
                    (None, Some(x)) => self.add_ret(op, t.file, f, x, symbol.as_str()),
                    (None, None) => Err(
                        err_refused(
                            cat3("`", symbol.as_str(), "` has no return type to remove"),
                            symbol.as_str(),
                        ),
                    ),
                },
            },
        }
    }
}

// ---------- `use` declarations ----------

/// The text of a `use` declaration.
pub open spec fn use_text(path: Seq<char>, alias: Option<Seq<char>>) -> Seq<char> {
    match alias {
        Some(a) => "use "@ + canonical_path(path) + " as "@ + trimmed(a) + ";"@,
        None => "use "@ + canonical_path(path) + ";"@,
    }
}

fn use_decl(path: &str, alias: &Option<String>) -> (r: String)
    ensures
        r@ == use_text(path@, opt_text(*alias)),
{
    let p = norm_path(path);
    match alias {
        Some(a) => {
            let t = trim(a.as_str());
            cat5("use ", p.as_str(), " as ", t.as_str(), ";")
        },
        None => cat3("use ", p.as_str(), ";"),
    }
}

/// Where a declaration goes, and the text inserted there: on the line
/// after the last `use`, or — when the file has none — above the first
/// item, below any leading comment banner.
pub open spec fn use_site(src: Seq<char>, ast: AstModuleV, decl: Seq<char>) -> (u32, Seq<char>) {
    let b = bytes_of(src);
    let nl = ending_of(src);
    if ast.uses.len() > 0 {
        match first_byte(b, ast.uses.last().span.end as int, 0xa) {
            Some(p) => ((p + 1) as u32, decl + nl),
            None => (b.len() as u32, nl + decl + nl),
        }
    } else if ast.items.len() > 0 {
        (item_span(ast.items[0]).start, decl + nl)
    } else {
        (0, decl + nl)
    }
}

/// The syntax tree of a file; that of an unknown file is empty.
pub open spec fn tree_of(s: SnapV, file: FileId) -> AstModuleV {
    if file.raw < s.asts.len() {
        s.asts[file.raw as int]
    } else {
        AstModuleV { uses: Seq::empty(), items: Seq::empty(), span: Span { start: 0, end: 0 } }
    }
}

/// What `add_use` does.
pub open spec fn add_use_of(
    s: SnapV,
    root: FileId,
    op: usize,
    module: Option<Seq<char>>,
    path: Seq<char>,
    alias: Option<Seq<char>>,
) -> Result<OpEditsV, PatchErrorV> {
    match module_file_result(s, root, module) {
        Err(e) => Err(e),
        Ok(file) => {
            let (at, text) = use_site(source_of(s, file), tree_of(s, file), use_text(path, alias));
            let m = module_text(s.scope, s.names, file);
            single_edit(
                insertion(file, at, text, op),
                match alias {
                    Some(a) => "add_use "@ + path + " as "@ + a + " → "@ + m,
                    None => "add_use "@ + path + " → "@ + m,
                },
            )
        },
    }
}

/// Whether a declaration imports `path` under `alias`.
pub open spec fn is_use(u: UseDeclV, path: Seq<char>, alias: Option<Seq<char>>) -> bool {
    &&& path_text(u.path.segs) == canonical_path(path)
    &&& match (u.alias, alias) {
        (Some(x), Some(a)) => x.name == trimmed(a),
        (None, None) => true,
        _ => false,
    }
}

/// The position of the first declaration that imports `path` under
/// `alias`.
pub open spec fn use_named(us: Seq<UseDeclV>, path: Seq<char>, alias: Option<Seq<char>>) -> Option<int>
    decreases us.len(),
{
    if us.len() == 0 {
        None
    } else {
        match use_named(us.drop_last(), path, alias) {
            Some(i) => Some(i),
            None => if is_use(us.last(), path, alias) {
                Some(us.len() - 1)
            } else {
                None
            },
        }
    }
}

proof fn lemma_use_named_stable(us: Seq<UseDeclV>, n: int, path: Seq<char>, alias: Option<Seq<char>>)
    requires
        0 <= n <= us.len(),
        use_named(us.take(n), path, alias) is Some,
    ensures
        use_named(us, path, alias) == use_named(us.take(n), path, alias),
    decreases us.len() - n,
{
    if n < us.len() {
        assert(us.take(n + 1).drop_last() =~= us.take(n));
        lemma_use_named_stable(us, n + 1, path, alias);
    } else {
        assert(us.take(n) =~= us);
    }
}

fn matches_use(u: &UseDecl, want: &str, path: &str, alias: &Option<String>) -> (r: bool)
    requires
        want@ == canonical_path(path@),
    ensures
        r == is_use(u@, path@, opt_text(*alias)),
{
    let shown = u.path.display();
    if !same(shown.as_str(), want) {
        return false;
    }
    match (&u.alias, alias) {
        (Some(x), Some(a)) => {
            let t = trim(a.as_str());
            same(x.name.as_str(), t.as_str())
        },
        (None, None) => true,
        _ => false,
    }
}

fn find_use(us: &Vec<UseDecl>, path: &str, alias: &Option<String>) -> (r: Option<usize>)
    ensures
        match r {
            Some(i) => i < us@.len() && use_named(
                crate::ast::use_decls(us@),
                path@,
                opt_text(*alias),
            ) == Some(i as int),
            None => use_named(crate::ast::use_decls(us@), path@, opt_text(*alias)) is None,
        },
{
    let ghost all = crate::ast::use_decls(us@);
    let want = norm_path(path);
    let mut i: usize = 0;
    proof {
        assert(all.take(0) =~= Seq::empty());
    }
    while i < us.len()
        invariant
            i <= us@.len(),
            all == crate::ast::use_decls(us@),
            want@ == canonical_path(path@),
            use_named(all.take(i as int), path@, opt_text(*alias)) is None,
        decreases us@.len() - i,
    {
        proof {
            assert(all.take(i + 1).drop_last() =~= all.take(i as int));
            assert(all.take(i + 1).last() == us@[i as int]@);
        }
        if matches_use(&us[i], want.as_str(), path, alias) {
            proof {
                lemma_use_named_stable(all, i + 1, path@, opt_text(*alias));
            }
            return Some(i);
        }
        i += 1;
    }
    proof {
        assert(all.take(all.len() as int) =~= all);
    }
    None
}

/// What `remove_use` does.
pub open spec fn remove_use_of(
    s: SnapV,
    root: FileId,
    op: usize,
    module: Option<Seq<char>>,
    path: Seq<char>,
    alias: Option<Seq<char>>,
) -> Result<OpEditsV, PatchErrorV> {
    match module_file_result(s, root, module) {
        Err(e) => Err(e),
        Ok(file) => {
            let m = module_text(s.scope, s.names, file);
            let us = tree_of(s, file).uses;
            match use_named(us, path, alias) {
                None => Err(
                    PatchErrorV::UnknownSymbol(
                        error_of(
                            Code::UnknownSymbol,
                            "`"@ + m + "` has no `"@ + use_text(path, alias) + "` declaration"@,
                        ).with_subject(use_text(path, alias)),
                    ),
                ),
                Some(i) => single_edit(
                    edit_of(
                        s,
                        file,
                        with_newline(bytes_of(source_of(s, file)), us[i].span),
                        Seq::empty(),
                        op,
                    ),
                    "remove_use "@ + path + " ← "@ + m,
                ),
            }
        },
    }
}

impl Snapshot {
    fn add_use(
        &self,
        root: FileId,
        op: usize,
        module: &Option<String>,
        path: &String,
        alias: &Option<String>,
    ) -> (r: Result<OpEdits, PatchError>)
        requires
            texts_fit(self@.sources),
        ensures
            op_result(r) == add_use_of(
                self@,
                root,
                op,
                opt_text(*module),
                path@,
                opt_text(*alias),
            ),
    {
        match self.module_file(root, module) {
            Err(e) => Err(e),
            Ok(file) => {
                let src = self.source(file);
                let b = src.as_bytes();
                let nl = line_ending(src);
                let decl = use_decl(path.as_str(), alias);
                let mut at: u32 = 0;
                let mut text = cat2(decl.as_str(), nl);
                if let Some(ast) = self.ast(file) {
                    let n: usize = ast.uses.len();
                    if n > 0 {
                        assert(ast@.uses.last() == ast.uses@[n - 1]@);
                        // The line after the last `use` — a trailing
                        // comment on that line stays put.
                        match next_byte(b, ast.uses[n - 1].span.end as usize, 0xa) {
                            Some(p) => {
                                at = (p + 1) as u32;
                            },
                            None => {
                                // The last `use` ends an unterminated file.
                                at = b.len() as u32;
                                text = cat3(nl, decl.as_str(), nl);
                            },
                        }
                    } else if ast.items.len() > 0 {
                        assert(ast@.items[0] == ast.items@[0]@);
                        at = ast.items[0].span().start;
                    }
                }
                let m = module_name_of(&self.scope, &self.interner, file);
                let summary = match alias {
                    Some(a) => cat6("add_use ", path.as_str(), " as ", a.as_str(), " → ", m),
                    None => cat4("add_use ", path.as_str(), " → ", m),
                };
                one_edit(insert_edit(file, at, text, op), summary)
            },
        }
    }

    fn remove_use(
        &self,
        root: FileId,
        op: usize,
        module: &Option<String>,
        path: &String,
        alias: &Option<String>,
    ) -> (r: Result<OpEdits, PatchError>)
        requires
            texts_fit(self@.sources),
        ensures
            op_result(r) == remove_use_of(
                self@,
                root,
                op,
                opt_text(*module),
                path@,
                opt_text(*alias),
            ),
    {
        match self.module_file(root, module) {
            Err(e) => Err(e),
            Ok(file) => {
                let m = module_name_of(&self.scope, &self.interner, file);
                if let Some(ast) = self.ast(file) {
                    if let Some(i) = find_use(&ast.uses, path.as_str(), alias) {
                        assert(ast@.uses[i as int] == ast.uses@[i as int]@);
                        let span = swallow_newline(self.source(file), ast.uses[i].span);
                        let none = String::new();
                        proof {
                            assert(none@ =~= Seq::empty());
                        }
                        return one_edit(
                            self.edit(file, span, none, op),
                            cat4("remove_use ", path.as_str(), " ← ", m),
                        );
                    }
                }
                let decl = use_decl(path.as_str(), alias);
                Err(
                    PatchError::UnknownSymbol(
                        Box::new(
                            Diagnostic::error(
                                Code::UnknownSymbol,
                                cat5("`", m, "` has no `", decl.as_str(), "` declaration"),
                            ).subject(decl),
                        ),
                    ),
                )
            },
        }
    }
}

// ---------- fields ----------

/// The position of the first field of a name.
pub open spec fn field_named(fs: Seq<FieldV>, name: Seq<char>) -> Option<int>
    decreases fs.len(),
{
    if fs.len() == 0 {
        None
    } else {
        match field_named(fs.drop_last(), name) {
            Some(i) => Some(i),
            None => if fs.last().name.name == name {
                Some(fs.len() - 1)
            } else {
                None
            },
        }
    }
}

proof fn lemma_field_named_stable(fs: Seq<FieldV>, n: int, name: Seq<char>)
    requires
        0 <= n <= fs.len(),
        field_named(fs.take(n), name) is Some,
    ensures
        field_named(fs, name) == field_named(fs.take(n), name),
    decreases fs.len() - n,
{
    if n < fs.len() {
        assert(fs.take(n + 1).drop_last() =~= fs.take(n));
        lemma_field_named_stable(fs, n + 1, name);
    } else {
        assert(fs.take(n) =~= fs);
    }
}

fn find_field(fs: &Vec<Field>, name: &str) -> (r: Option<usize>)
    ensures
        match r {
            Some(i) => i < fs@.len() && field_named(crate::ast::fields(fs@), name@) == Some(
                i as int,
            ),
            None => field_named(crate::ast::fields(fs@), name@) is None,
        },
{
    let ghost all = crate::ast::fields(fs@);
    let mut i: usize = 0;
    proof {
        assert(all.take(0) =~= Seq::empty());
    }
    while i < fs.len()
        invariant
            i <= fs@.len(),
            all == crate::ast::fields(fs@),
            field_named(all.take(i as int), name@) is None,
        decreases fs@.len() - i,
    {
        proof {
            assert(all.take(i + 1).drop_last() =~= all.take(i as int));
            assert(all.take(i + 1).last() == fs@[i as int]@);
        }
        if same(fs[i].name.name.as_str(), name) {
            proof {
                lemma_field_named_stable(all, i + 1, name@);
            }
            return Some(i);
        }
        i += 1;
    }
    proof {
        assert(all.take(all.len() as int) =~= all);
    }
    None
}

/// `E_UNKNOWN_FIELD` — the `data` resolved, the field name did not.
pub open spec fn no_field(symbol: Seq<char>, field: Seq<char>) -> PatchErrorV {
    PatchErrorV::UnknownSymbol(
        error_of(
            Code::UnknownField,
            "`"@ + symbol + "` has no field `"@ + field + "`"@,
        ).with_subject(symbol + "::"@ + field),
    )
}

/// `E_UNKNOWN_FIELD` — the `data` resolved, the field name did not.
fn unknown_field(symbol: &str, field: &str) -> (r: PatchError)
    ensures
        r@ == no_field(symbol@, field@),
{
    PatchError::UnknownSymbol(
        Box::new(
            Diagnostic::error(
                Code::UnknownField,
                cat5("`", symbol, "` has no field `", field, "`"),
            ).subject(cat3(symbol, "::", field)),
        ),
    )
}

/// The text of a field declaration.
pub open spec fn field_text(field: Seq<char>, ty: Seq<char>) -> Seq<char> {
    trimmed(field) + ": "@ + trimmed(ty) + ";"@
}

/// Where a new field goes, and the text inserted there: behind the last
/// field, with the separator that stands in front of that one, or — in
/// an empty list — behind the `{`, skipping comments in the `D {` seam.
pub open spec fn field_site(src: Seq<char>, d: DataDeclV, decl: Seq<char>) -> Option<
    (u32, Seq<char>),
> {
    let b = bytes_of(src);
    if d.fields.len() > 0 {
        let last = d.fields.last();
        let ws = back_spaces(b, last.name.span.start as int);
        Some(
            (
                last.span.end,
                covered_text(src, Span { start: ws as u32, end: last.name.span.start }) + decl,
            ),
        )
    } else {
        match byte_outside(
            b,
            d.name.span.end as int,
            least(d.span.end as int, b.len() as int),
            0x7b,
        ) {
            Some(p) => Some(((p + 1) as u32, " "@ + decl)),
            None => None,
        }
    }
}

/// What `add_field` does.
pub open spec fn add_field_of(
    s: SnapV,
    root: FileId,
    op: usize,
    symbol: Seq<char>,
    field: Seq<char>,
    ty: Seq<char>,
) -> Result<OpEditsV, PatchErrorV> {
    match target_item(s, root, symbol) {
        Err(e) => Err(e),
        Ok(t) => match t.item {
            ItemV::Fn(_) => Err(not_data(symbol, "add_field"@)),
            ItemV::Data(d) => match field_site(source_of(s, t.file), d, field_text(field, ty)) {
                Some((at, text)) => single_edit(
                    insertion(t.file, at, text, op),
                    "add_field "@ + symbol + " "@ + field + ": "@ + trimmed(ty),
                ),
                None => Err(
                    PatchErrorV::Unsupported(
                        refused("`"@ + symbol + "` has no field list to add to"@, symbol),
                    ),
                ),
            },
        },
    }
}

/// Whether a comment stands in bytes `a..b`.
pub open spec fn comment_in(b: Seq<u8>, from: int, to: int) -> bool {
    pair_in(b, from, to, 0x2f, 0x2f) || pair_in(b, from, to, 0x2f, 0x2a)
}

/// What `remove_field` does.
pub open spec fn remove_field_of(
    s: SnapV,
    root: FileId,
    op: usize,
    symbol: Seq<char>,
    field: Seq<char>,
) -> Result<OpEditsV, PatchErrorV> {
    match target_item(s, root, symbol) {
        Err(e) => Err(e),
        Ok(t) => match t.item {
            ItemV::Fn(_) => Err(not_data(symbol, "remove_field"@)),
            ItemV::Data(d) => match field_named(d.fields, field) {
                None => Err(no_field(symbol, field)),
                Some(i) => {
                    let f = d.fields[i];
                    if comment_in(
                        bytes_of(source_of(s, t.file)),
                        f.span.start as int,
                        f.name.span.start as int,
                    ) {
                        Err(
                            PatchErrorV::Unsupported(
                                refused_at(
                                    "`"@ + symbol + "."@ + field
                                        + "` has a comment in its leading seam — remove_field would have to drop it; move the comment and re-plan"@,
                                    f.span,
                                    symbol,
                                ),
                            ),
                        )
                    } else {
                        single_edit(
                            edit_of(s, t.file, f.span, Seq::empty(), op),
                            "remove_field "@ + symbol + " "@ + field,
                        )
                    }
                },
            },
        },
    }
}

/// Edits that put the same text at several places of several files.
pub open spec fn edits_in(
    s: SnapV,
    sites: Seq<(FileId, Span)>,
    replace: Seq<char>,
    op: usize,
) -> Seq<PatchEditV> {
    Seq::new(sites.len(), |i: int| edit_of(s, sites[i].0, sites[i].1, replace, op))
}

/// What `rename_field` does: the declaration and every resolved site
/// are rewritten.
pub open spec fn rename_field_of(
    s: SnapV,
    root: FileId,
    op: usize,
    symbol: Seq<char>,
    field: Seq<char>,
    to: Seq<char>,
) -> Result<OpEditsV, PatchErrorV> {
    match target_item(s, root, symbol) {
        Err(e) => Err(e),
        Ok(t) => match t.item {
            ItemV::Fn(_) => Err(not_data(symbol, "rename_field"@)),
            ItemV::Data(d) => match (shape_of(s.scope, t.def), lookup(s.names, field)) {
                (Some(shape), Some(id)) => match entry(shape.field_index, id.raw) {
                    Some(index) => if index < d.fields.len() {
                        let f = FieldRef { data: t.def, index, name: id };
                        let name = trimmed(to);
                        Ok(
                            OpEditsV {
                                edits: seq![
                                    edit_of(
                                        s,
                                        t.file,
                                        d.fields[index as int].name.span,
                                        name,
                                        op,
                                    ),
                                ] + edits_in(s, all_field_sites(s, s.scope.files, f), name, op),
                                summary: "rename_field "@ + symbol + " "@ + field + " → "@ + name,
                            },
                        )
                    } else {
                        Err(no_field(symbol, field))
                    },
                    None => Err(no_field(symbol, field)),
                },
                _ => Err(no_field(symbol, field)),
            },
        },
    }
}

/// What `set_field_type` does.
pub open spec fn set_field_type_of(
    s: SnapV,
    root: FileId,
    op: usize,
    symbol: Seq<char>,
    field: Seq<char>,
    ty: Seq<char>,
) -> Result<OpEditsV, PatchErrorV> {
    match target_item(s, root, symbol) {
        Err(e) => Err(e),
        Ok(t) => match t.item {
            ItemV::Fn(_) => Err(not_data(symbol, "set_field_type"@)),
            ItemV::Data(d) => match field_named(d.fields, field) {
                None => Err(no_field(symbol, field)),
                Some(i) => retype(
                    s,
                    op,
                    t.file,
                    type_span(d.fields[i].ty),
                    ty,
                    "`"@ + symbol + "."@ + field
                        + "` has a comment inside its type annotation — move the comment and re-plan"@,
                    symbol,
                    "set_field_type "@ + symbol + " "@ + field + ": "@ + trimmed(ty),
                ),
            },
        },
    }
}

fn new_field_site(src: &str, d: &DataDecl, decl: &str) -> (r: Option<(u32, String)>)
    requires
        bytes_of(src@).len() <= u32::MAX,
    ensures
        match r {
            Some((at, text)) => field_site(src@, d@, decl@) == Some((at, text@)),
            None => field_site(src@, d@, decl@) is None,
        },
{
    let n: usize = d.fields.len();
    if n > 0 {
        let last = &d.fields[n - 1];
        assert(d@.fields.last() == last@);
        // Copy the separator in front of the last field — its
        // whitespace run carries the file's own newline + indent
        // convention.
        let ws: usize = before_spaces(src.as_bytes(), last.name.span.start as usize);
        let sep = covered(src, Span::new(ws as u32, last.name.span.start));
        Some((last.span.end, cat2(sep.as_str(), decl)))
    } else {
        match find_byte(src, d.name.span.end as usize, d.span.end as usize, 0x7b) {
            Some(p) => Some(((p + 1) as u32, cat2(" ", decl))),
            None => None,
        }
    }
}

impl Snapshot {
    fn add_field(
        &self,
        root: FileId,
        op: usize,
        symbol: &String,
        field: &String,
        ty: &String,
    ) -> (r: Result<OpEdits, PatchError>)
        requires
            texts_fit(self@.sources),
        ensures
            op_result(r) == add_field_of(self@, root, op, symbol@, field@, ty@),
    {
        match self.target_def(root, symbol.as_str()) {
            Err(e) => Err(e),
            Ok(t) => match t.item {
                Item::Fn(_) => Err(err_not_data(symbol.as_str(), "add_field")),
                Item::Data(d) => {
                    let name = trim(field.as_str());
                    let tt = trim(ty.as_str());
                    let decl = cat4(name.as_str(), ": ", tt.as_str(), ";");
                    match new_field_site(self.source(t.file), d, decl.as_str()) {
                        Some((at, text)) => one_edit(
                            insert_edit(t.file, at, text, op),
                            cat6(
                                "add_field ",
                                symbol.as_str(),
                                " ",
                                field.as_str(),
                                ": ",
                                tt.as_str(),
                            ),
                        ),
                        None => Err(
                            err_refused(
                                cat3("`", symbol.as_str(), "` has no field list to add to"),
                                symbol.as_str(),
                            ),
                        ),
                    }
                },
            },
        }
    }

    fn remove_field(&self, root: FileId, op: usize, symbol: &String, field: &String) -> (r: Result<
        OpEdits,
        PatchError,
    >)
        ensures
            op_result(r) == remove_field_of(self@, root, op, symbol@, field@),
    {
        match self.target_def(root, symbol.as_str()) {
            Err(e) => Err(e),
            Ok(t) => match t.item {
                Item::Fn(_) => Err(err_not_data(symbol.as_str(), "remove_field")),
                Item::Data(d) => match find_field(&d.fields, field.as_str()) {
                    None => Err(unknown_field(symbol.as_str(), field.as_str())),
                    Some(i) => {
                        let f = &d.fields[i];
                        assert(d@.fields[i as int] == f@);
                        // The field's span covers the leading trivia
                        // run — a comment inside it would be silently
                        // dropped, so the op refuses rather than guess
                        // at attachment.
                        let b = self.source(t.file).as_bytes();
                        let from: usize = f.span.start as usize;
                        let to: usize = f.name.span.start as usize;
                        if contains_pair(b, from, to, 0x2f, 0x2f) || contains_pair(
                            b,
                            from,
                            to,
                            0x2f,
                            0x2a,
                        ) {
                            Err(
                                err_refused_at(
                                    cat5(
                                        "`",
                                        symbol.as_str(),
                                        ".",
                                        field.as_str(),
                                        "` has a comment in its leading seam — remove_field would have to drop it; move the comment and re-plan",
                                    ),
                                    f.span,
                                    symbol.as_str(),
                                ),
                            )
                        } else {
                            let none = String::new();
                            proof {
                                assert(none@ =~= Seq::empty());
                            }
                            one_edit(
                                self.edit(t.file, f.span, none, op),
                                cat4("remove_field ", symbol.as_str(), " ", field.as_str()),
                            )
                        }
                    },
                },
            },
        }
    }

    fn push_edits(
        &self,
        sites: &Vec<(FileId, Span)>,
        replace: &str,
        op: usize,
        out: &mut Vec<PatchEdit>,
    )
        ensures
            edits_view(final(out)@) == edits_view(old(out)@) + edits_in(
                self@,
                sites@,
                replace@,
                op,
            ),
    {
        let ghost all = edits_in(self@, sites@, replace@, op);
        let ghost start = edits_view(out@);
        let mut i: usize = 0;
        proof {
            assert(edits_view(out@) =~= start + all.take(0));
        }
        while i < sites.len()
            invariant
                i <= sites@.len(),
                all == edits_in(self@, sites@, replace@, op),
                edits_view(out@) == start + all.take(i as int),
            decreases sites@.len() - i,
        {
            let ghost before = edits_view(out@);
            let e = self.edit(sites[i].0, sites[i].1, replace.to_owned(), op);
            let ghost ev = e@;
            out.push(e);
            proof {
                assert(edits_view(out@) =~= before.push(ev));
                assert(before.push(ev) =~= start + all.take(i + 1));
            }
            i += 1;
        }
        proof {
            assert(all.take(all.len() as int) =~= all);
        }
    }

    fn rename_field(
        &self,
        root: FileId,
        op: usize,
        symbol: &String,
        field: &String,
        to: &String,
    ) -> (r: Result<OpEdits, PatchError>)
        ensures
            op_result(r) == rename_field_of(self@, root, op, symbol@, field@, to@),
    {
        let t = match self.target_def(root, symbol.as_str()) {
            Err(e) => return Err(e),
            Ok(t) => t,
        };
        let d = match t.item {
            Item::Fn(_) => return Err(err_not_data(symbol.as_str(), "rename_field")),
            Item::Data(d) => d,
        };
        let shape = match self.scope.data_shape(t.def) {
            Some(x) => x,
            None => return Err(unknown_field(symbol.as_str(), field.as_str())),
        };
        let id = match self.interner.get(field.as_str()) {
            Some(x) => x,
            None => return Err(unknown_field(symbol.as_str(), field.as_str())),
        };
        let index: usize = match shape.field_index.get(id.raw) {
            Some(x) => x,
            None => return Err(unknown_field(symbol.as_str(), field.as_str())),
        };
        if index >= d.fields.len() {
            return Err(unknown_field(symbol.as_str(), field.as_str()));
        }
        assert(d@.fields[index as int] == d.fields@[index as int]@);
        let name = trim(to.as_str());
        let mut edits: Vec<PatchEdit> = Vec::new();
        let first = self.edit(t.file, d.fields[index].name.span, name.clone(), op);
        let ghost fv = first@;
        edits.push(first);
        proof {
            assert(edits_view(edits@) =~= seq![fv]);
        }
        let sites = self.field_sites(FieldRef { data: t.def, index, name: id });
        self.push_edits(&sites, name.as_str(), op, &mut edits);
        Ok(
            OpEdits {
                edits,
                summary: cat6(
                    "rename_field ",
                    symbol.as_str(),
                    " ",
                    field.as_str(),
                    " → ",
                    name.as_str(),
                ),
            },
        )
    }

    fn set_field_type(
        &self,
        root: FileId,
        op: usize,
        symbol: &String,
        field: &String,
        ty: &String,
    ) -> (r: Result<OpEdits, PatchError>)
        requires
            texts_fit(self@.sources),
        ensures
            op_result(r) == set_field_type_of(self@, root, op, symbol@, field@, ty@),
    {
        match self.target_def(root, symbol.as_str()) {
            Err(e) => Err(e),
            Ok(t) => match t.item {
                Item::Fn(_) => Err(err_not_data(symbol.as_str(), "set_field_type")),
                Item::Data(d) => match find_field(&d.fields, field.as_str()) {
                    None => Err(unknown_field(symbol.as_str(), field.as_str())),
                    Some(i) => {
                        assert(d@.fields[i as int] == d.fields@[i as int]@);
                        let tt = trim(ty.as_str());
                        self.retype(
                            op,
                            t.file,
                            d.fields[i].ty.span(),
                            ty.as_str(),
                            cat5(
                                "`",
                                symbol.as_str(),
                                ".",
                                field.as_str(),
                                "` has a comment inside its type annotation — move the comment and re-plan",
                            ),
                            symbol.as_str(),
                            cat6(
                                "set_field_type ",
                                symbol.as_str(),
                                " ",
                                field.as_str(),
                                ": ",
                                tt.as_str(),
                            ),
                        )
                    },
                },
            },
        }
    }
}

// ---------- all ops ----------

/// The edits of one op and its summary, or why it cannot apply. `added`
/// is the item name that an `add_def` payload declares.
pub open spec fn op_edits_of(
    s: SnapV,
    root: FileId,
    seq: usize,
    op: PatchOp,
    added: Option<Seq<char>>,
) -> Result<OpEditsV, PatchErrorV> {
    match op {
        PatchOp::ReplaceBody { symbol, body } => replace_body_of(s, root, seq, symbol@, body@),
        PatchOp::RemoveDef { symbol } => remove_def_of(s, root, seq, symbol@),
        PatchOp::AddDef { module, text } => add_def_of(
            s,
            root,
            seq,
            opt_text(module),
            text@,
            added,
        ),
        PatchOp::RenameParam { symbol, param, to } => rename_param_of(
            s,
            root,
            seq,
            symbol@,
            param@,
            to@,
        ),
        PatchOp::SetParamType { symbol, param, ty } => set_param_type_of(
            s,
            root,
            seq,
            symbol@,
            param@,
            ty@,
        ),
        PatchOp::SetRetType { symbol, ty } => set_ret_type_of(s, root, seq, symbol@, opt_text(ty)),
        PatchOp::AddUse { module, path, alias } => add_use_of(
            s,
            root,
            seq,
            opt_text(module),
            path@,
            opt_text(alias),
        ),
        PatchOp::RemoveUse { module, path, alias } => remove_use_of(
            s,
            root,
            seq,
            opt_text(module),
            path@,
            opt_text(alias),
        ),
        PatchOp::AddField { symbol, field, ty } => add_field_of(
            s,
            root,
            seq,
            symbol@,
            field@,
            ty@,
        ),
        PatchOp::RemoveField { symbol, field } => remove_field_of(s, root, seq, symbol@, field@),
        PatchOp::RenameField { symbol, field, to } => rename_field_of(
            s,
            root,
            seq,
            symbol@,
            field@,
            to@,
        ),
        PatchOp::SetFieldType { symbol, field, ty } => set_field_type_of(
            s,
            root,
            seq,
            symbol@,
            field@,
            ty@,
        ),
    }
}

impl Snapshot {
    /// Resolves one op into its text edits plus a one-line summary for
    /// the preview. `added` is the item name that checking an `add_def`
    /// payload found.
    pub fn op_edits(&self, root: FileId, seq: usize, op: &PatchOp, added: &Option<String>) -> (r:
        Result<OpEdits, PatchError>)
        requires
            texts_fit(self@.sources),
        ensures
            op_result(r) == op_edits_of(self@, root, seq, *op, opt_text(*added)),
    {
        match op {
            PatchOp::ReplaceBody { symbol, body } => self.replace_body(root, seq, symbol, body),
            PatchOp::RemoveDef { symbol } => self.remove_def(root, seq, symbol),
            PatchOp::AddDef { module, text } => self.add_def(root, seq, module, text, added),
            PatchOp::RenameParam { symbol, param, to } => self.rename_param(
                root,
                seq,
                symbol,
                param,
                to,
            ),
            PatchOp::SetParamType { symbol, param, ty } => self.set_param_type(
                root,
                seq,
                symbol,
                param,
                ty,
            ),
            PatchOp::SetRetType { symbol, ty } => self.set_ret_type(root, seq, symbol, ty),
            PatchOp::AddUse { module, path, alias } => self.add_use(root, seq, module, path, alias),
            PatchOp::RemoveUse { module, path, alias } => self.remove_use(
                root,
                seq,
                module,
                path,
                alias,
            ),
            PatchOp::AddField { symbol, field, ty } => self.add_field(root, seq, symbol, field, ty),
            PatchOp::RemoveField { symbol, field } => self.remove_field(root, seq, symbol, field),
            PatchOp::RenameField { symbol, field, to } => self.rename_field(
                root,
                seq,
                symbol,
                field,
                to,
            ),
            PatchOp::SetFieldType { symbol, field, ty } => self.set_field_type(
                root,
                seq,
                symbol,
                field,
                ty,
            ),
        }
    }
}

} // verus!
