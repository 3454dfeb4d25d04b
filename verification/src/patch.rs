//! Structured semantic patches: the operations, the edits they become,
//! the reasons a patch is refused, and the checks on a patch spec that
//! need no workspace.
//!
//! A patch is a *bounded* list of [`PatchOp`]s, each resolved against
//! the workspace scope (the same name resolution bodies use — never
//! text matching), spliced into candidate sources, validated by a
//! compile of the candidate, and committed through a provenance-bound
//! atomic apply. Any semantic failure rejects the whole patch with zero
//! writes.

use crate::ast::{item_name, AstModule, AstModuleV, Item};
use crate::code::Code;
use crate::diagnostic::{diags, error_of, Diagnostic, DiagnosticV, Diagnostics, Severity};
use crate::paths::{has_prefix, has_suffix, text_ends_with, text_starts_with};
use crate::source::{FileId, Span};
use crate::text::{
    bytes_of, cat2, cat3, cat4, cat5, cat6, cat7, dec, decimal, opt_text, trim, trimmed,
};
use vstd::prelude::*;
use vstd::string::*;

verus! {

/// The largest op count one patch may carry — the "bounded" in
/// bounded structured edit set.
pub const MAX_PATCH_OPS: usize = 64;

/// The largest single op payload (`body`/`text`), in bytes.
pub const MAX_OP_TEXT: usize = 262144;

/// One structured edit in a patch spec. Ops are data — the CLI and
/// the daemon build them from the JSON spec.
#[derive(Debug, Clone)]
#[allow(inconsistent_fields)]
pub enum PatchOp {
    /// Replace the body block (`{ ... }`, braces included) of a `fn`.
    ReplaceBody {
        /// The target function (`x` or `m::x`).
        symbol: String,
        /// The complete replacement block, braces included.
        body: String,
    },
    /// Remove a top-level `fn`/`data` declaration.
    RemoveDef {
        /// The target definition (`x` or `m::x`).
        symbol: String,
    },
    /// Append one new top-level item to the file providing `module`.
    AddDef {
        /// Target module (file stem); `None` = the root file.
        module: Option<String>,
        /// The item's complete source text.
        text: String,
    },
    /// Rename a parameter of a `fn`, in place.
    RenameParam {
        /// The target function (`x` or `m::x`).
        symbol: String,
        /// The parameter's current name.
        param: String,
        /// The new parameter name.
        to: String,
    },
    /// Replace the declared type of a parameter.
    SetParamType {
        /// The target function (`x` or `m::x`).
        symbol: String,
        /// The parameter's current name.
        param: String,
        /// The new declared type.
        ty: String,
    },
    /// Add, replace, or remove a `fn`'s return-type annotation.
    SetRetType {
        /// The target function (`x` or `m::x`).
        symbol: String,
        /// The new return type, or `None` to drop the annotation.
        ty: Option<String>,
    },
    /// Add `use path [as alias];` to the file providing `module`.
    AddUse {
        /// Target module (file stem); `None` = the root file.
        module: Option<String>,
        /// The import path (`m` or `m::x`).
        path: String,
        /// The `as` alias, when wanted.
        alias: Option<String>,
    },
    /// Remove the `use path [as alias];` declaration of a file.
    RemoveUse {
        /// Target module (file stem); `None` = the root file.
        module: Option<String>,
        /// The import path as written (`m` or `m::x`).
        path: String,
        /// The `as` alias of the decl to remove.
        alias: Option<String>,
    },
    /// Add a field to a `data`.
    AddField {
        /// The target `data` (`x` or `m::x`).
        symbol: String,
        /// The new field's name.
        field: String,
        /// The new field's declared type.
        ty: String,
    },
    /// Remove a field from a `data`.
    RemoveField {
        /// The target `data` (`x` or `m::x`).
        symbol: String,
        /// The field's name.
        field: String,
    },
    /// Rename a field of a `data`, at every resolved site.
    RenameField {
        /// The target `data` (`x` or `m::x`).
        symbol: String,
        /// The field's current name.
        field: String,
        /// The new field name.
        to: String,
    },
    /// Replace the declared type of a field.
    SetFieldType {
        /// The target `data` (`x` or `m::x`).
        symbol: String,
        /// The field's name.
        field: String,
        /// The new declared type.
        ty: String,
    },
}

/// One textual replacement a patch installs: the bytes `span`
/// covers in `file` become `replace`. An empty span is a pure
/// insertion. `op` indexes back into the patch's op list so a
/// preview can attribute every edit to its op.
#[derive(Debug, Clone)]
pub struct PatchEdit {
    /// The file containing the site.
    pub file: FileId,
    /// Byte range replaced (empty = insertion point).
    pub span: Span,
    /// Replacement text.
    pub replace: String,
    /// Index of the op that produced this edit.
    pub op: usize,
    /// The bytes `span` covered at plan time — the apply-time
    /// expected-bytes guard.
    pub expected: String,
}

/// Model of [`PatchEdit`].
#[verifier::ext_equal]
pub struct PatchEditV {
    pub file: FileId,
    pub span: Span,
    pub replace: Seq<char>,
    pub op: usize,
    pub expected: Seq<char>,
}

impl PatchEdit {
    /// The model of this edit.
    pub open spec fn view(&self) -> PatchEditV {
        PatchEditV {
            file: self.file,
            span: self.span,
            replace: self.replace@,
            op: self.op,
            expected: self.expected@,
        }
    }
}

/// The models of a sequence of edits.
pub open spec fn edits_view(v: Seq<PatchEdit>) -> Seq<PatchEditV> {
    Seq::new(v.len(), |i: int| v[i]@)
}

/// Why a patch was rejected. Every variant maps to diagnostics so
/// CLI and daemon output stay on the schema-1 contract.
#[derive(Debug)]
pub enum PatchError {
    /// A `symbol` resolved to nothing (`E_UNKNOWN_SYMBOL`).
    UnknownSymbol(Box<Diagnostic>),
    /// A bare `symbol` matched defs in several modules
    /// (`E_AMBIGUOUS_SYMBOL`).
    AmbiguousSymbol(Box<Diagnostic>),
    /// An op named a module no reachable file provides
    /// (`E_UNKNOWN_MODULE`).
    UnknownModule(Box<Diagnostic>),
    /// The op cannot apply to the resolved target
    /// (`E_UNSUPPORTED_TARGET`).
    Unsupported(Box<Diagnostic>),
    /// A `to` name is already bound in the scope the op would
    /// rewrite (`E_NAME_CONFLICT`).
    Conflict(Box<Diagnostic>),
    /// The spec itself is invalid (`E_MALFORMED_PATCH`).
    Malformed(Box<Diagnostic>),
    /// The candidate produced error diagnostics — the patch is
    /// refused, nothing was applied (`E_PATCH_REJECTED`, plus the
    /// offending diagnostics).
    Rejected(Box<Diagnostic>, Vec<Diagnostic>),
    /// The workspace already reports error diagnostics — patch
    /// requires a clean baseline (`E_BASELINE_ERRORS`).
    BaselineErrors(Box<Diagnostic>),
    /// The plan failed provenance checks at apply time
    /// (`E_PLAN_MISMATCH`).
    PlanMismatch(Box<Diagnostic>),
    /// The workspace changed between plan and apply
    /// (`E_STALE_REVISION`).
    Stale {
        /// Revision the plan was computed at.
        planned: u64,
        /// Revision at apply time.
        current: u64,
    },
}

/// Model of [`PatchError`].
#[verifier::ext_equal]
pub enum PatchErrorV {
    UnknownSymbol(DiagnosticV),
    AmbiguousSymbol(DiagnosticV),
    UnknownModule(DiagnosticV),
    Unsupported(DiagnosticV),
    Conflict(DiagnosticV),
    Malformed(DiagnosticV),
    Rejected(DiagnosticV, Seq<DiagnosticV>),
    BaselineErrors(DiagnosticV),
    PlanMismatch(DiagnosticV),
    Stale { planned: u64, current: u64 },
}

/// The diagnostic of a stale plan.
pub open spec fn stale_diag(what: Seq<char>, planned: u64, current: u64) -> DiagnosticV {
    error_of(
        Code::StaleRevision,
        "workspace changed since the "@ + what + " was planned (revision "@ + dec(planned as nat)
            + " → "@ + dec(current as nat) + "); re-plan and retry"@,
    )
}

/// The diagnostic of a stale plan.
pub fn err_stale(what: &str, planned: u64, current: u64) -> (r: Diagnostic)
    ensures
        r@ == stale_diag(what@, planned, current),
{
    let a = decimal(planned);
    let b = decimal(current);
    Diagnostic::error(
        Code::StaleRevision,
        cat7(
            "workspace changed since the ",
            what,
            " was planned (revision ",
            a.as_str(),
            " → ",
            b.as_str(),
            "); re-plan and retry",
        ),
    )
}

/// All diagnostics describing a rejection.
pub open spec fn error_diags(e: PatchErrorV) -> Seq<DiagnosticV> {
    match e {
        PatchErrorV::UnknownSymbol(d) => seq![d],
        PatchErrorV::AmbiguousSymbol(d) => seq![d],
        PatchErrorV::UnknownModule(d) => seq![d],
        PatchErrorV::Unsupported(d) => seq![d],
        PatchErrorV::Conflict(d) => seq![d],
        PatchErrorV::Malformed(d) => seq![d],
        PatchErrorV::BaselineErrors(d) => seq![d],
        PatchErrorV::PlanMismatch(d) => seq![d],
        PatchErrorV::Rejected(d, extra) => seq![d] + extra,
        PatchErrorV::Stale { planned, current } => seq![stale_diag("patch"@, planned, current)],
    }
}

/// Copies of diagnostics.
pub fn copy_diags(v: &Vec<Diagnostic>) -> (r: Vec<Diagnostic>)
    ensures
        diags(r@) == diags(v@),
{
    let mut out: Vec<Diagnostic> = Vec::new();
    let mut i: usize = 0;
    while i < v.len()
        invariant
            i <= v@.len(),
            diags(out@) == diags(v@).take(i as int),
        decreases v@.len() - i,
    {
        let ghost before = diags(out@);
        let d = v[i].copy();
        out.push(d);
        proof {
            assert(diags(out@) =~= before.push(v@[i as int]@));
            assert(diags(v@).take(i + 1) =~= diags(v@).take(i as int).push(v@[i as int]@));
        }
        i += 1;
    }
    proof {
        assert(diags(v@).take(v@.len() as int) =~= diags(v@));
    }
    out
}

fn one(d: &Diagnostic) -> (r: Vec<Diagnostic>)
    ensures
        diags(r@) == seq![d@],
{
    let mut v: Vec<Diagnostic> = Vec::new();
    let c = d.copy();
    v.push(c);
    proof {
        assert(diags(v@) =~= seq![d@]);
    }
    v
}

impl PatchError {
    /// The model of this error.
    pub open spec fn view(&self) -> PatchErrorV {
        match self {
            PatchError::UnknownSymbol(d) => PatchErrorV::UnknownSymbol((**d).view()),
            PatchError::AmbiguousSymbol(d) => PatchErrorV::AmbiguousSymbol((**d).view()),
            PatchError::UnknownModule(d) => PatchErrorV::UnknownModule((**d).view()),
            PatchError::Unsupported(d) => PatchErrorV::Unsupported((**d).view()),
            PatchError::Conflict(d) => PatchErrorV::Conflict((**d).view()),
            PatchError::Malformed(d) => PatchErrorV::Malformed((**d).view()),
            PatchError::Rejected(d, extra) => PatchErrorV::Rejected((**d).view(), diags(extra@)),
            PatchError::BaselineErrors(d) => PatchErrorV::BaselineErrors((**d).view()),
            PatchError::PlanMismatch(d) => PatchErrorV::PlanMismatch((**d).view()),
            PatchError::Stale { planned, current } => PatchErrorV::Stale {
                planned: *planned,
                current: *current,
            },
        }
    }

    /// All diagnostics describing the rejection.
    pub fn diagnostics(&self) -> (r: Vec<Diagnostic>)
        ensures
            diags(r@) == error_diags(self@),
    {
        match self {
            PatchError::UnknownSymbol(d) => one(d),
            PatchError::AmbiguousSymbol(d) => one(d),
            PatchError::UnknownModule(d) => one(d),
            PatchError::Unsupported(d) => one(d),
            PatchError::Conflict(d) => one(d),
            PatchError::Malformed(d) => one(d),
            PatchError::BaselineErrors(d) => one(d),
            PatchError::PlanMismatch(d) => one(d),
            PatchError::Rejected(d, extra) => {
                let mut v = one(d);
                let mut more = copy_diags(extra);
                let ghost a = diags(v@);
                let ghost b = diags(more@);
                v.append(&mut more);
                proof {
                    assert(diags(v@) =~= a + b);
                }
                v
            },
            PatchError::Stale { planned, current } => {
                let mut v: Vec<Diagnostic> = Vec::new();
                let d = err_stale("patch", *planned, *current);
                let ghost dv = d@;
                v.push(d);
                proof {
                    assert(diags(v@) =~= seq![dv]);
                }
                v
            },
        }
    }
}

/// An `E_MALFORMED_PATCH` rejection.
pub open spec fn malformed_of(message: Seq<char>) -> PatchErrorV {
    PatchErrorV::Malformed(error_of(Code::MalformedPatch, message))
}

/// An `E_MALFORMED_PATCH` rejection.
pub fn malformed(message: String) -> (r: PatchError)
    ensures
        r@ == malformed_of(message@),
{
    PatchError::Malformed(Box::new(Diagnostic::error(Code::MalformedPatch, message)))
}

// ---------- what the syntax stages say of a payload ----------

/// A token as the lexer reports it.
#[derive(Clone, Copy, Debug, PartialEq, Eq, Structural)]
pub struct Token {
    /// Whether it is an identifier (no keyword, no other token).
    pub ident: bool,
    /// Byte offset of its first byte.
    pub start: u32,
    /// Byte offset behind its last byte.
    pub end: u32,
}

/// What lexing a text yielded.
#[derive(Clone, Debug)]
pub struct Lexed {
    /// The tokens, in order.
    pub tokens: Vec<Token>,
    /// Whether the lexer reported nothing.
    pub clean: bool,
}

/// What parsing a text yielded.
pub struct Parsed {
    /// The syntax tree.
    pub ast: AstModule,
    /// What the parser reported.
    pub diags: Diagnostics,
}

/// What the syntax stages say of the payload texts of one op: of the
/// name it introduces, and of the text it must parse.
pub struct Probe {
    /// The lexed name, see [`name_payload`].
    pub name: Lexed,
    /// The parsed text, see [`parse_payload`].
    pub parsed: Parsed,
}

/// The name an op introduces, which must be a single identifier.
pub open spec fn introduced_name(op: PatchOp) -> Option<Seq<char>> {
    match op {
        PatchOp::RenameParam { symbol, param, to } => Some(trimmed(to@)),
        PatchOp::RenameField { symbol, field, to } => Some(trimmed(to@)),
        PatchOp::AddField { symbol, field, ty } => Some(trimmed(field@)),
        PatchOp::AddUse { module, path, alias: Some(a) } => Some(trimmed(a@)),
        PatchOp::RemoveUse { module, path, alias: Some(a) } => Some(trimmed(a@)),
        _ => None,
    }
}

/// The name an op introduces — what the lexer is asked about.
pub fn name_payload(op: &PatchOp) -> (r: Option<String>)
    ensures
        opt_text(r) == introduced_name(*op),
{
    match op {
        PatchOp::RenameParam { symbol: _, param: _, to } => Some(trim(to.as_str())),
        PatchOp::RenameField { symbol: _, field: _, to } => Some(trim(to.as_str())),
        PatchOp::AddField { symbol: _, field, ty: _ } => Some(trim(field.as_str())),
        PatchOp::AddUse { module: _, path: _, alias: Some(a) } => Some(trim(a.as_str())),
        PatchOp::RemoveUse { module: _, path: _, alias: Some(a) } => Some(trim(a.as_str())),
        _ => None,
    }
}

/// A synthetic function around a type: what does not parse as one type
/// cannot parse here.
pub open spec fn type_probe(ty: Seq<char>) -> Seq<char> {
    "fn __patch(p: "@ + trimmed(ty) + ") { }"@
}

/// A synthetic declaration around a `use` path.
pub open spec fn use_probe(path: Seq<char>) -> Seq<char> {
    "use "@ + trimmed(path) + ";"@
}

/// The text an op's payload must parse as.
pub open spec fn probe_text(op: PatchOp) -> Option<Seq<char>> {
    match op {
        PatchOp::AddDef { module, text } => Some(text@),
        PatchOp::SetParamType { symbol, param, ty } => Some(type_probe(ty@)),
        PatchOp::SetRetType { symbol, ty: Some(t) } => Some(type_probe(t@)),
        PatchOp::AddField { symbol, field, ty } => Some(type_probe(ty@)),
        PatchOp::SetFieldType { symbol, field, ty } => Some(type_probe(ty@)),
        PatchOp::AddUse { module, path, alias } => Some(use_probe(path@)),
        PatchOp::RemoveUse { module, path, alias } => Some(use_probe(path@)),
        _ => None,
    }
}

fn type_text(ty: &String) -> (r: String)
    ensures
        r@ == type_probe(ty@),
{
    let t = trim(ty.as_str());
    cat3("fn __patch(p: ", t.as_str(), ") { }")
}

fn use_text(path: &String) -> (r: String)
    ensures
        r@ == use_probe(path@),
{
    let t = trim(path.as_str());
    cat3("use ", t.as_str(), ";")
}

/// The text an op's payload must parse as — what the parser is asked
/// about.
pub fn parse_payload(op: &PatchOp) -> (r: Option<String>)
    ensures
        opt_text(r) == probe_text(*op),
{
    match op {
        PatchOp::AddDef { module: _, text } => Some(text.clone()),
        PatchOp::SetParamType { symbol: _, param: _, ty } => Some(type_text(ty)),
        PatchOp::SetRetType { symbol: _, ty: Some(t) } => Some(type_text(t)),
        PatchOp::AddField { symbol: _, field: _, ty } => Some(type_text(ty)),
        PatchOp::SetFieldType { symbol: _, field: _, ty } => Some(type_text(ty)),
        PatchOp::AddUse { module: _, path, alias: _ } => Some(use_text(path)),
        PatchOp::RemoveUse { module: _, path, alias: _ } => Some(use_text(path)),
        _ => None,
    }
}

/// Whether a name lexed as exactly one identifier token.
pub open spec fn ident_lexed(name: Seq<char>, lexed: Lexed) -> bool {
    &&& bytes_of(name).len() > 0
    &&& lexed.clean
    &&& lexed.tokens@.len() == 1
    &&& lexed.tokens@[0].ident
    &&& lexed.tokens@[0].start == 0
    &&& lexed.tokens@[0].end == bytes_of(name).len()
}

/// A name must lex as exactly one identifier token — keywords
/// and anything with trailing junk are rejected. `lexed` is what lexing
/// `name` yielded.
pub fn is_ident(name: &str, lexed: &Lexed) -> (r: bool)
    ensures
        r == ident_lexed(name@, *lexed),
{
    let n: usize = name.as_bytes().len();
    n > 0 && lexed.clean && lexed.tokens.len() == 1 && lexed.tokens[0].ident
        && lexed.tokens[0].start == 0 && lexed.tokens[0].end as usize == n
}

/// The first error of a list of diagnostics.
pub open spec fn first_error(ds: Seq<DiagnosticV>) -> Option<DiagnosticV>
    decreases ds.len(),
{
    if ds.len() == 0 {
        None
    } else {
        match first_error(ds.drop_last()) {
            Some(d) => Some(d),
            None => if ds.last().severity == Severity::Error {
                Some(ds.last())
            } else {
                None
            },
        }
    }
}

proof fn lemma_first_error_stable(ds: Seq<DiagnosticV>, n: int)
    requires
        0 <= n <= ds.len(),
        first_error(ds.take(n)) is Some,
    ensures
        first_error(ds) == first_error(ds.take(n)),
    decreases ds.len() - n,
{
    if n < ds.len() {
        assert(ds.take(n + 1).drop_last() =~= ds.take(n));
        lemma_first_error_stable(ds, n + 1);
    } else {
        assert(ds.take(n) =~= ds);
    }
}

/// The first error of a list of diagnostics.
pub fn find_error(ds: &Diagnostics) -> (r: Option<&Diagnostic>)
    ensures
        match r {
            Some(d) => first_error(ds@) == Some(d@),
            None => first_error(ds@) is None,
        },
{
    let v = ds.iter();
    let ghost all = ds@;
    let mut i: usize = 0;
    proof {
        assert(all.take(0) =~= Seq::empty());
    }
    while i < v.len()
        invariant
            i <= v@.len(),
            all == ds@,
            diags(v@) == all,
            first_error(all.take(i as int)) is None,
        decreases v@.len() - i,
    {
        proof {
            assert(all.take(i + 1).drop_last() =~= all.take(i as int));
            assert(all.take(i + 1).last() == v@[i as int]@);
        }
        if v[i].severity == Severity::Error {
            proof {
                lemma_first_error_stable(all, i + 1);
            }
            return Some(&v[i]);
        }
        i += 1;
    }
    proof {
        assert(all.take(all.len() as int) =~= all);
    }
    None
}

// ---------- shape checks ----------

/// `ops[i] op: ` — how a spec error names its op.
pub open spec fn op_prefix(i: usize, op: Seq<char>) -> Seq<char> {
    "ops["@ + dec(i as nat) + "] "@ + op + ": "@
}

fn prefix(i: usize, op: &str) -> (r: String)
    ensures
        r@ == op_prefix(i, op@),
{
    let n = decimal(i as u64);
    cat5("ops[", n.as_str(), "] ", op, ": ")
}

/// The first error of two checks.
pub open spec fn then_check(a: Option<PatchErrorV>, b: Option<PatchErrorV>) -> Option<PatchErrorV> {
    match a {
        Some(e) => Some(e),
        None => b,
    }
}

/// What is wrong with a payload text: it must be non-empty and at most
/// [`MAX_OP_TEXT`] bytes.
pub open spec fn text_error(i: usize, op: Seq<char>, field: Seq<char>, text: Seq<char>) -> Option<
    PatchErrorV,
> {
    if trimmed(text).len() == 0 {
        Some(malformed_of(op_prefix(i, op) + "`"@ + field + "` must not be empty"@))
    } else if bytes_of(text).len() > MAX_OP_TEXT {
        Some(
            malformed_of(
                op_prefix(i, op) + "`"@ + field + "` is "@ + dec(bytes_of(text).len())
                    + " bytes; the limit is 262144"@,
            ),
        )
    } else {
        None
    }
}

/// The view of a check's result.
pub open spec fn check_result(r: Result<(), PatchError>) -> Option<PatchErrorV> {
    match r {
        Ok(_) => None,
        Err(e) => Some(e@),
    }
}

/// The op payload bound: non-empty and at most `MAX_OP_TEXT` bytes.
pub fn check_text(i: usize, op: &str, field: &str, text: &str) -> (r: Result<(), PatchError>)
    ensures
        check_result(r) == text_error(i, op@, field@, text@),
{
    let t = trim(text);
    if t.as_str().unicode_len() == 0 {
        let p = prefix(i, op);
        return Err(malformed(cat4(p.as_str(), "`", field, "` must not be empty")));
    }
    let n: usize = text.as_bytes().len();
    if n > MAX_OP_TEXT {
        let p = prefix(i, op);
        let len = decimal(n as u64);
        return Err(
            malformed(
                cat6(
                    p.as_str(),
                    "`",
                    field,
                    "` is ",
                    len.as_str(),
                    " bytes; the limit is 262144",
                ),
            ),
        );
    }
    Ok(())
}

/// What is wrong with a new name.
pub open spec fn name_error(
    i: usize,
    op: Seq<char>,
    field: Seq<char>,
    name: Seq<char>,
    lexed: Lexed,
) -> Option<PatchErrorV> {
    then_check(
        text_error(i, op, field, name),
        if ident_lexed(trimmed(name), lexed) {
            None
        } else {
            Some(
                malformed_of(
                    op_prefix(i, op) + "`"@ + field + "` must be a single identifier — `"@ + name
                        + "` is not"@,
                ),
            )
        },
    )
}

/// A new-name payload (`to`, `as`, an added `field`): the bound and
/// the identifier shape. `lexed` is what lexing the trimmed name
/// yielded.
pub fn check_name(i: usize, op: &str, field: &str, name: &str, lexed: &Lexed) -> (r: Result<
    (),
    PatchError,
>)
    ensures
        check_result(r) == name_error(i, op@, field@, name@, *lexed),
{
    match check_text(i, op, field, name) {
        Err(e) => return Err(e),
        Ok(_) => {},
    }
    let t = trim(name);
    if !is_ident(t.as_str(), lexed) {
        let p = prefix(i, op);
        return Err(
            malformed(
                cat6(
                    p.as_str(),
                    "`",
                    field,
                    "` must be a single identifier — `",
                    name,
                    "` is not",
                ),
            ),
        );
    }
    Ok(())
}

/// A payload that does not parse.
pub open spec fn parse_error(i: usize, op: Seq<char>, field: Seq<char>, ds: Seq<DiagnosticV>) -> Option<
    PatchErrorV,
> {
    match first_error(ds) {
        Some(d) => Some(
            malformed_of(op_prefix(i, op) + "`"@ + field + "` does not parse — "@ + d.message),
        ),
        None => None,
    }
}

fn check_parse(i: usize, op: &str, field: &str, ds: &Diagnostics) -> (r: Result<(), PatchError>)
    ensures
        check_result(r) == parse_error(i, op@, field@, ds@),
{
    match find_error(ds) {
        Some(d) => {
            let p = prefix(i, op);
            Err(
                malformed(
                    cat5(p.as_str(), "`", field, "` does not parse — ", d.message.as_str()),
                ),
            )
        },
        None => Ok(()),
    }
}

/// Whether a parsed probe holds one function with one parameter.
pub open spec fn one_type(ast: AstModuleV) -> bool {
    &&& ast.uses.len() == 0
    &&& ast.items.len() == 1
    &&& ast.items[0] is Fn
    &&& ast.items[0]->Fn_0.params.len() == 1
}

/// What is wrong with a type payload.
pub open spec fn type_error(
    i: usize,
    op: Seq<char>,
    ty: Seq<char>,
    ast: AstModuleV,
    ds: Seq<DiagnosticV>,
) -> Option<PatchErrorV> {
    then_check(
        text_error(i, op, "ty"@, ty),
        then_check(
            parse_error(i, op, "ty"@, ds),
            if one_type(ast) {
                None
            } else {
                Some(
                    malformed_of(
                        op_prefix(i, op) + "`ty` must be a single type (`i32`, `m::T`, `[i32]`)"@,
                    ),
                )
            },
        ),
    )
}

/// A `ty` payload must parse as exactly one type — checked by
/// parsing a synthetic `fn f(p: <ty>) {}` so `ty` can never carry
/// trailing text or extra items into the splice. `parsed` is what that
/// parse yielded.
pub fn check_type_text(i: usize, op: &str, ty: &str, parsed: &Parsed) -> (r: Result<(), PatchError>)
    ensures
        check_result(r) == type_error(i, op@, ty@, parsed.ast@, parsed.diags@),
{
    match check_text(i, op, "ty", ty) {
        Err(e) => return Err(e),
        Ok(_) => {},
    }
    match check_parse(i, op, "ty", &parsed.diags) {
        Err(e) => return Err(e),
        Ok(_) => {},
    }
    let ok = parsed.ast.uses.len() == 0 && parsed.ast.items.len() == 1 && match &parsed.ast.items[0] {
        Item::Fn(f) => f.params.len() == 1,
        Item::Data(_) => false,
    };
    if !ok {
        let p = prefix(i, op);
        return Err(
            malformed(cat2(p.as_str(), "`ty` must be a single type (`i32`, `m::T`, `[i32]`)")),
        );
    }
    Ok(())
}

/// What is wrong with a `use` path payload.
pub open spec fn use_error(
    i: usize,
    op: Seq<char>,
    path: Seq<char>,
    ast: AstModuleV,
    ds: Seq<DiagnosticV>,
) -> Option<PatchErrorV> {
    then_check(
        text_error(i, op, "path"@, path),
        then_check(
            parse_error(i, op, "path"@, ds),
            if ast.uses.len() != 1 {
                Some(malformed_of(op_prefix(i, op) + "`path` must be a single `use` path"@))
            } else if ast.uses[0].path.segs.len() > 2 || ast.uses[0].alias is Some
                || ast.items.len() > 0 {
                Some(
                    malformed_of(
                        op_prefix(i, op)
                            + "`path` must be `m` or `m::x` (put an alias in the `as` field, not in `path`)"@,
                    ),
                )
            } else {
                None
            },
        ),
    )
}

/// A `path` payload for `add_use`/`remove_use` must parse as the
/// path of a `use` decl — `m` or `m::x`, never carrying its own
/// `as` clause or trailing text. `parsed` is what parsing it as a
/// declaration yielded.
pub fn check_use_path(i: usize, op: &str, path: &str, parsed: &Parsed) -> (r: Result<
    (),
    PatchError,
>)
    ensures
        check_result(r) == use_error(i, op@, path@, parsed.ast@, parsed.diags@),
{
    match check_text(i, op, "path", path) {
        Err(e) => return Err(e),
        Ok(_) => {},
    }
    match check_parse(i, op, "path", &parsed.diags) {
        Err(e) => return Err(e),
        Ok(_) => {},
    }
    if parsed.ast.uses.len() != 1 {
        let p = prefix(i, op);
        return Err(malformed(cat2(p.as_str(), "`path` must be a single `use` path")));
    }
    let u = &parsed.ast.uses[0];
    assert(u@ == parsed.ast@.uses[0]);
    if u.path.segs.len() > 2 || u.alias.is_some() || parsed.ast.items.len() > 0 {
        let p = prefix(i, op);
        return Err(
            malformed(
                cat2(
                    p.as_str(),
                    "`path` must be `m` or `m::x` (put an alias in the `as` field, not in `path`)",
                ),
            ),
        );
    }
    Ok(())
}

/// What is wrong with an item text, or the name of the item it
/// declares.
pub open spec fn item_check(i: usize, text: Seq<char>, ast: AstModuleV, ds: Seq<DiagnosticV>) -> Result<
    Seq<char>,
    PatchErrorV,
> {
    match then_check(
        text_error(i, "add_def"@, "text"@, text),
        parse_error(i, "add_def"@, "text"@, ds),
    ) {
        Some(e) => Err(e),
        None => if ast.uses.len() > 0 {
            Err(
                malformed_of(
                    op_prefix(i, "add_def"@)
                        + "`use` declarations cannot be added by a patch — qualify paths or edit the file's header instead"@,
                ),
            )
        } else if ast.items.len() != 1 {
            Err(
                malformed_of(
                    op_prefix(i, "add_def"@)
                        + "`text` must contain exactly one top-level `fn` or `data` (found "@ + dec(
                        ast.items.len(),
                    ) + ")"@,
                ),
            )
        } else {
            Ok(item_name(ast.items[0]).name)
        },
    }
}

fn check_item(i: usize, text: &str, parsed: &Parsed) -> (r: Result<String, PatchError>)
    ensures
        match r {
            Ok(n) => item_check(i, text@, parsed.ast@, parsed.diags@) == Ok::<
                Seq<char>,
                PatchErrorV,
            >(n@),
            Err(e) => item_check(i, text@, parsed.ast@, parsed.diags@) == Err::<
                Seq<char>,
                PatchErrorV,
            >(e@),
        },
{
    match check_text(i, "add_def", "text", text) {
        Err(e) => return Err(e),
        Ok(_) => {},
    }
    match check_parse(i, "add_def", "text", &parsed.diags) {
        Err(e) => return Err(e),
        Ok(_) => {},
    }
    if parsed.ast.uses.len() > 0 {
        let p = prefix(i, "add_def");
        return Err(
            malformed(
                cat2(
                    p.as_str(),
                    "`use` declarations cannot be added by a patch — qualify paths or edit the file's header instead",
                ),
            ),
        );
    }
    if parsed.ast.items.len() != 1 {
        let p = prefix(i, "add_def");
        let n = decimal(parsed.ast.items.len() as u64);
        return Err(
            malformed(
                cat4(
                    p.as_str(),
                    "`text` must contain exactly one top-level `fn` or `data` (found ",
                    n.as_str(),
                    ")",
                ),
            ),
        );
    }
    assert(parsed.ast.items@[0]@ == parsed.ast@.items[0]);
    Ok(parsed.ast.items[0].name().name.clone())
}

/// Whether a text is a `{ ... }` block.
pub open spec fn is_block(body: Seq<char>) -> bool {
    has_prefix(trimmed(body), "{"@) && has_suffix(trimmed(body), "}"@)
}

/// What is wrong with a body payload.
pub open spec fn body_error(i: usize, body: Seq<char>) -> Option<PatchErrorV> {
    then_check(
        text_error(i, "replace_body"@, "body"@, body),
        if is_block(body) {
            None
        } else {
            Some(
                malformed_of(
                    op_prefix(i, "replace_body"@) + "`body` must be a complete `{ ... }` block"@,
                ),
            )
        },
    )
}

fn check_body(i: usize, body: &str) -> (r: Result<(), PatchError>)
    ensures
        check_result(r) == body_error(i, body@),
{
    match check_text(i, "replace_body", "body", body) {
        Err(e) => return Err(e),
        Ok(_) => {},
    }
    let t = trim(body);
    if !text_starts_with(t.as_str(), "{") || !text_ends_with(t.as_str(), "}") {
        let p = prefix(i, "replace_body");
        return Err(malformed(cat2(p.as_str(), "`body` must be a complete `{ ... }` block")));
    }
    Ok(())
}

/// What is wrong with an op's payload, in the order it is checked.
pub open spec fn op_error(i: usize, op: PatchOp, name: Lexed, ast: AstModuleV, ds: Seq<DiagnosticV>) -> Option<
    PatchErrorV,
> {
    match op {
        PatchOp::ReplaceBody { symbol, body } => body_error(i, body@),
        PatchOp::RemoveDef { symbol } => None,
        PatchOp::RemoveField { symbol, field } => text_error(i, "remove_field"@, "field"@, field@),
        PatchOp::RenameParam { symbol, param, to } => then_check(
            text_error(i, "rename_param"@, "param"@, param@),
            name_error(i, "rename_param"@, "to"@, to@, name),
        ),
        PatchOp::SetParamType { symbol, param, ty } => then_check(
            text_error(i, "set_param_type"@, "param"@, param@),
            type_error(i, "set_param_type"@, ty@, ast, ds),
        ),
        PatchOp::SetRetType { symbol, ty } => match ty {
            Some(t) => type_error(i, "set_ret_type"@, t@, ast, ds),
            None => None,
        },
        PatchOp::AddUse { module, path, alias } => then_check(
            use_error(i, "add_use"@, path@, ast, ds),
            match alias {
                Some(a) => name_error(i, "add_use"@, "as"@, a@, name),
                None => None,
            },
        ),
        PatchOp::RemoveUse { module, path, alias } => then_check(
            use_error(i, "remove_use"@, path@, ast, ds),
            match alias {
                Some(a) => name_error(i, "remove_use"@, "as"@, a@, name),
                None => None,
            },
        ),
        PatchOp::AddField { symbol, field, ty } => then_check(
            name_error(i, "add_field"@, "field"@, field@, name),
            type_error(i, "add_field"@, ty@, ast, ds),
        ),
        PatchOp::RenameField { symbol, field, to } => then_check(
            text_error(i, "rename_field"@, "field"@, field@),
            name_error(i, "rename_field"@, "to"@, to@, name),
        ),
        PatchOp::SetFieldType { symbol, field, ty } => then_check(
            text_error(i, "set_field_type"@, "field"@, field@),
            type_error(i, "set_field_type"@, ty@, ast, ds),
        ),
        PatchOp::AddDef { module, text } => match item_check(i, text@, ast, ds) {
            Ok(_) => None,
            Err(e) => Some(e),
        },
    }
}

/// The name an `add_def` declares.
pub open spec fn declared_name(op: PatchOp, ast: AstModuleV) -> Option<Seq<char>> {
    match op {
        PatchOp::AddDef { module, text } => Some(item_name(ast.items[0]).name),
        _ => None,
    }
}

fn nothing(r: Result<(), PatchError>) -> (q: Result<Option<String>, PatchError>)
    ensures
        match q {
            Ok(n) => r is Ok && n is None,
            Err(e) => r == Err::<(), PatchError>(e),
        },
{
    match r {
        Ok(_) => Ok(None),
        Err(e) => Err(e),
    }
}

fn both(a: Result<(), PatchError>, b: Result<(), PatchError>) -> (r: Result<(), PatchError>)
    ensures
        check_result(r) == then_check(check_result(a), check_result(b)),
{
    match a {
        Ok(_) => b,
        Err(e) => Err(e),
    }
}

/// Spec-level shape checks on one op — run before any workspace
/// access. Returns the declared item's name for `add_def` (the preview
/// uses it), `None` for other ops. `probe` is what the syntax stages
/// say of the op's payload texts.
pub fn check_op(i: usize, op: &PatchOp, probe: &Probe) -> (r: Result<Option<String>, PatchError>)
    ensures
        ({
            let e = op_error(i, *op, probe.name, probe.parsed.ast@, probe.parsed.diags@);
            match r {
                Ok(n) => e is None && opt_text(n) == declared_name(*op, probe.parsed.ast@),
                Err(x) => e == Some(x@),
            }
        }),
{
    let name = &probe.name;
    let parsed = &probe.parsed;
    match op {
        PatchOp::ReplaceBody { symbol: _, body } => nothing(check_body(i, body.as_str())),
        PatchOp::RemoveDef { symbol: _ } => Ok(None),
        PatchOp::RemoveField { symbol: _, field } => nothing(
            check_text(i, "remove_field", "field", field.as_str()),
        ),
        PatchOp::RenameParam { symbol: _, param, to } => nothing(
            both(
                check_text(i, "rename_param", "param", param.as_str()),
                check_name(i, "rename_param", "to", to.as_str(), name),
            ),
        ),
        PatchOp::SetParamType { symbol: _, param, ty } => nothing(
            both(
                check_text(i, "set_param_type", "param", param.as_str()),
                check_type_text(i, "set_param_type", ty.as_str(), parsed),
            ),
        ),
        PatchOp::SetRetType { symbol: _, ty } => match ty {
            Some(t) => nothing(check_type_text(i, "set_ret_type", t.as_str(), parsed)),
            None => Ok(None),
        },
        PatchOp::AddUse { module: _, path, alias } => {
            let first = check_use_path(i, "add_use", path.as_str(), parsed);
            match alias {
                Some(a) => nothing(
                    both(first, check_name(i, "add_use", "as", a.as_str(), name)),
                ),
                None => nothing(first),
            }
        },
        PatchOp::RemoveUse { module: _, path, alias } => {
            let first = check_use_path(i, "remove_use", path.as_str(), parsed);
            match alias {
                Some(a) => nothing(
                    both(first, check_name(i, "remove_use", "as", a.as_str(), name)),
                ),
                None => nothing(first),
            }
        },
        PatchOp::AddField { symbol: _, field, ty } => nothing(
            both(
                check_name(i, "add_field", "field", field.as_str(), name),
                check_type_text(i, "add_field", ty.as_str(), parsed),
            ),
        ),
        PatchOp::RenameField { symbol: _, field, to } => nothing(
            both(
                check_text(i, "rename_field", "field", field.as_str()),
                check_name(i, "rename_field", "to", to.as_str(), name),
            ),
        ),
        PatchOp::SetFieldType { symbol: _, field, ty } => nothing(
            both(
                check_text(i, "set_field_type", "field", field.as_str()),
                check_type_text(i, "set_field_type", ty.as_str(), parsed),
            ),
        ),
        PatchOp::AddDef { module: _, text } => match check_item(i, text.as_str(), parsed) {
            Ok(n) => Ok(Some(n)),
            Err(e) => Err(e),
        },
    }
}

} // verus!
