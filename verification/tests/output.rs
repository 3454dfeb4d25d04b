//! Values, diagnostics and what commands write.

use ontixa::code::Code;
use ontixa::commands::{dump, run, run_refusal, tokens, Answer, LexToken, RunOutcome};
use ontixa::diagnostic::{Diagnostic, Diagnostics, Severity};
use ontixa::engine::Engine;
use ontixa::envelope::{
    emit_failure, emit_human_diags, ice_failure, print_timings, CompileFailure, Envelope, Reply,
};
use ontixa::fmt::FmtRun;
use ontixa::fxmap::{IdMap, KeyMap};
use ontixa::hir::{DataShape, Def, DefKind, FieldDef, FileEnv, ModuleScope, Symbol, SymbolKind};
use ontixa::hir::{SymbolTable, TypeRef, VariantDef};
use ontixa::json::{Json, Member};
use ontixa::lexeme::{decode_string, parse_int, spells_float, without_separators};
use ontixa::order::text_before;
use ontixa::patch::PatchError;
use ontixa::patch_spec::{op_from_json, parse_ops};
use ontixa::paths::{
    common_ancestor, journal_name, module_name, parent_or_root, path_key, pending_journals,
    starts_with, workspace_files, FsPath,
};
use ontixa::patch_output;
use ontixa::query::{stage_timings, Counters, QueryKey, StageTiming};
use ontixa::recovery::RecoveryOutcome;
use ontixa::render::{diagnostic_json, render, render_all, to_json, to_json_in};
use ontixa::routing::{recover, selector, spec_source, Selector, SpecSource};
use ontixa::run_value::{int_json, RunValue};
use ontixa::seam::{line_ending, norm_path, split_once, ty_edit_span};
use ontixa::session::{sources_fingerprint, Session};
use ontixa::snapshot::Snapshot;
use ontixa::source::{DefId, FileId, Interner, Span, SymbolId};
use ontixa::source_file::SourceFile;

fn path(text: &str) -> FsPath {
    FsPath {
        absolute: text.starts_with('/'),
        parts: text
            .split('/')
            .filter(|p| !p.is_empty())
            .map(|p| p.to_string())
            .collect(),
    }
}

fn text(s: &str) -> Json {
    Json::Str(s.to_string())
}

fn object(ms: Vec<(&str, Json)>) -> Json {
    Json::Object(
        ms.into_iter()
            .map(|(k, value)| Member { key: k.to_string(), value })
            .collect(),
    )
}

fn get<'a>(j: &'a Json, keys: &[&str]) -> &'a Json {
    let mut cur = j;
    for k in keys {
        cur = match cur {
            Json::Array(v) => &v[k.parse::<usize>().unwrap()],
            _ => cur.get(k).unwrap_or_else(|| panic!("no `{k}` in {cur:?}")),
        };
    }
    cur
}

fn source(name: &str, t: &str) -> SourceFile {
    SourceFile { name: name.to_string(), path: None, text: t.to_string() }
}

fn error(code: Code, message: &str) -> Diagnostic {
    Diagnostic::error(code, message.to_string())
}

// ---------- spans, names, tables ----------

#[test]
fn span_round_trip() {
    assert_eq!(Span::new(7, 9).rel(5).abs(5), Span::new(7, 9));
    assert_eq!(Span::new(3, 5).covering(Span::new(9, 11)), Span::new(3, 11));
    let mut i = Interner::new();
    let a = i.intern("a");
    let b = i.intern("b");
    assert_eq!(i.intern("a"), a);
    assert_ne!(a, b);
    assert_eq!(i.resolve(b), "b");
    assert_eq!(i.get("c"), None);
}

#[test]
fn maps_give_back_what_was_put() {
    let mut m = IdMap::new();
    assert_eq!(m.insert(3, 7), None);
    assert_eq!(m.insert(3, 8), Some(7));
    assert_eq!(m.get(3), Some(8));
    assert_eq!(m.get(4), None);
    assert!(m.contains_key(3) && !m.contains_key(8));
    let mut k = KeyMap::new();
    assert_eq!(k.insert((1, 2, 3, 4), 5), None);
    assert_eq!(k.insert((1, 2, 3, 4), 6), Some(5));
    assert_eq!(k.get((1, 2, 3, 4)), Some(6));
    assert_eq!(k.get((4, 3, 2, 1)), None);
}

#[test]
fn counters_add_by_name() {
    let mut c = Counters::new();
    c.bump("hir", 2);
    c.bump("ast", 1);
    c.bump("hir", 3);
    assert_eq!(c.get("hir"), Some(5));
    assert_eq!(c.get("mir"), None);
    assert_eq!(c.sum(), 6);
    let f = FileId::new(0);
    let ts = stage_timings(&vec![
        (QueryKey::Ast(f), 5),
        (QueryKey::Parse(f), 1),
        (QueryKey::Ast(f), 7),
    ]);
    let total: u64 = ts.iter().map(|t| t.nanos).sum();
    assert_eq!(total, 13);
    assert_eq!(ts.iter().find(|t| t.stage == "ast").unwrap().nanos, 12);
}

#[test]
fn sessions_count_writes() {
    let mut s = Session::new(4);
    let f = s.add_source("a".to_string());
    assert_eq!((f, s.revision(), s.file_module(0)), (0, 1, "file0"));
    s.set_source(0, "a".to_string());
    assert_eq!(s.revision(), 2);
    let g = s.add_source_named("m".to_string(), "b".to_string());
    s.set_sources(&vec![(f, "x".to_string()), (g, "y".to_string())]);
    assert_eq!((s.revision(), s.source(0), s.source(1)), (4, "x", "y"));
    s.set_sources(&vec![(7, "z".to_string())]);
    assert_eq!((s.revision(), s.source(0), s.source(1)), (5, "x", "y"));
    let one = sources_fingerprint(&vec![(0, "x".to_string())]);
    assert_ne!(one, sources_fingerprint(&vec![(1, "x".to_string())]));
    assert_eq!(one, sources_fingerprint(&vec![(0, "x".to_string())]));
}

// ---------- lexemes ----------

#[test]
fn literals_decode() {
    assert_eq!(without_separators("1_000"), "1000");
    assert_eq!(parse_int("170141183460469231731687303715884105727"), Some(i128::MAX));
    assert_eq!(parse_int("170141183460469231731687303715884105728"), None);
    assert_eq!(parse_int("-170141183460469231731687303715884105728"), Some(i128::MIN));
    assert_eq!(parse_int(""), None);
    assert_eq!(parse_int("1x"), None);
    assert!(spells_float("1.5") && spells_float("1e3") && !spells_float("1.5.2"));
    assert_eq!(decode_string("\"a\\n\\\"b\\q\""), "a\n\"b\\q");
}

#[test]
fn paths_in_source_normalize() {
    assert_eq!(norm_path(" a :: b "), "a::b");
    assert_eq!(split_once("m::x::y"), Some(("m", "x::y")));
    assert_eq!(split_once("mx"), None);
    assert_eq!(line_ending("a\r\nb"), "\r\n");
    assert_eq!(line_ending("a\nb"), "\n");
    assert_eq!(ty_edit_span("x:  i32", Span::new(2, 7)), Some(Span::new(4, 7)));
    assert_eq!(ty_edit_span("x: /* c */ i32", Span::new(2, 14)), None);
    assert!(text_before("a", "b") && !text_before("b", "a"));
}

// ---------- diagnostics ----------

/// `rebased` shifts primary, labels, and `{"start","end"}`
/// detail objects by the item base — and clears `origin`, so a
/// rebased diagnostic can never be rebased twice.
#[test]
fn rebased_shifts_spans_and_details() {
    let mut d = error(Code::UseAfterMove, "moved")
        .primary(Span::new(10, 12))
        .label(Span::new(4, 5), "moved here".to_string())
        .detail("moved_at", object(vec![("start", Json::Uint(4)), ("end", Json::Uint(5))]));
    d.origin = Some(DefId::new(0));
    let r = d.rebased(100);
    assert_eq!(r.primary, Some(Span::new(110, 112)));
    assert_eq!(r.labels[0].span, Span::new(104, 105));
    let moved = &r.details.iter().find(|m| m.key == "moved_at").unwrap().value;
    assert_eq!(get(moved, &["start"]), &Json::Uint(104));
    assert_eq!(get(moved, &["end"]), &Json::Uint(105));
    assert!(r.origin.is_none());
}

/// `rebase_tagged` touches only `origin`-tagged diagnostics and
/// resolves each tag through the supplied base lookup.
#[test]
fn rebase_tagged_shifts_only_tagged() {
    let mut ds = Diagnostics::new();
    ds.push(error(Code::Parse, "abs").primary(Span::new(1, 2)));
    let mut tagged = error(Code::UnknownType, "rel").primary(Span::new(3, 4));
    tagged.origin = Some(DefId::new(1));
    ds.push(tagged);
    ds.rebase_tagged(|d| {
        assert_eq!(d, DefId::new(1));
        50
    });
    let v = ds.iter();
    assert_eq!(v[0].primary, Some(Span::new(1, 2)));
    assert_eq!(v[1].primary, Some(Span::new(53, 54)));
    assert!(v.iter().all(|d| d.origin.is_none()));
}

#[test]
fn diagnostics_sort_and_count() {
    let mut ds = Diagnostics::new();
    ds.push(error(Code::Parse, "late").primary(Span::new(9, 10)));
    ds.push(Diagnostic::warning(Code::Parse, "early".to_string()).primary(Span::new(1, 2)));
    assert!(ds.has_errors());
    assert_eq!((ds.len(), ds.error_count()), (2, 1));
    ds.sort();
    assert_eq!(ds.iter()[0].message, "early");
    ds.tag_file_from(1, FileId::new(3));
    assert_eq!(ds.iter()[0].file, None);
    assert_eq!(ds.iter()[1].file, Some(FileId::new(3)));
}

const MOVED: &str = "fn main() -> i32 {\n    let moved = identity(user);\n    return user.id;\n}\n";

#[test]
fn annotated_source_follows_the_convention() {
    let src = format!("{}{MOVED}", "\n".repeat(10));
    let use_at = src.find("user.id").unwrap() as u32;
    let move_at = src.find("user)").unwrap() as u32;
    let d = error(Code::UseAfterMove, "value `user` was used after ownership moved")
        .primary(Span::new(use_at, use_at + 4))
        .label(Span::new(move_at, move_at + 4), "moved here".to_string())
        .label(Span::new(use_at, use_at + 4), "used here".to_string())
        .note("ownership escaped through call to `identity`".to_string());
    let f = source("examples/use-after-move.ixa", &src);
    let out = render(&d, &f);
    assert_eq!(
        out,
        "error[E_USE_AFTER_MOVE]: value `user` was used after ownership moved\n\
         \x20 --> examples/use-after-move.ixa:13:12\n\
         \x20  |\n\
         12 |     let moved = identity(user);\n\
         \x20  |                          ---- moved here\n\
         13 |     return user.id;\n\
         \x20  |            ^^^^ used here\n\
         \x20  |\n\
         \x20  = note: ownership escaped through call to `identity`\n"
    );
    let two = render_all(&vec![d.copy(), d.copy()], &f);
    assert_eq!(two, format!("{out}\n{out}"));
}

#[test]
fn diagnostics_serialize_to_the_versioned_document() {
    let d = error(Code::UnknownSymbol, "no `x`")
        .primary(Span::new(20, 21))
        .subject("x".to_string());
    let f = source("a.ixa", MOVED);
    let j = diagnostic_json(&d, &f);
    assert_eq!(get(&j, &["code"]), &text("E_UNKNOWN_SYMBOL"));
    assert_eq!(get(&j, &["severity"]), &text("error"));
    assert_eq!(get(&j, &["primary", "file"]), &text("a.ixa"));
    assert_eq!(get(&j, &["primary", "start"]), &Json::Uint(20));
    assert_eq!(get(&j, &["subject"]), &text("x"));
    let doc = to_json(&vec![d], &f);
    assert_eq!(get(&doc, &["version"]), &Json::Uint(1));
    assert_eq!(get(&doc, &["diagnostics", "0"]), &j);
    let lc = f.line_col(23);
    assert_eq!((lc.line, lc.column), (2, 5));
    assert_eq!(f.line_text(3), Some("    return user.id;".to_string()));
    assert_eq!(f.line_text(99), None);
}

// ---------- envelopes ----------

#[test]
fn envelopes_have_one_shape() {
    let (j, code) = Envelope::new("check").into_parts();
    assert_eq!(code, 0);
    let Json::Object(ms) = &j else { panic!("an object") };
    let keys: Vec<&str> = ms.iter().map(|m| m.key.as_str()).collect();
    assert_eq!(
        keys,
        ["schema", "command", "success", "diagnostics", "result", "timings", "error"]
    );
    let files = vec![source("a.ixa", "x")];
    let e = Envelope::new("check").extra_diagnostic(&error(Code::Parse, "p"), &files);
    let (j, code) = e.into_parts();
    assert_eq!((get(&j, &["success"]), code), (&Json::Bool(false), 1));
    let (j, code) = Envelope::new("run").error("runtime", "trap", 2).into_parts();
    assert_eq!((get(&j, &["error", "message"]), code), (&text("trap"), 2));
}

#[test]
fn io_error_is_an_envelope() {
    let f = || CompileFailure::Io("cannot read x".to_string());
    let Reply::Document(d, 2) = emit_failure(f(), "check", true) else { panic!("a document") };
    assert_eq!(get(&d, &["success"]), &Json::Bool(false));
    assert_eq!(get(&d, &["error", "kind"]), &text("io"));
    let Reply::Message(m, 2) = emit_failure(f(), "check", false) else { panic!("a message") };
    assert_eq!(m, "error: cannot read x\n");
    let ice = ice_failure(source("a.ixa", "x"), "boom");
    let Reply::Document(d, 3) = emit_failure(ice, "run", true) else { panic!("a document") };
    assert_eq!(get(&d, &["error", "kind"]), &text("internal"));
    assert_eq!(get(&d, &["error", "message"]), &text("internal compiler error: boom"));
}

#[test]
fn timings_line_up() {
    let ts = vec![StageTiming { stage: "ast", nanos: 12_345 }];
    assert_eq!(print_timings(&ts), "timings:\n        ast       12 µs\n");
    let (out, code) = emit_human_diags(&Diagnostics::new(), &vec![source("a", "")]);
    assert_eq!((out.as_str(), code), ("", 0));
}

// ---------- runs ----------

#[test]
fn integers_beyond_64_bits_are_strings() {
    assert_eq!(int_json(7), Json::Uint(7));
    assert_eq!(int_json(-7), Json::Int(-7));
    assert_eq!(int_json(i64::MIN as i128), Json::Int(i64::MIN));
    assert_eq!(int_json(u64::MAX as i128), Json::Uint(u64::MAX));
    assert_eq!(int_json(u64::MAX as i128 + 1), text("18446744073709551616"));
    assert_eq!(int_json(i64::MIN as i128 - 1), text("-9223372036854775809"));
    assert_eq!(
        int_json(i128::MIN),
        text("-170141183460469231731687303715884105728")
    );
}

/// A workspace of one record and one enum, both without a body.
fn shapes() -> Snapshot {
    let mut interner = Interner::new();
    let mut symbols = SymbolTable::new();
    let mut named = |n: &str, kind: SymbolKind, owner: Option<DefId>| {
        let name = interner.intern(n);
        symbols.push(Symbol {
            id: SymbolId::Module(0),
            name,
            kind,
            mutable: false,
            owner,
            span: Span::new(0, 1),
        })
    };
    let p = named("P", SymbolKind::Data, None);
    let x = named("x", SymbolKind::Field, Some(DefId::new(0)));
    let o = named("O", SymbolKind::Data, None);
    let v = named("Some", SymbolKind::Variant, Some(DefId::new(1)));
    let def = |i: usize, name: SymbolId, shape: DataShape| Def {
        id: DefId::new(i),
        file: FileId::new(0),
        item: i,
        name,
        kind: DefKind::Data(shape),
        span: Span::new(0, 1),
    };
    let record = DataShape {
        fields: vec![FieldDef { symbol: x, ty: TypeRef::I32, index: 0 }],
        field_index: IdMap::new(),
        variants: Vec::new(),
        variant_index: IdMap::new(),
    };
    let sum = DataShape {
        fields: Vec::new(),
        field_index: IdMap::new(),
        variants: vec![VariantDef { symbol: v, payload: vec![TypeRef::I32], index: 0 }],
        variant_index: IdMap::new(),
    };
    let defs = vec![def(0, p, record), def(1, o, sum)];
    Snapshot {
        sources: Vec::new(),
        asts: Vec::new(),
        interner,
        scope: ModuleScope {
            root: FileId::new(0),
            defs,
            symbols,
            envs: vec![FileEnv::new()],
            env_index: IdMap::new(),
            files: vec![FileId::new(0)],
            file_names: IdMap::new(),
        },
        bodies: vec![None, None],
        checked: vec![None, None],
    }
}

#[test]
fn values_serialize_by_shape() {
    let s = shapes();
    let rec = RunValue::Struct(DefId::new(0), vec![RunValue::Int(3)]);
    assert_eq!(
        s.value_json(&rec),
        object(vec![("data", text("P")), ("fields", object(vec![("x", Json::Uint(3))]))])
    );
    let some = |tag: u32| RunValue::Variant {
        def: DefId::new(1),
        tag,
        payload: vec![RunValue::Bool(true)],
    };
    assert_eq!(
        s.value_json(&some(0)),
        object(vec![
            ("data", text("O")),
            ("variant", text("Some")),
            ("payload", Json::Array(vec![Json::Bool(true)])),
        ])
    );
    assert_eq!(get(&s.value_json(&some(7)), &["variant"]), &text("7"));
    assert_eq!(s.value_json(&RunValue::Unit), Json::Null);
    assert_eq!(s.value_json(&RunValue::Hole), text("<uninitialized>"));
    assert_eq!(
        s.value_json(&RunValue::Float(Some("1.5".to_string()))),
        Json::Decimal("1.5".to_string())
    );
    assert_eq!(s.value_json(&RunValue::Float(None)), Json::Null);
    assert_eq!(
        s.value_json(&RunValue::Array(vec![RunValue::Char("c".to_string())])),
        Json::Array(vec![text("c")])
    );
}

#[test]
fn run_json_is_one_document_with_value() {
    let s = shapes();
    let files = vec![source("run.ixa", "")];
    let ds = Diagnostics::new();
    assert!(run_refusal(&ds, &files, None, true).is_none());
    let v = RunOutcome::Value(RunValue::Int(7), "7".to_string());
    let Answer::Document(d, 0) = run(&s, "main", &v, &ds, &files, None, true) else {
        panic!("a document")
    };
    assert_eq!(get(&d, &["command"]), &text("run"));
    assert_eq!(get(&d, &["success"]), &Json::Bool(true));
    assert_eq!(get(&d, &["result", "entry"]), &text("main"));
    assert_eq!(get(&d, &["result", "value"]), &Json::Uint(7));
    let Answer::Text(o) = run(&s, "main", &v, &ds, &files, None, false) else { panic!("text") };
    assert_eq!((o.out.as_str(), o.code), ("7\n", 0));
    let trap = RunOutcome::Trap("no entry `x`".to_string());
    let Answer::Document(d, 2) = run(&s, "x", &trap, &ds, &files, None, true) else {
        panic!("a document")
    };
    assert_eq!(get(&d, &["error", "kind"]), &text("runtime"));
    let Answer::Text(o) = run(&s, "x", &trap, &ds, &files, None, false) else { panic!("text") };
    assert_eq!((o.err.as_str(), o.code), ("error: no entry `x`\n", 2));
    let mut bad = Diagnostics::new();
    bad.push(error(Code::Parse, "p"));
    match run_refusal(&bad, &files, None, true) {
        Some(Answer::Document(_, 1)) => {}
        _ => panic!("a refusal"),
    }
}

#[test]
fn tokens_json_is_one_document() {
    let src = "let \"a\"";
    let ts = vec![
        LexToken { kind: "LET_KW".to_string(), start: 0, end: 3 },
        LexToken { kind: "STRING".to_string(), start: 4, end: 7 },
    ];
    let files = vec![source("t.ixa", src)];
    let ds = Diagnostics::new();
    let Answer::Document(d, 0) = tokens(&ts, src, &ds, &files, true) else { panic!("a document") };
    assert_eq!(get(&d, &["result", "tokens", "0", "text"]), &text("let"));
    assert_eq!(get(&d, &["result", "tokens", "1", "start"]), &Json::Uint(4));
    let Answer::Text(o) = tokens(&ts, src, &ds, &files, false) else { panic!("text") };
    assert_eq!(
        o.out,
        "     0..3      LET_KW \"let\"\n     4..7      STRING \"\\\"a\\\"\"\n"
    );
}

#[test]
fn dump_commands_emit_envelopes() {
    let files = vec![source("d.ixa", "")];
    for cmd in ["ast", "mir", "graph"] {
        let payload = object(vec![("items", Json::Array(Vec::new()))]);
        let ds = Diagnostics::new();
        let Answer::Document(d, 0) = dump(cmd, payload, "{}", &ds, &files, true) else {
            panic!("a document")
        };
        assert_eq!(get(&d, &["command"]), &text(cmd));
        assert!(matches!(get(&d, &["result", cmd]), Json::Object(_)));
    }
}

// ---------- arguments ----------

#[test]
fn patch_specs_come_from_four_places() {
    assert!(matches!(spec_source("-"), SpecSource::Stdin));
    assert!(matches!(spec_source("@p.json"), SpecSource::File(p) if p == "p.json"));
    assert!(matches!(spec_source("  {\"ops\": []}"), SpecSource::Inline(t) if t == "  {\"ops\": []}"));
    assert!(matches!(spec_source("[]"), SpecSource::Inline(_)));
    assert!(matches!(spec_source("p.json"), SpecSource::File(p) if p == "p.json"));
    assert!(matches!(spec_source(""), SpecSource::File(p) if p.is_empty()));
}

#[test]
fn rename_targets_are_positions_or_symbols() {
    assert!(matches!(selector("@12"), Selector::At(12)));
    assert!(matches!(selector("@+12"), Selector::At(12)));
    assert!(matches!(selector("@-1"), Selector::Symbol(s) if s == "@-1"));
    assert!(matches!(selector("@-0"), Selector::Symbol(_)));
    assert!(matches!(selector("@4294967296"), Selector::Symbol(_)));
    assert!(matches!(selector("@"), Selector::Symbol(_)));
    assert!(matches!(selector("m::x"), Selector::Symbol(s) if s == "m::x"));
}

#[test]
fn recover_reports_every_outcome() {
    let os = || {
        vec![
            RecoveryOutcome::Committed { tx: "t1".to_string(), files: 2 },
            RecoveryOutcome::RolledBack { tx: "t2".to_string(), files: 1 },
        ]
    };
    let Answer::Text(o) = recover(&os(), false) else { panic!("text") };
    assert_eq!(
        o.out,
        "committed t1: 2 file(s) finalized\nrolled back t2: 1 file(s) untouched\n"
    );
    assert_eq!(o.code, 0);
    let mut mixed = os();
    mixed.push(RecoveryOutcome::Conflict { tx: "t3".to_string(), path: path("/ws/a.ixa") });
    let Answer::Text(o) = recover(&mixed, false) else { panic!("text") };
    assert_eq!(
        o.err,
        "conflict t3: /ws/a.ixa matches neither the pre- nor post-transaction snapshot \
         — journal preserved\n"
    );
    let Answer::Document(d, 1) = recover(&mixed, true) else { panic!("a failure") };
    assert_eq!(get(&d, &["error", "kind"]), &text("conflict"));
    assert_eq!(get(&d, &["result", "outcomes", "0", "status"]), &text("committed"));
    assert_eq!(get(&d, &["result", "outcomes", "2", "path"]), &text("/ws/a.ixa"));
    let Answer::Text(o) = recover(&vec![RecoveryOutcome::Clean], false) else { panic!("text") };
    assert_eq!(o.out, "clean — no pending transaction\n");
}

// ---------- patch specs ----------

#[test]
fn patch_specs_parse_or_say_why() {
    let op = || object(vec![("op", text("remove_def")), ("symbol", text("a"))]);
    assert_eq!(parse_ops(&Json::Array(vec![op()])).unwrap().len(), 1);
    assert_eq!(
        parse_ops(&object(vec![("ops", Json::Array(vec![op(), op()]))])).unwrap().len(),
        2
    );
    for bad in [
        Json::Null,
        object(vec![]),
        Json::Array(vec![text("x")]),
        Json::Array(vec![object(vec![("op", text("fly"))])]),
        Json::Array(vec![object(vec![("op", text("remove_def"))])]),
    ] {
        let d = parse_ops(&bad).err().expect("malformed");
        assert_eq!(d.code, Code::MalformedPatch);
        assert_eq!(d.severity, Severity::Error);
    }
    assert!(op_from_json(0, &op()).is_ok());
}

// ---------- paths ----------

#[test]
fn paths_have_stems_parents_and_keys() {
    assert_eq!(module_name(&path("/ws/math.ixa")), "math");
    assert_eq!(module_name(&path("/ws/.hidden")), ".hidden");
    assert_eq!(parent_or_root(&path("/ws/a.ixa")), path("/ws"));
    assert_eq!(parent_or_root(&path("a.ixa")), path("."));
    assert_eq!(common_ancestor(&path("/a/b/c"), &path("/a/x")), path("/a"));
    assert!(starts_with(&path("/a/b"), &path("/a")));
    assert!(!starts_with(&path("/ab"), &path("/a")));
    assert_eq!(path_key(Some("\\\\?\\C:\\x"), "x"), "C:\\x");
    assert_eq!(path_key(None, "./x"), "./x");
    assert!(journal_name(".ontixa-tx-1-2.journal") && !journal_name("x.journal"));
    let js = pending_journals(&vec![path("/ws/a.ixa"), path("/ws/.ontixa-tx-1.journal")]);
    assert_eq!(js, vec![path("/ws/.ontixa-tx-1.journal")]);
    let files = workspace_files(
        &path("/ws/main.ixa"),
        vec![path("/ws/z.ixa"), path("/ws/main.ixa"), path("/ws/n.txt"), path("/ws/b.ixa")],
    );
    assert_eq!(files, vec![path("/ws/main.ixa"), path("/ws/b.ixa"), path("/ws/z.ixa")]);
}

// ---------- fmt ----------

const MESSY: &str = "fn f( x:i32)->i32{return x;}";
const TIDY: &str = "fn f(x: i32) -> i32 {\n    return x;\n}\n";

fn fmt_of(p: &str, t: &str) -> FmtRun {
    let mut r = FmtRun::new();
    r.add_file(path(p), t.to_string(), Ok(TIDY.to_string()));
    r
}

#[test]
fn fmt_preview_prints_canonical_source_and_writes_nothing() {
    let o = fmt_of("a.ixa", MESSY).human(false, false);
    assert_eq!((o.out.as_str(), o.code), (TIDY, 0));
}

#[test]
fn fmt_json_envelope_reports_would_change() {
    let (d, code) = fmt_of("a.ixa", MESSY).document(false);
    assert_eq!(get(&d, &["command"]), &text("fmt"));
    assert_eq!(get(&d, &["success"]), &Json::Bool(true));
    assert_eq!(get(&d, &["result", "would_change"]), &Json::Bool(true));
    assert_eq!(get(&d, &["result", "files", "0", "changed"]), &Json::Bool(true));
    assert_eq!(get(&d, &["result", "files", "0", "formatted"]), &text(TIDY));
    assert_eq!(get(&d, &["result", "files", "0", "written"]), &Json::Bool(false));
    assert_eq!(code, 0);
}

/// `--check` is the CI gate: exit 1 plus the offending paths on
/// stdout, nothing written; an already-canonical file exits 0.
#[test]
fn fmt_check_exits_nonzero_without_writing() {
    let o = fmt_of("a.ixa", MESSY).human(true, false);
    assert_eq!((o.out.trim(), o.code), ("a.ixa", 1));
    let o = fmt_of("a.ixa", TIDY).human(true, false);
    assert!(o.out.trim().is_empty());
    assert_eq!(o.code, 0);
}

/// In JSON mode a failed `--check` is a verdict, not a command
/// error: `success` stays true, `would_change` carries it, the exit
/// code still gates.
#[test]
fn fmt_check_json_keeps_success_but_exits_1() {
    let (d, code) = fmt_of("a.ixa", MESSY).document(true);
    assert_eq!(get(&d, &["success"]), &Json::Bool(true));
    assert_eq!(get(&d, &["result", "would_change"]), &Json::Bool(true));
    assert_eq!(code, 1);
}

#[test]
fn fmt_write_commits_changed_files_only() {
    let mut r = fmt_of("/ws/a.ixa", MESSY);
    r.add_file(path("/ws/b.ixa"), TIDY.to_string(), Ok(TIDY.to_string()));
    let files = r.changed_files();
    assert_eq!(files.len(), 1);
    assert_eq!(files[0].before, MESSY.as_bytes());
    assert_eq!(files[0].after, TIDY.as_bytes());
    r.mark_written();
    let (d, _) = r.document(false);
    assert_eq!(get(&d, &["result", "files", "0", "written"]), &Json::Bool(true));
    assert_eq!(get(&d, &["result", "files", "1", "written"]), &Json::Bool(false));
}

/// Multiple files format independently — one envelope, one entry
/// per input file.
#[test]
fn fmt_multiple_files_report_per_file() {
    let mut r = fmt_of("a.ixa", MESSY);
    r.add_file(path("b.ixa"), TIDY.to_string(), Ok(TIDY.to_string()));
    let (d, code) = r.document(true);
    let Json::Array(files) = get(&d, &["result", "files"]) else {
        panic!("files")
    };
    assert_eq!(files.len(), 2);
    assert_eq!(get(&files[0], &["changed"]), &Json::Bool(true));
    assert_eq!(get(&files[1], &["changed"]), &Json::Bool(false));
    assert_eq!(code, 1);
}

#[test]
fn fmt_refuses_parse_errors() {
    let mut ds = Diagnostics::new();
    ds.push(error(Code::Parse, "expected `)`").primary(Span::new(0, 1)));
    let mut r = FmtRun::new();
    r.add_file(path("a.ixa"), "fn (".to_string(), Err(ds));
    assert!(r.changed_files().is_empty());
    let (d, code) = r.document(false);
    assert_eq!(code, 1);
    assert_eq!(get(&d, &["diagnostics", "0", "code"]), &text("E_PARSE"));
    assert_eq!(get(&d, &["result", "files", "0", "changed"]), &Json::Null);
}

#[test]
fn details_hold_spans_and_rejections_are_documents() {
    let d = error(Code::Parse, "x").detail_span("at", Span::new(2, 5));
    let doc = diagnostic_json(&d, &source("a.ixa", "abcdef"));
    assert_eq!(get(&doc, &["details", "at", "start"]), &Json::Uint(2));
    assert_eq!(get(&doc, &["details", "at", "end"]), &Json::Uint(5));

    let files = vec![source("a.ixa", "abc"), source("b.ixa", "def")];
    let mut tagged = error(Code::Parse, "y").primary(Span::new(0, 1));
    tagged.file = Some(FileId::new(1));
    let doc = to_json_in(&vec![tagged], &files);
    assert_eq!(get(&doc, &["version"]), &Json::Uint(1));
    assert_eq!(get(&doc, &["diagnostics", "0", "primary", "file"]), &text("b.ixa"));

    let stale = PatchError::Stale { planned: 3, current: 4 };
    let doc = patch_output::rejection_json(&stale, &files);
    assert_eq!(get(&doc, &["command"]), &text("patch"));
    assert_eq!(get(&doc, &["success"]), &Json::Bool(false));
    assert_eq!(get(&doc, &["diagnostics", "0", "code"]), &text("E_STALE_REVISION"));

    assert!(SymbolId::Local(0).is_local());
    assert!(!SymbolId::Module(0).is_local());
}

// ---------- id maps ----------

#[test]
fn id_maps_compare_by_content() {
    let mut a = IdMap::new();
    let mut b = IdMap::new();
    assert!(a.same(&b));
    assert_eq!((a.insert(1, 10), a.insert(2, 20)), (None, None));
    assert_eq!((b.insert(2, 20), b.insert(1, 11)), (None, None));
    assert!(!a.same(&b));
    assert_eq!(b.insert(1, 10), Some(11));
    assert!(a.same(&b) && b.same(&a));
    assert_eq!(b.insert(3, 30), None);
    assert!(!a.same(&b) && !b.same(&a));
}

#[test]
fn full_counters_have_no_room() {
    let e = Engine::new();
    assert!(e.has_room(0) && e.has_room(u64::MAX));
    let mut c = Counters::new();
    assert_eq!(c.checked_sum(), Some(0));
    c.bump("parse", 3);
    c.bump("ast", u64::MAX - 3);
    assert_eq!(c.checked_sum(), Some(u64::MAX));
}

/// Where there is nothing to show, no file has to be shown.
#[test]
fn empty_reports_need_no_file() {
    let none = Diagnostics::new();
    let (d, code) = Envelope::new("check").diagnostics(&none, &Vec::new()).into_parts();
    assert_eq!(get(&d, &["diagnostics"]), &Json::Array(Vec::new()));
    assert_eq!(code, 0);
    let (d, code) = FmtRun::new().document(true);
    assert_eq!(get(&d, &["result", "would_change"]), &Json::Bool(false));
    assert_eq!(code, 0);
    let o = FmtRun::new().human(true, false);
    assert_eq!((o.out.as_str(), o.err.as_str(), o.code), ("", "", 0));
    assert_eq!(emit_human_diags(&none, &Vec::new()), (String::new(), 0));
}

fn clash(members: &[(&str, u64)]) -> Diagnostic {
    members.iter().fold(
        Diagnostic::error(Code::NameConflict, "taken".to_string()),
        |d, (k, n)| d.detail(k, Json::Uint(*n)),
    )
}

/// Details are a map: it does not matter in which order they are set.
#[test]
fn details_collapse_whatever_their_order() {
    let a = clash(&[("line", 1), ("column", 2)]);
    let b = clash(&[("column", 2), ("line", 1)]);
    let c = clash(&[("column", 3), ("line", 1), ("column", 2)]);
    let other = clash(&[("column", 2), ("line", 2)]);
    let keys: Vec<&str> = a.details.iter().map(|m| m.key.as_str()).collect();
    assert_eq!(keys, ["column", "line"]);
    let shown = shapes().collect_diagnostics(&vec![a, b, c, other]);
    assert_eq!(shown.len(), 2);
    assert_eq!(shown[1].details[1].value, Json::Uint(2));
}

/// The normal form of a document: members in key order, the last of each
/// key kept.
#[test]
fn documents_have_one_normal_form() {
    let j = object(vec![
        ("b", object(vec![("y", Json::Uint(1)), ("x", Json::Null)])),
        ("a", Json::Array(vec![object(vec![("q", Json::Uint(1)), ("p", Json::Uint(2))])])),
        ("b", Json::Bool(true)),
    ]);
    let want = object(vec![
        ("a", Json::Array(vec![object(vec![("p", Json::Uint(2)), ("q", Json::Uint(1))])])),
        ("b", Json::Bool(true)),
    ]);
    assert_eq!(j.normal(), want);
    assert_eq!(want.normal(), want);
}

/// Diagnostics that stand level keep the order they were reported in.
#[test]
fn level_diagnostics_keep_their_order() {
    let mut ds = Diagnostics::new();
    for (message, at) in [("c", 9), ("b", 4), ("z", 1), ("a", 4), ("y", 9)] {
        ds.push(error(Code::Parse, message).primary(Span::new(at, at + 1)));
    }
    ds.sort();
    let order: Vec<&str> = ds.iter().iter().map(|d| d.message.as_str()).collect();
    assert_eq!(order, ["z", "b", "a", "c", "y"]);
}
