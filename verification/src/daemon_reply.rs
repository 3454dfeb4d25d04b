//! The documents the daemon answers with.

use crate::commands::with_result;
use crate::diagnostic::{Diagnostic, DiagnosticV, Diagnostics};
use crate::envelope::{
    envelope_json, envelope_of, with_diagnostics, with_error, with_extra, Envelope,
};
use crate::json::{
    json_object, json_str, json_texts, mem, members, no_members, put, set_member, str_items,
    with_member, Json, JsonV, MemberV,
};
use crate::patch::{err_stale, stale_diag};
use crate::patch_plan::{PatchPlan, PatchReport};
use crate::patch_output::{patch_applied, patch_members};
use crate::plan_output::new_sources_member;
use crate::rename_output::{key_text, rename_applied, rename_members, show_key};
use crate::query::{counts, Count, CountV, QueryKey, QueryStats, StatsV};
use crate::rename::{RenamePlan, RenameReport};
use crate::source::FileId;
use crate::source_file::{source_files, SourceFile, SourceFileV};
use crate::text::{cat2, cat3, dec, decimal, same, texts};
use vstd::prelude::*;

verus! {

// ---------- failures ----------

/// A command that failed on input or output.
pub open spec fn io_reply(command: Seq<char>, message: Seq<char>) -> JsonV {
    envelope_json(with_error(envelope_of(command), "io"@, message, 2))
}

/// A command that failed on input or output.
pub fn io_failed(command: &'static str, message: &str) -> (r: Json)
    ensures
        r@ == io_reply(command@, message@),
{
    Envelope::new(command).error("io", message, 2).into_json()
}

/// The answer to a line that is no JSON.
pub fn malformed(message: &str) -> (r: Json)
    ensures
        r@ == io_reply("daemon"@, "malformed request: "@ + message@),
{
    io_failed("daemon", cat2("malformed request: ", message).as_str())
}

/// The answer to an unknown operation.
pub open spec fn unknown_reply(op: Seq<char>) -> JsonV {
    io_reply("daemon"@, "unknown op `"@ + op + "`"@)
}

/// The answer to an unknown operation.
pub fn unknown_op(op: &str) -> (r: Json)
    ensures
        r@ == unknown_reply(op@),
{
    io_failed("daemon", cat3("unknown op `", op, "`").as_str())
}

/// The answer when a handler failed internally.
pub fn handler_failed() -> (r: Json)
    ensures
        r@ == envelope_json(
            with_error(
                envelope_of("daemon"@),
                "internal"@,
                "panic in request handler; session requires reset"@,
                3,
            ),
        ),
{
    Envelope::new("daemon").error(
        "internal",
        "panic in request handler; session requires reset",
        3,
    ).into_json()
}

// ---------- sessions ----------

/// An answer that is one member.
pub open spec fn single(command: Seq<char>, key: Seq<char>, value: JsonV) -> JsonV {
    envelope_json(with_result(envelope_of(command), JsonV::Object(seq![mem(key, value)])))
}

fn one_member(command: &'static str, key: &str, value: Json) -> (r: Json)
    ensures
        r@ == single(command@, key@, value@),
{
    let ghost vv = value@;
    let mut ms = no_members();
    put(&mut ms, key, value);
    proof {
        assert(members(ms@) =~= seq![mem(key@, vv)]);
    }
    Envelope::new(command).result(json_object(ms)).into_json()
}

/// The answer to `open` and `set`: the file's number.
pub fn opened(file: usize) -> (r: Json)
    ensures
        r@ == single("daemon"@, "file"@, JsonV::Uint(file as u64)),
{
    one_member("daemon", "file", Json::Uint(file as u64))
}

/// The answer to `close`: whether the path was bound.
pub fn closed(had: bool) -> (r: Json)
    ensures
        r@ == single("daemon"@, "closed"@, JsonV::Bool(had)),
{
    one_member("daemon", "closed", Json::Bool(had))
}

// ---------- queries ----------

/// A file's number as text.
pub open spec fn file_text(f: FileId) -> Seq<char> {
    "FileId("@ + dec(f.raw as nat) + ")"@
}

fn show_file(f: FileId) -> (r: String)
    ensures
        r@ == file_text(f),
{
    let n = decimal(f.raw as u64);
    cat3("FileId(", n.as_str(), ")")
}

/// A query as text: its kind and what it is about.
pub open spec fn query_text(k: QueryKey) -> Seq<char> {
    match k {
        QueryKey::Source(f) => "Source("@ + file_text(f) + ")"@,
        QueryKey::Parse(f) => "Parse("@ + file_text(f) + ")"@,
        QueryKey::Ast(f) => "Ast("@ + file_text(f) + ")"@,
        QueryKey::Scope(f) => "Scope("@ + file_text(f) + ")"@,
        QueryKey::AstItem(d) => "AstItem("@ + key_text(d) + ")"@,
        QueryKey::HirBody(d) => "HirBody("@ + key_text(d) + ")"@,
        QueryKey::BodyTypes(d) => "BodyTypes("@ + key_text(d) + ")"@,
        QueryKey::Ownership(f) => "Ownership("@ + file_text(f) + ")"@,
        QueryKey::MirBody(d) => "MirBody("@ + key_text(d) + ")"@,
        QueryKey::Graph(f) => "Graph("@ + file_text(f) + ")"@,
        QueryKey::Diagnostics(f) => "Diagnostics("@ + file_text(f) + ")"@,
        QueryKey::Compile(f) => "Compile("@ + file_text(f) + ")"@,
    }
}

/// A query as text.
pub fn show_query(k: QueryKey) -> (r: String)
    ensures
        r@ == query_text(k),
{
    match k {
        QueryKey::Source(f) => cat3("Source(", show_file(f).as_str(), ")"),
        QueryKey::Parse(f) => cat3("Parse(", show_file(f).as_str(), ")"),
        QueryKey::Ast(f) => cat3("Ast(", show_file(f).as_str(), ")"),
        QueryKey::Scope(f) => cat3("Scope(", show_file(f).as_str(), ")"),
        QueryKey::AstItem(d) => cat3("AstItem(", show_key(d).as_str(), ")"),
        QueryKey::HirBody(d) => cat3("HirBody(", show_key(d).as_str(), ")"),
        QueryKey::BodyTypes(d) => cat3("BodyTypes(", show_key(d).as_str(), ")"),
        QueryKey::Ownership(f) => cat3("Ownership(", show_file(f).as_str(), ")"),
        QueryKey::MirBody(d) => cat3("MirBody(", show_key(d).as_str(), ")"),
        QueryKey::Graph(f) => cat3("Graph(", show_file(f).as_str(), ")"),
        QueryKey::Diagnostics(f) => cat3("Diagnostics(", show_file(f).as_str(), ")"),
        QueryKey::Compile(f) => cat3("Compile(", show_file(f).as_str(), ")"),
    }
}

/// The queries that the last demand evaluated, as JSON.
pub open spec fn evaluated_json(ks: Seq<QueryKey>) -> JsonV {
    JsonV::Array(str_items(Seq::new(ks.len(), |i: int| query_text(ks[i]))))
}

fn evaluated(ks: &Vec<QueryKey>) -> (r: Json)
    ensures
        r@ == evaluated_json(ks@),
{
    let ghost all = Seq::new(ks@.len(), |i: int| query_text(ks@[i]));
    let mut out: Vec<String> = Vec::new();
    let mut i: usize = 0;
    proof {
        assert(texts(out@) =~= all.take(0));
    }
    while i < ks.len()
        invariant
            i <= ks@.len(),
            all == Seq::new(ks@.len(), |j: int| query_text(ks@[j])),
            texts(out@) == all.take(i as int),
        decreases ks@.len() - i,
    {
        let ghost before = texts(out@);
        out.push(show_query(ks[i]));
        proof {
            assert(texts(out@) =~= before.push(all[i as int]));
            assert(all.take(i + 1) =~= all.take(i as int).push(all[i as int]));
        }
        i += 1;
    }
    proof {
        assert(all.take(all.len() as int) =~= all);
    }
    json_texts(&out)
}

/// The answer to `check`.
pub fn checked(ds: &Diagnostics, ks: &Vec<QueryKey>, files: &Vec<SourceFile>) -> (r: Json)
    requires
        ds@.len() > 0 ==> files@.len() > 0,
    ensures
        r@ == envelope_json(
            with_result(
                with_diagnostics(envelope_of("check"@), ds@, source_files(files@)),
                JsonV::Object(seq![mem("evaluated"@, evaluated_json(ks@))]),
            ),
        ),
{
    let mut ms = no_members();
    put(&mut ms, "evaluated", evaluated(ks));
    proof {
        assert(members(ms@) =~= seq![mem("evaluated"@, evaluated_json(ks@))]);
    }
    Envelope::new("check").diagnostics(ds, files).result(json_object(ms)).into_json()
}

/// An explain result with the queries that were evaluated for it.
pub open spec fn with_evaluated(result: JsonV, ks: Seq<QueryKey>) -> JsonV {
    match result {
        JsonV::Object(ms) => JsonV::Object(with_member(ms, "evaluated"@, evaluated_json(ks))),
        _ => result,
    }
}

/// The answer to `explain`.
pub open spec fn explain_reply(
    result: JsonV,
    extra: Option<DiagnosticV>,
    ds: Seq<DiagnosticV>,
    ks: Seq<QueryKey>,
    files: Seq<SourceFileV>,
) -> JsonV {
    let e = with_result(
        with_diagnostics(envelope_of("explain"@), ds, files),
        with_evaluated(result, ks),
    );
    envelope_json(
        match extra {
            Some(d) => with_extra(e, d, files),
            None => e,
        },
    )
}

/// The answer to `explain`.
pub fn explained(
    result: Json,
    extra: Option<&Diagnostic>,
    ds: &Diagnostics,
    ks: &Vec<QueryKey>,
    files: &Vec<SourceFile>,
) -> (r: Json)
    requires
        ds@.len() > 0 || extra is Some ==> files@.len() > 0,
    ensures
        r@ == explain_reply(
            result@,
            match extra {
                Some(d) => Some(d@),
                None => None,
            },
            ds@,
            ks@,
            source_files(files@),
        ),
{
    let ghost rv = result@;
    let full = match result {
        Json::Object(members0) => {
            let mut ms = members0;
            proof {
                assert(rv->Object_0 =~= members(ms@));
            }
            set_member(&mut ms, "evaluated", evaluated(ks));
            json_object(ms)
        },
        other => other,
    };
    assert(full@ == with_evaluated(rv, ks@));
    let mut e = Envelope::new("explain").diagnostics(ds, files).result(full);
    if let Some(d) = extra {
        e = e.extra_diagnostic(d, files);
    }
    e.into_json()
}

// ---------- rename ----------

/// Whether an apply was planned at another revision; a client that names
/// none has not planned.
pub open spec fn outdated(apply: bool, planned: Option<u64>, current: u64) -> bool {
    apply && planned != Some(current)
}

/// The revision a client names, or zero.
pub open spec fn named_revision(planned: Option<u64>) -> u64 {
    match planned {
        Some(n) => n,
        None => 0,
    }
}

/// What an outdated apply is answered.
pub open spec fn stale_reply(
    command: Seq<char>,
    planned: Option<u64>,
    current: u64,
    files: Seq<SourceFileV>,
) -> JsonV {
    envelope_json(
        with_extra(
            envelope_of(command),
            stale_diag(command, named_revision(planned), current),
            files,
        ),
    )
}

fn stale(
    command: &'static str,
    apply: bool,
    planned: Option<u64>,
    current: u64,
    files: &Vec<SourceFile>,
) -> (r: Option<Json>)
    requires
        outdated(apply, planned, current) ==> files@.len() > 0,
    ensures
        r is Some <==> outdated(apply, planned, current),
        r matches Some(j) ==> j@ == stale_reply(command@, planned, current, source_files(files@)),
{
    if !apply {
        return None;
    }
    let named: u64 = match planned {
        Some(n) => {
            if n == current {
                return None;
            }
            n
        },
        None => 0,
    };
    let d = err_stale(command, named, current);
    Some(Envelope::new(command).extra_diagnostic(&d, files).into_json())
}

/// The stale guard of `rename`: what an outdated apply is answered.
pub fn rename_stale(
    apply: bool,
    planned: Option<u64>,
    current: u64,
    files: &Vec<SourceFile>,
) -> (r: Option<Json>)
    requires
        outdated(apply, planned, current) ==> files@.len() > 0,
    ensures
        r is Some <==> outdated(apply, planned, current),
        r matches Some(j) ==> j@ == stale_reply("rename"@, planned, current, source_files(files@)),
{
    stale("rename", apply, planned, current, files)
}

/// The answer to a rename preview.
pub fn rename_planned(plan: &RenamePlan, files: &Vec<SourceFile>) -> (r: Json)
    ensures
        r@ == envelope_json(
            with_result(
                envelope_of("rename"@),
                JsonV::Object(rename_members(plan@, source_files(files@), false)),
            ),
        ),
{
    Envelope::new("rename").result(crate::rename_output::plan_json(plan, files, false)).into_json()
}

/// The result of an applied rename: the plan, the report and the new
/// texts, which the client persists.
pub open spec fn served(
    plan: crate::rename::RenamePlanV,
    report: RenameReport,
    files: Seq<SourceFileV>,
) -> JsonV {
    JsonV::Object(
        rename_applied(plan, report, files).push(new_sources_member(plan.new_sources, files)),
    )
}

/// The answer to an applied rename.
pub fn rename_served(
    plan: &RenamePlan,
    report: &RenameReport,
    ds: &Diagnostics,
    files: &Vec<SourceFile>,
) -> (r: Json)
    requires
        ds@.len() > 0 ==> files@.len() > 0,
    ensures
        r@ == envelope_json(
            with_result(
                with_diagnostics(envelope_of("rename"@), ds@, source_files(files@)),
                served(plan@, *report, source_files(files@)),
            ),
        ),
{
    let e = Envelope::new("rename").diagnostics(ds, files);
    e.result(crate::rename_output::served_json(plan, report, files)).into_json()
}

// ---------- patch ----------

/// The stale guard of `patch`: what an outdated apply is answered.
pub fn patch_stale(
    apply: bool,
    planned: Option<u64>,
    current: u64,
    files: &Vec<SourceFile>,
) -> (r: Option<Json>)
    requires
        outdated(apply, planned, current) ==> files@.len() > 0,
    ensures
        r is Some <==> outdated(apply, planned, current),
        r matches Some(j) ==> j@ == stale_reply("patch"@, planned, current, source_files(files@)),
{
    stale("patch", apply, planned, current, files)
}

/// The answer to a patch whose op list is malformed.
pub fn patch_malformed(d: &Diagnostic, files: &Vec<SourceFile>) -> (r: Json)
    requires
        files@.len() > 0,
    ensures
        r@ == envelope_json(with_extra(envelope_of("patch"@), d@, source_files(files@))),
{
    Envelope::new("patch").extra_diagnostic(d, files).into_json()
}

/// The answer to a patch preview.
pub fn patch_planned(plan: &PatchPlan, files: &Vec<SourceFile>) -> (r: Json)
    ensures
        r@ == envelope_json(
            with_result(
                envelope_of("patch"@),
                JsonV::Object(patch_members(plan@, source_files(files@), false)),
            ),
        ),
{
    Envelope::new("patch").result(crate::patch_output::plan_json(plan, files, false)).into_json()
}

/// The answer to an applied patch: the plan, the report and the new
/// texts, which the client persists.
pub fn patch_served(
    plan: &PatchPlan,
    report: &PatchReport,
    ds: &Diagnostics,
    files: &Vec<SourceFile>,
) -> (r: Json)
    requires
        ds@.len() > 0 ==> files@.len() > 0,
    ensures
        r@ == envelope_json(
            with_result(
                with_diagnostics(envelope_of("patch"@), ds@, source_files(files@)),
                JsonV::Object(
                    patch_applied(plan@, *report, source_files(files@)).push(
                        new_sources_member(plan@.new_sources, source_files(files@)),
                    ),
                ),
            ),
        ),
{
    let e = Envelope::new("patch").diagnostics(ds, files);
    e.result(crate::patch_output::served_json(plan, report, files)).into_json()
}

// ---------- fmt ----------

/// The answer to `fmt`: the canonical text; nothing is installed.
pub fn formatted(path: &str, text: &str, canonical: &str) -> (r: Json)
    ensures
        r@ == envelope_json(
            with_result(
                envelope_of("fmt"@),
                JsonV::Object(
                    seq![
                        mem("file"@, JsonV::Str(path@)),
                        mem("changed"@, JsonV::Bool(canonical@ != text@)),
                        mem("formatted"@, JsonV::Str(canonical@)),
                    ],
                ),
            ),
        ),
{
    let mut ms = no_members();
    put(&mut ms, "file", json_str(path));
    put(&mut ms, "changed", Json::Bool(!same(canonical, text)));
    put(&mut ms, "formatted", json_str(canonical));
    proof {
        assert(members(ms@) =~= seq![
            mem("file"@, JsonV::Str(path@)),
            mem("changed"@, JsonV::Bool(canonical@ != text@)),
            mem("formatted"@, JsonV::Str(canonical@)),
        ]);
    }
    Envelope::new("fmt").result(json_object(ms)).into_json()
}

/// Diagnostics that belong to a file, unless they name another.
pub open spec fn all_in_file(ds: Seq<DiagnosticV>, file: usize) -> Seq<DiagnosticV> {
    Seq::new(
        ds.len(),
        |i: int| crate::diagnostic::stamped(ds[i], Some(FileId { raw: file })),
    )
}

/// The answer to `fmt` when the file does not parse.
pub fn not_formatted(ds: Diagnostics, file: usize, files: &Vec<SourceFile>) -> (r: Json)
    requires
        ds@.len() > 0 ==> files@.len() > 0,
    ensures
        r@ == envelope_json(
            with_diagnostics(
                envelope_of("fmt"@),
                all_in_file(ds@, file),
                source_files(files@),
            ),
        ),
{
    let ghost before = ds@;
    let mut tagged = ds;
    tagged.tag_file_from(0, FileId { raw: file });
    proof {
        assert(tagged@ =~= all_in_file(before, file));
    }
    Envelope::new("fmt").diagnostics(&tagged, files).into_json()
}

// ---------- stats ----------

/// Counts as an object.
pub open spec fn count_members(cs: Seq<CountV>) -> Seq<MemberV> {
    Seq::new(cs.len(), |i: int| mem(cs[i].name, JsonV::Uint(cs[i].count)))
}

fn count_object(cs: &Vec<Count>) -> (r: Json)
    ensures
        r@ == JsonV::Object(count_members(counts(cs@))),
{
    let ghost all = count_members(counts(cs@));
    let mut ms = no_members();
    let mut i: usize = 0;
    proof {
        assert(all.take(0) =~= Seq::empty());
    }
    while i < cs.len()
        invariant
            i <= cs@.len(),
            all == count_members(counts(cs@)),
            members(ms@) == all.take(i as int),
        decreases cs@.len() - i,
    {
        assert(counts(cs@)[i as int] == cs@[i as int]@);
        put(&mut ms, cs[i].name, Json::Uint(cs[i].count));
        i += 1;
        proof {
            assert(all.take(i as int) =~= all.take(i - 1).push(all[i - 1]));
        }
    }
    proof {
        assert(all.take(all.len() as int) =~= all);
    }
    json_object(ms)
}

/// The ownership facts of the last demand.
#[derive(Clone, Copy, Debug, PartialEq, Eq, Structural)]
pub struct Facts {
    /// Collected anew.
    pub collected: u64,
    /// Reused.
    pub reused: u64,
    /// Rounds until nothing changed.
    pub rounds: u64,
}

/// The result of `stats`.
pub open spec fn stats_result(s: StatsV, facts: Facts, ks: Seq<QueryKey>) -> JsonV {
    JsonV::Object(
        seq![
            mem(
                "queries"@,
                JsonV::Object(
                    seq![
                        mem("executed"@, JsonV::Object(count_members(s.executed))),
                        mem("reused"@, JsonV::Object(count_members(s.reused))),
                        mem("eval_nanos"@, JsonV::Object(count_members(s.eval_nanos))),
                    ],
                ),
            ),
            mem(
                "oracle"@,
                JsonV::Object(
                    seq![
                        mem("facts_collected"@, JsonV::Uint(facts.collected)),
                        mem("facts_reused"@, JsonV::Uint(facts.reused)),
                        mem("rounds"@, JsonV::Uint(facts.rounds)),
                    ],
                ),
            ),
            mem("last_evaluated"@, evaluated_json(ks)),
        ],
    )
}

/// The answer to `stats`.
pub fn stats(s: &QueryStats, facts: Facts, ks: &Vec<QueryKey>) -> (r: Json)
    ensures
        r@ == envelope_json(
            with_result(envelope_of("daemon"@), stats_result(s@, facts, ks@)),
        ),
{
    let ghost want = stats_result(s@, facts, ks@)->Object_0;
    let mut queries = no_members();
    put(&mut queries, "executed", count_object(s.executed.items()));
    put(&mut queries, "reused", count_object(s.reused.items()));
    put(&mut queries, "eval_nanos", count_object(s.eval_nanos.items()));
    proof {
        assert(members(queries@) =~= want[0].value->Object_0);
    }
    let mut oracle = no_members();
    put(&mut oracle, "facts_collected", Json::Uint(facts.collected));
    put(&mut oracle, "facts_reused", Json::Uint(facts.reused));
    put(&mut oracle, "rounds", Json::Uint(facts.rounds));
    proof {
        assert(members(oracle@) =~= want[1].value->Object_0);
    }
    let mut ms = no_members();
    put(&mut ms, "queries", json_object(queries));
    put(&mut ms, "oracle", json_object(oracle));
    put(&mut ms, "last_evaluated", evaluated(ks));
    proof {
        assert(members(ms@) =~= want);
    }
    Envelope::new("daemon").result(json_object(ms)).into_json()
}

} // verus!
