//! Semantic core of the Ontixa compiler and developer tool.

pub mod source;
pub mod text;
pub mod code;
pub mod ast;
pub mod lexeme;
pub mod syntax;
pub mod rebase;
pub mod rebase_laws;
pub mod json;
pub mod order;
pub mod diagnostic;
pub mod paths;
pub mod path_laws;
pub mod persist;
pub mod transaction;
pub mod durability;
pub mod leftovers;
pub mod recovery;
pub mod recovery_laws;
pub mod crash;
pub mod progress;
pub mod fxmap;
pub mod hir;
pub mod scope_same;
pub mod hir_lower;
pub mod resolve;
pub mod resolve_laws;
pub mod hir_build;
pub mod ast_lower;
pub mod ast_body;
pub mod ast_module;
pub mod ast_laws;
pub mod decl_laws;
pub mod stmt_laws;
pub mod lexeme_laws;
pub mod seam;
pub mod target;
pub mod target_laws;
pub mod patch;
pub mod snapshot;
pub mod patch_edits;
pub mod param_laws;
pub mod op_laws;
pub mod field_laws;
pub mod splice;
pub mod session;
pub mod patch_plan;
pub mod rename_scan;
pub mod rename;
pub mod rename_local;
pub mod spelling;
pub mod plan_spans;
pub mod rename_spans;
pub mod rename_reach;
pub mod rename_checks;
pub mod local_laws;
pub mod resolve_names;
pub mod param_names;
pub mod lower_spelling;
pub mod lower_shape;
pub mod lower_laws;
pub mod plan_laws;
pub mod plan_checks;
pub mod query;
pub mod report_laws;
pub mod engine;
pub mod engine_laws;
pub mod workspace;
pub mod collect;
pub mod evaluate;
pub mod check_laws;
pub mod check_run;
pub mod source_file;
pub mod place_laws;
pub mod render;
pub mod envelope;
pub mod patch_spec;
pub mod spec_laws;
pub mod plan_output;
pub mod plan_document;
pub mod patch_output;
pub mod rename_output;
pub mod commit;
pub mod fmt;
pub mod explain;
pub mod explain_result;
pub mod explain_text;
pub mod explain_lines;
pub mod explain_laws;
pub mod explain_names;
pub mod run_value;
pub mod output_laws;
pub mod commands;
pub mod answer_laws;
pub mod routing;
pub mod routing_laws;
pub mod daemon;
pub mod request_laws;
pub mod daemon_reply;
pub mod daemon_serve;
