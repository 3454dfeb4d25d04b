//! Workspaces end to end: resolution, incremental demands, renames and
//! patches, over source texts.

use ontixa::ast::{AstModule, BinOp, Item, Literal};
use ontixa::ast_module::lower_module;
use ontixa::code::Code;
use ontixa::commands::{
    check, explain, patch_done, patch_previewed, rename_done, rename_previewed, rename_refused,
    run as run_command, Answer, RunOutcome,
};
use ontixa::commit::persist_sources;
use ontixa::daemon::{Daemon, Request, Shown};
use ontixa::daemon_serve::{dispatch, Step};
use ontixa::daemon_reply::{
    checked, closed, explained, formatted, handler_failed, io_failed, malformed, opened,
    patch_malformed, patch_planned, patch_served, patch_stale, rename_planned, rename_served,
    rename_stale, stats, Facts,
};
use ontixa::diagnostic::{Diagnostic, Diagnostics, Severity};
use ontixa::envelope::{emit_failure, CompileFailure, Reply};
use ontixa::engine::{Action, Engine};
use ontixa::evaluate::{ast_item, demands};
use ontixa::explain::{Evidence, ParamFacts, Resolved};
use ontixa::hir::{
    DefKey, FnSig, HirBody, HirExprKind, HirStmt, ModuleScope, SymbolKind, TypeRef,
};
use ontixa::hir_lower::lower_body;
use ontixa::json::{Json, Member};
use ontixa::patch::{
    name_payload, parse_payload, Lexed, Parsed, PatchError, PatchOp, Probe, Token,
};
use ontixa::patch_plan::{
    apply_patch, finish_patch, prepare_patch, settle_patch, PatchPlan, PatchReport,
};
use ontixa::patch_spec::parse_ops;
use ontixa::paths::{module_name, workspace_files, FsPath};
use ontixa::patch_output;
use ontixa::rename_output;
use ontixa::query::{stage_timings, QueryKey};
use ontixa::rebase::rebase_item;
use ontixa::rename::{
    apply_rename, finish_rename, prepare_rename, settle_rename, RenameError, RenamePlan,
    RenameReport,
};
use ontixa::rename_local::{finish_rename_at, prepare_rename_at};
use ontixa::recovery::recover_one;
use ontixa::resolve::{resolve_workspace, WorkspaceFile};
use ontixa::routing::recover;
use ontixa::run_value::RunValue;
use ontixa::session::Session;
use ontixa::snapshot::Snapshot;
use ontixa::source_file::SourceFile;
use ontixa::source::{DefId, ExprId, FileId, Interner, Span, SymbolId};
use ontixa::syntax::{SyntaxElement, SyntaxKind, SyntaxNode, SyntaxToken};
use ontixa::transaction::{Action as TxAction, Event};
use ontixa::workspace::{Discovery, Roots};

// ---------- a small parser for test sources ----------

#[derive(Clone)]
struct Tok {
    kind: SyntaxKind,
    text: String,
    start: usize,
    end: usize,
}

fn lex(src: &str) -> (Vec<Tok>, bool) {
    let b: Vec<char> = src.chars().collect();
    let mut at: Vec<usize> = Vec::new();
    let mut n = 0;
    for c in &b {
        at.push(n);
        n += c.len_utf8();
    }
    at.push(n);
    let mut out = Vec::new();
    let mut clean = true;
    let mut i = 0;
    while i < b.len() {
        let s = i;
        let c = b[i];
        let kind = if c.is_whitespace() {
            while i < b.len() && b[i].is_whitespace() {
                i += 1;
            }
            SyntaxKind::Whitespace
        } else if c == '/' && i + 1 < b.len() && b[i + 1] == '/' {
            while i < b.len() && b[i] != '\n' {
                i += 1;
            }
            SyntaxKind::Comment
        } else if c == '/' && i + 1 < b.len() && b[i + 1] == '*' {
            i += 2;
            while i + 1 < b.len() && !(b[i] == '*' && b[i + 1] == '/') {
                i += 1;
            }
            i = (i + 2).min(b.len());
            SyntaxKind::Comment
        } else if c.is_alphabetic() || c == '_' {
            while i < b.len() && (b[i].is_alphanumeric() || b[i] == '_') {
                i += 1;
            }
            let w: String = b[s..i].iter().collect();
            match w.as_str() {
                "true" => SyntaxKind::TrueKw,
                "false" => SyntaxKind::FalseKw,
                "mut" => SyntaxKind::MutKw,
                "fn" | "data" | "let" | "return" | "if" | "else" | "for" | "in" | "match"
                | "use" | "as" => SyntaxKind::Keyword,
                _ => SyntaxKind::Ident,
            }
        } else if c.is_ascii_digit() {
            while i < b.len() && (b[i].is_ascii_digit() || b[i] == '_') {
                i += 1;
            }
            if i + 1 < b.len() && b[i] == '.' && b[i + 1].is_ascii_digit() {
                i += 1;
                while i < b.len() && b[i].is_ascii_digit() {
                    i += 1;
                }
                SyntaxKind::FloatNumber
            } else {
                SyntaxKind::IntNumber
            }
        } else if c == '"' {
            i += 1;
            while i < b.len() && b[i] != '"' {
                if b[i] == '\\' {
                    i += 1;
                }
                i += 1;
            }
            i = (i + 1).min(b.len());
            SyntaxKind::Str
        } else {
            let two: String = b[i..(i + 2).min(b.len())].iter().collect();
            let (k, len) = match two.as_str() {
                "==" => (SyntaxKind::Eq2, 2),
                "!=" => (SyntaxKind::Neq, 2),
                "<=" => (SyntaxKind::Le, 2),
                ">=" => (SyntaxKind::Ge, 2),
                "&&" => (SyntaxKind::And2, 2),
                "||" => (SyntaxKind::Or2, 2),
                ".." => (SyntaxKind::Dot2, 2),
                "::" | "->" | "=>" => (SyntaxKind::Punct, 2),
                _ => match c {
                    '+' => (SyntaxKind::Plus, 1),
                    '-' => (SyntaxKind::Minus, 1),
                    '*' => (SyntaxKind::Star, 1),
                    '/' => (SyntaxKind::Slash, 1),
                    '%' => (SyntaxKind::Percent, 1),
                    '!' => (SyntaxKind::Not, 1),
                    '=' => (SyntaxKind::Eq, 1),
                    '<' => (SyntaxKind::Lt, 1),
                    '>' => (SyntaxKind::Gt, 1),
                    ';' => (SyntaxKind::Semicolon, 1),
                    '(' | ')' | '{' | '}' | '[' | ']' | ',' | ':' | '.' => (SyntaxKind::Punct, 1),
                    _ => {
                        clean = false;
                        (SyntaxKind::Punct, 1)
                    }
                },
            };
            i += len;
            k
        };
        out.push(Tok {
            kind,
            text: b[s..i].iter().collect(),
            start: at[s],
            end: at[i],
        });
    }
    (out, clean)
}

fn trivia(k: SyntaxKind) -> bool {
    k == SyntaxKind::Whitespace || k == SyntaxKind::Comment
}

struct Parser {
    toks: Vec<Tok>,
    pos: usize,
    diags: Diagnostics,
    /// Whether `x {` may start a record literal here.
    records: bool,
}

type Kids = Vec<SyntaxElement>;

impl Parser {
    fn peek_at(&self, mut k: usize) -> Option<&Tok> {
        let mut i = self.pos;
        loop {
            while i < self.toks.len() && trivia(self.toks[i].kind) {
                i += 1;
            }
            if k == 0 || i >= self.toks.len() {
                return self.toks.get(i);
            }
            k -= 1;
            i += 1;
        }
    }

    fn at(&self, text: &str) -> bool {
        self.peek_at(0).is_some_and(|t| t.text == text && t.kind != SyntaxKind::Str)
    }

    fn at_kind(&self, kind: SyntaxKind) -> bool {
        self.peek_at(0).is_some_and(|t| t.kind == kind)
    }

    fn bump(&mut self, kids: &mut Kids) {
        loop {
            if self.pos >= self.toks.len() {
                return;
            }
            let t = self.toks[self.pos].clone();
            self.pos += 1;
            kids.push(SyntaxElement::Token(SyntaxToken {
                kind: t.kind,
                text: t.text,
                span: Span::new(t.start as u32, t.end as u32),
            }));
            if !trivia(t.kind) {
                return;
            }
        }
    }

    fn error(&mut self, what: &str) {
        let at = match self.peek_at(0) {
            Some(t) => t.start,
            None => self.toks.last().map(|t| t.end).unwrap_or(0),
        };
        self.diags.push(
            Diagnostic::error(Code::Parse, format!("expected {what}")).primary(Span::empty(at as u32)),
        );
    }

    fn expect(&mut self, kids: &mut Kids, text: &str) {
        if self.at(text) {
            self.bump(kids);
        } else {
            self.error(text);
        }
    }

    fn node(&self, kind: SyntaxKind, children: Kids) -> SyntaxNode {
        let start = children.first().map(|e| self.span_of(e).start).unwrap_or(0);
        let end = children.last().map(|e| self.span_of(e).end).unwrap_or(0);
        SyntaxNode { kind, children, span: Span::new(start, end) }
    }

    fn span_of(&self, e: &SyntaxElement) -> Span {
        match e {
            SyntaxElement::Node(n) => n.span,
            SyntaxElement::Token(t) => t.span,
        }
    }

    fn push(&self, kids: &mut Kids, kind: SyntaxKind, inner: Kids) {
        let n = self.node(kind, inner);
        kids.push(SyntaxElement::Node(n));
    }

    fn name(&mut self, kids: &mut Kids, kind: SyntaxKind) {
        let mut inner = Kids::new();
        if self.at_kind(SyntaxKind::Ident) {
            self.bump(&mut inner);
        } else {
            self.error("a name");
        }
        self.push(kids, kind, inner);
    }

    fn file(&mut self) -> SyntaxNode {
        let mut kids = Kids::new();
        while self.peek_at(0).is_some() {
            let item = if self.at("use") {
                self.use_decl()
            } else if self.at("data") {
                self.data_decl()
            } else if self.at("fn") {
                self.fn_decl()
            } else {
                self.error("an item");
                let mut bad = Kids::new();
                self.bump(&mut bad);
                self.node(SyntaxKind::Error, bad)
            };
            kids.push(SyntaxElement::Node(item));
        }
        while self.pos < self.toks.len() {
            self.bump(&mut kids);
        }
        self.node(SyntaxKind::SourceFile, kids)
    }

    fn use_decl(&mut self) -> SyntaxNode {
        let mut k = Kids::new();
        self.bump(&mut k);
        self.name(&mut k, SyntaxKind::NameRef);
        while self.at("::") {
            self.bump(&mut k);
            self.name(&mut k, SyntaxKind::NameRef);
        }
        if self.at("as") {
            self.bump(&mut k);
            self.name(&mut k, SyntaxKind::Name);
        }
        self.expect(&mut k, ";");
        self.node(SyntaxKind::UseDecl, k)
    }

    fn type_ref(&mut self, kids: &mut Kids) {
        let mut k = Kids::new();
        if self.at("[") {
            self.bump(&mut k);
            self.type_ref(&mut k);
            self.expect(&mut k, "]");
        } else {
            self.name(&mut k, SyntaxKind::Name);
            while self.at("::") {
                self.bump(&mut k);
                self.name(&mut k, SyntaxKind::Name);
            }
        }
        self.push(kids, SyntaxKind::TypeRef, k);
    }

    fn data_decl(&mut self) -> SyntaxNode {
        let mut k = Kids::new();
        self.bump(&mut k);
        self.name(&mut k, SyntaxKind::Name);
        self.expect(&mut k, "{");
        while self.peek_at(0).is_some() && !self.at("}") {
            let before = self.pos;
            let mut f = Kids::new();
            self.name(&mut f, SyntaxKind::Name);
            let kind = if self.at(":") {
                self.bump(&mut f);
                self.type_ref(&mut f);
                SyntaxKind::Field
            } else {
                if self.at("(") {
                    self.bump(&mut f);
                    while self.peek_at(0).is_some() && !self.at(")") {
                        self.type_ref(&mut f);
                        if self.at(",") {
                            self.bump(&mut f);
                        } else {
                            break;
                        }
                    }
                    self.expect(&mut f, ")");
                }
                SyntaxKind::Variant
            };
            self.expect(&mut f, ";");
            self.push(&mut k, kind, f);
            if self.pos == before {
                self.bump(&mut k);
            }
        }
        self.expect(&mut k, "}");
        self.node(SyntaxKind::DataDecl, k)
    }

    fn fn_decl(&mut self) -> SyntaxNode {
        let mut k = Kids::new();
        self.bump(&mut k);
        self.name(&mut k, SyntaxKind::Name);
        let mut ps = Kids::new();
        self.expect(&mut ps, "(");
        while self.peek_at(0).is_some() && !self.at(")") {
            let before = self.pos;
            let mut p = Kids::new();
            if self.at("mut") {
                self.bump(&mut p);
            }
            self.name(&mut p, SyntaxKind::Name);
            self.expect(&mut p, ":");
            self.type_ref(&mut p);
            self.push(&mut ps, SyntaxKind::Param, p);
            if self.at(",") {
                self.bump(&mut ps);
            }
            if self.pos == before {
                self.bump(&mut ps);
            }
        }
        self.expect(&mut ps, ")");
        self.push(&mut k, SyntaxKind::ParamList, ps);
        if self.at("->") {
            let mut r = Kids::new();
            self.bump(&mut r);
            self.type_ref(&mut r);
            self.push(&mut k, SyntaxKind::RetType, r);
        }
        if self.at("{") {
            let b = self.block();
            k.push(SyntaxElement::Node(b));
        } else {
            self.error("a body");
        }
        self.node(SyntaxKind::FnDecl, k)
    }

    fn block(&mut self) -> SyntaxNode {
        let outer = self.records;
        self.records = true;
        let mut k = Kids::new();
        self.expect(&mut k, "{");
        while self.peek_at(0).is_some() && !self.at("}") {
            let before = self.pos;
            let s = self.stmt();
            k.push(SyntaxElement::Node(s));
            if self.pos == before {
                self.bump(&mut k);
            }
        }
        self.expect(&mut k, "}");
        self.records = outer;
        self.node(SyntaxKind::Block, k)
    }

    fn stmt(&mut self) -> SyntaxNode {
        let mut k = Kids::new();
        if self.at("let") {
            self.bump(&mut k);
            if self.at("mut") {
                self.bump(&mut k);
            }
            self.name(&mut k, SyntaxKind::Name);
            if self.at(":") {
                self.bump(&mut k);
                self.type_ref(&mut k);
            }
            if self.at("=") {
                self.bump(&mut k);
                let e = self.expr(0);
                k.push(SyntaxElement::Node(e));
            }
            self.expect(&mut k, ";");
            return self.node(SyntaxKind::LetStmt, k);
        }
        if self.at("return") {
            self.bump(&mut k);
            if !self.at(";") {
                let e = self.expr(0);
                k.push(SyntaxElement::Node(e));
            }
            self.expect(&mut k, ";");
            return self.node(SyntaxKind::ReturnStmt, k);
        }
        let e = self.expr(0);
        let block_like = matches!(
            e.kind,
            SyntaxKind::IfExpr | SyntaxKind::ForExpr | SyntaxKind::MatchExpr | SyntaxKind::Block
        );
        k.push(SyntaxElement::Node(e));
        if self.at("=") {
            self.bump(&mut k);
            let v = self.expr(0);
            k.push(SyntaxElement::Node(v));
            self.expect(&mut k, ";");
            return self.node(SyntaxKind::AssignStmt, k);
        }
        if self.at(";") {
            self.bump(&mut k);
        } else if !block_like && !self.at("}") {
            self.error(";");
        }
        self.node(SyntaxKind::ExprStmt, k)
    }

    fn power(kind: SyntaxKind) -> Option<u8> {
        Some(match kind {
            SyntaxKind::Or2 => 1,
            SyntaxKind::And2 => 2,
            SyntaxKind::Eq2 | SyntaxKind::Neq => 3,
            SyntaxKind::Lt | SyntaxKind::Le | SyntaxKind::Gt | SyntaxKind::Ge => 4,
            SyntaxKind::Plus | SyntaxKind::Minus => 5,
            SyntaxKind::Star | SyntaxKind::Slash | SyntaxKind::Percent => 6,
            _ => return None,
        })
    }

    fn expr(&mut self, min: u8) -> SyntaxNode {
        let mut lhs = self.prefix();
        loop {
            let Some(p) = self.peek_at(0).and_then(|t| Self::power(t.kind)) else {
                return lhs;
            };
            if p <= min {
                return lhs;
            }
            let mut k = Kids::new();
            k.push(SyntaxElement::Node(lhs));
            self.bump(&mut k);
            let rhs = self.expr(p);
            k.push(SyntaxElement::Node(rhs));
            lhs = self.node(SyntaxKind::BinExpr, k);
        }
    }

    fn prefix(&mut self) -> SyntaxNode {
        if self.at("-") || self.at("!") {
            let mut k = Kids::new();
            self.bump(&mut k);
            let e = self.prefix();
            k.push(SyntaxElement::Node(e));
            return self.node(SyntaxKind::PrefixExpr, k);
        }
        let mut e = self.primary();
        loop {
            let mut k = Kids::new();
            if self.at("(") {
                k.push(SyntaxElement::Node(e));
                let mut args = Kids::new();
                self.bump(&mut args);
                self.list(&mut args, ")");
                self.push(&mut k, SyntaxKind::ArgList, args);
                e = self.node(SyntaxKind::CallExpr, k);
            } else if self.at(".") {
                k.push(SyntaxElement::Node(e));
                self.bump(&mut k);
                self.name(&mut k, SyntaxKind::NameRef);
                e = self.node(SyntaxKind::FieldExpr, k);
            } else if self.at("[") {
                k.push(SyntaxElement::Node(e));
                self.bump(&mut k);
                let outer = self.records;
                self.records = true;
                let inner = self.range_or_expr("]");
                k.push(SyntaxElement::Node(inner));
                self.records = outer;
                self.expect(&mut k, "]");
                e = self.node(SyntaxKind::IndexExpr, k);
            } else {
                return e;
            }
        }
    }

    fn list(&mut self, kids: &mut Kids, close: &str) {
        let outer = self.records;
        self.records = true;
        while self.peek_at(0).is_some() && !self.at(close) {
            let before = self.pos;
            let e = self.expr(0);
            kids.push(SyntaxElement::Node(e));
            if self.at(",") {
                self.bump(kids);
            }
            if self.pos == before {
                self.bump(kids);
            }
        }
        self.records = outer;
        self.expect(kids, close);
    }

    fn range_or_expr(&mut self, close: &str) -> SyntaxNode {
        let mut k = Kids::new();
        if !self.at("..") {
            let e = self.expr(0);
            if !self.at("..") {
                return e;
            }
            k.push(SyntaxElement::Node(e));
        }
        self.bump(&mut k);
        if !self.at(close) {
            let e = self.expr(0);
            k.push(SyntaxElement::Node(e));
        }
        self.node(SyntaxKind::Range, k)
    }

    fn guarded(&mut self) -> SyntaxNode {
        let outer = self.records;
        self.records = false;
        let e = self.range_or_expr("{");
        self.records = outer;
        e
    }

    fn primary(&mut self) -> SyntaxNode {
        let mut k = Kids::new();
        let Some(t) = self.peek_at(0).cloned() else {
            self.error("an expression");
            return self.node(SyntaxKind::Error, k);
        };
        match t.kind {
            SyntaxKind::IntNumber
            | SyntaxKind::FloatNumber
            | SyntaxKind::Str
            | SyntaxKind::TrueKw
            | SyntaxKind::FalseKw => {
                self.bump(&mut k);
                self.node(SyntaxKind::Literal, k)
            }
            SyntaxKind::Ident => self.path(),
            _ => match t.text.as_str() {
                "(" => {
                    self.bump(&mut k);
                    let outer = self.records;
                    self.records = true;
                    let e = self.expr(0);
                    self.records = outer;
                    k.push(SyntaxElement::Node(e));
                    self.expect(&mut k, ")");
                    self.node(SyntaxKind::ParenExpr, k)
                }
                "[" => {
                    self.bump(&mut k);
                    self.list(&mut k, "]");
                    self.node(SyntaxKind::ArrayExpr, k)
                }
                "{" => self.block(),
                "if" => {
                    self.bump(&mut k);
                    let c = self.guarded();
                    k.push(SyntaxElement::Node(c));
                    let b = self.block();
                    k.push(SyntaxElement::Node(b));
                    if self.at("else") {
                        self.bump(&mut k);
                        let e = if self.at("if") { self.primary() } else { self.block() };
                        k.push(SyntaxElement::Node(e));
                    }
                    self.node(SyntaxKind::IfExpr, k)
                }
                "for" => {
                    self.bump(&mut k);
                    if self.at("mut") {
                        self.bump(&mut k);
                    }
                    self.name(&mut k, SyntaxKind::Name);
                    self.expect(&mut k, "in");
                    let it = self.guarded();
                    k.push(SyntaxElement::Node(it));
                    let b = self.block();
                    k.push(SyntaxElement::Node(b));
                    self.node(SyntaxKind::ForExpr, k)
                }
                "match" => {
                    self.bump(&mut k);
                    let s = self.guarded();
                    k.push(SyntaxElement::Node(s));
                    let mut arms = Kids::new();
                    self.expect(&mut arms, "{");
                    while self.peek_at(0).is_some() && !self.at("}") {
                        let before = self.pos;
                        let mut a = Kids::new();
                        self.pattern(&mut a);
                        self.expect(&mut a, "=>");
                        let outer = self.records;
                        self.records = true;
                        let e = self.expr(0);
                        self.records = outer;
                        a.push(SyntaxElement::Node(e));
                        self.push(&mut arms, SyntaxKind::MatchArm, a);
                        if self.at(",") {
                            self.bump(&mut arms);
                        }
                        if self.pos == before {
                            self.bump(&mut arms);
                        }
                    }
                    self.expect(&mut arms, "}");
                    self.push(&mut k, SyntaxKind::MatchArmList, arms);
                    self.node(SyntaxKind::MatchExpr, k)
                }
                _ => {
                    self.error("an expression");
                    self.bump(&mut k);
                    self.node(SyntaxKind::Error, k)
                }
            },
        }
    }

    fn pattern(&mut self, kids: &mut Kids) {
        let mut k = Kids::new();
        let qualified = self.peek_at(1).is_some_and(|t| t.text == "::" || t.text == "(");
        if !qualified {
            self.name(&mut k, SyntaxKind::Name);
            self.push(kids, SyntaxKind::PatBind, k);
            return;
        }
        self.name(&mut k, SyntaxKind::NameRef);
        while self.at("::") {
            self.bump(&mut k);
            self.name(&mut k, SyntaxKind::NameRef);
        }
        if self.at("(") {
            self.bump(&mut k);
            while self.peek_at(0).is_some() && !self.at(")") {
                let before = self.pos;
                let mut b = Kids::new();
                self.name(&mut b, SyntaxKind::Name);
                self.push(&mut k, SyntaxKind::PatBind, b);
                if self.at(",") {
                    self.bump(&mut k);
                }
                if self.pos == before {
                    self.bump(&mut k);
                }
            }
            self.expect(&mut k, ")");
        }
        self.push(kids, SyntaxKind::PatVariant, k);
    }

    fn path(&mut self) -> SyntaxNode {
        let mut k = Kids::new();
        self.name(&mut k, SyntaxKind::NameRef);
        let mut head = if self.at("::") {
            while self.at("::") {
                self.bump(&mut k);
                self.name(&mut k, SyntaxKind::NameRef);
            }
            self.node(SyntaxKind::PathExpr, k)
        } else {
            match k.remove(0) {
                SyntaxElement::Node(n) => n,
                SyntaxElement::Token(_) => unreachable!(),
            }
        };
        if self.records && self.at("{") {
            let mut s = Kids::new();
            s.push(SyntaxElement::Node(head));
            self.bump(&mut s);
            while self.peek_at(0).is_some() && !self.at("}") {
                let before = self.pos;
                let mut f = Kids::new();
                self.name(&mut f, SyntaxKind::NameRef);
                self.expect(&mut f, ":");
                let e = self.expr(0);
                f.push(SyntaxElement::Node(e));
                self.push(&mut s, SyntaxKind::StructLitField, f);
                if self.at(",") {
                    self.bump(&mut s);
                }
                if self.pos == before {
                    self.bump(&mut s);
                }
            }
            self.expect(&mut s, "}");
            head = self.node(SyntaxKind::StructLit, s);
        }
        head
    }
}

/// Parses and lowers a source text.
fn parse_ast(src: &str) -> (AstModule, Diagnostics) {
    let (toks, _) = lex(src);
    let mut p = Parser { toks, pos: 0, diags: Diagnostics::new(), records: true };
    let root = p.file();
    let mut diags = p.diags;
    let m = lower_module(&root, &mut diags);
    (m, diags)
}

// ---------- a database over the library ----------

/// What a compile of a workspace yields.
struct Compiled {
    snap: Snapshot,
    diags: Diagnostics,
}

impl Compiled {
    fn is_valid(&self) -> bool {
        !self.diags.has_errors()
    }
}

/// Sources, the query engine over them, and the values it numbers.
struct Db {
    session: Session,
    engine: Engine,
    interner: Interner,
    numbers: Vec<String>,
    asts: Vec<Option<AstModule>>,
    scopes: Vec<Option<ModuleScope>>,
    scope_values: Vec<u64>,
    facts: Vec<(DefKey, (u64, u64))>,
    collected: usize,
    reused: usize,
}

/// The files a root reaches, in discovery order.
fn reach(root: usize, modules: &Vec<String>, asts: &[AstModule]) -> Vec<FileId> {
    let mut d = Discovery::new(FileId::new(root));
    while let Some(f) = d.next_file() {
        d.visit(modules, &asts[f.raw].uses);
    }
    d.files().clone()
}

fn resolve_reached(
    root: usize,
    modules: &[String],
    asts: &[AstModule],
    files: &[FileId],
    interner: &mut Interner,
    diags: &mut Diagnostics,
) -> ModuleScope {
    let ws: Vec<WorkspaceFile> = files
        .iter()
        .map(|f| WorkspaceFile { file: *f, module: &modules[f.raw], ast: &asts[f.raw] })
        .collect();
    resolve_workspace(FileId::new(root), &ws, interner, diags)
}

/// The errors these sources can have behind resolution: a function that
/// returns a text where it declares an integer, and a record that is
/// read after a `let` took it over.
fn type_errors(body: &HirBody, sig: &FnSig, diags: &mut Diagnostics) {
    for e in &body.exprs {
        let HirExprKind::Block { stmts, .. } = &e.kind else {
            continue;
        };
        for s in stmts {
            if let HirStmt::Return { value: Some(v), span } = s {
                let text = matches!(
                    body.exprs[v.raw].kind,
                    HirExprKind::Literal(Literal::Str(_))
                );
                if text && sig.ret == TypeRef::I32 {
                    diags.push(
                        Diagnostic::error(Code::TypeMismatch, "expected i32".to_string())
                            .primary(*span),
                    );
                }
            }
        }
        for s in stmts {
            let HirStmt::Let { symbol: record, init: Some(v), .. } = s else {
                continue;
            };
            if !matches!(body.exprs[v.raw].kind, HirExprKind::StructLit { .. }) {
                continue;
            }
            for taker in stmts {
                let HirStmt::Let { init: Some(w), .. } = taker else {
                    continue;
                };
                if !matches!(body.exprs[w.raw].kind, HirExprKind::Var(x) if x == *record) {
                    continue;
                }
                let at = body.exprs[w.raw].span;
                for read in &body.exprs {
                    if matches!(read.kind, HirExprKind::Var(x) if x == *record)
                        && read.span.start > at.start
                    {
                        diags.push(
                            Diagnostic::error(
                                Code::UseAfterMove,
                                "use of moved value".to_string(),
                            )
                            .primary(read.span)
                            .label(at, "value moved here".to_string()),
                        );
                    }
                }
            }
        }
    }
}

fn item_of(ast: &AstModule, item: usize) -> Item {
    let it = &ast.items[item];
    rebase_item(it, it.span().start)
}

/// Compiles texts from nothing.
fn compile_texts(texts: &[(String, String)], root: usize) -> Compiled {
    let mut interner = Interner::new();
    let modules: Vec<String> = texts.iter().map(|t| t.0.clone()).collect();
    let mut asts = Vec::new();
    let mut parsed = Vec::new();
    for (_, text) in texts {
        let (a, d) = parse_ast(text);
        asts.push(a);
        parsed.push(d);
    }
    let files = reach(root, &modules, &asts);
    let mut all: Vec<Diagnostic> = Vec::new();
    for (f, d) in parsed.into_iter().enumerate() {
        if files.contains(&FileId::new(f)) {
            let mut d = d;
            d.tag_file_from(0, FileId::new(f));
            all.extend(d.into_vec());
        }
    }
    let mut ds = Diagnostics::new();
    let scope = resolve_reached(root, &modules, &asts, &files, &mut interner, &mut ds);
    let mut bodies = Vec::new();
    let mut checked = Vec::new();
    for d in 0..scope.defs.len() {
        let def = DefId::new(d);
        let body = match item_of(&asts[scope.defs[d].file.raw], scope.defs[d].item) {
            Item::Fn(f) => Some(lower_body(&f, def, &scope, &mut interner, &mut ds)),
            Item::Data(_) => None,
        };
        if let (Some(b), Some(sig)) = (&body, scope.fn_sig(def)) {
            let mark = ds.len();
            type_errors(b, sig, &mut ds);
            ds.tag_origin_from(mark, def);
        }
        bodies.push(body);
        checked.push(None);
    }
    all.extend(ds.into_vec());
    let snap = Snapshot {
        sources: texts.iter().map(|t| t.1.clone()).collect(),
        asts,
        interner,
        scope,
        bodies,
        checked,
    };
    let mut diags = Diagnostics::new();
    for d in snap.collect_diagnostics(&all) {
        diags.push(d);
    }
    diags.sort();
    Compiled { snap, diags }
}

fn lexed(name: &str) -> Lexed {
    let (toks, clean) = lex(name);
    Lexed {
        tokens: toks
            .iter()
            .map(|t| Token {
                ident: t.kind == SyntaxKind::Ident,
                start: t.start as u32,
                end: t.end as u32,
            })
            .collect(),
        clean,
    }
}

impl Db {
    fn new(id: u64) -> Db {
        Db {
            session: Session::new(id),
            engine: Engine::new(),
            interner: Interner::new(),
            numbers: Vec::new(),
            asts: Vec::new(),
            scopes: Vec::new(),
            scope_values: Vec::new(),
            facts: Vec::new(),
            collected: 0,
            reused: 0,
        }
    }

    fn number(&mut self, value: String) -> u64 {
        match self.numbers.iter().position(|v| *v == value) {
            Some(i) => i as u64,
            None => {
                self.numbers.push(value);
                self.numbers.len() as u64 - 1
            }
        }
    }

    fn write(&mut self, f: usize) {
        let text = self.session.source(f).to_string();
        let v = self.number(text);
        self.engine.write_input(QueryKey::Source(FileId::new(f)), v);
    }

    fn add_source_named(&mut self, module: &str, text: &str) -> usize {
        let f = self.session.add_source_named(module.to_string(), text.to_string());
        self.asts.push(None);
        self.scopes.push(None);
        self.scope_values.push(0);
        self.engine.open_revision();
        self.write(f);
        f
    }

    fn add_source(&mut self, text: &str) -> usize {
        let f = self.session.add_source(text.to_string());
        self.asts.push(None);
        self.scopes.push(None);
        self.scope_values.push(0);
        self.engine.open_revision();
        self.write(f);
        f
    }

    fn set_source(&mut self, f: usize, text: impl Into<String>) {
        self.session.set_source(f, text.into());
        self.engine.open_revision();
        self.write(f);
    }

    fn source(&self, f: usize) -> &str {
        self.session.source(f)
    }

    fn revision(&self) -> u64 {
        self.session.revision()
    }

    fn texts(&self) -> Vec<(String, String)> {
        (0..self.session.file_count())
            .map(|f| (self.session.file_module(f).to_string(), self.source(f).to_string()))
            .collect()
    }

    /// The workspace as it stands, compiled from nothing.
    fn fresh(&self, root: usize) -> Compiled {
        compile_texts(&self.texts(), root)
    }

    fn with_new(&self, news: &[(usize, String)], root: usize) -> Compiled {
        let mut texts = self.texts();
        for (f, t) in news {
            texts[*f].1 = t.clone();
        }
        compile_texts(&texts, root)
    }

    fn last_evaluated(&self) -> Vec<QueryKey> {
        self.engine.last_evaluated()
    }

    // ----- demands -----

    fn modules(&self) -> Vec<String> {
        self.texts().into_iter().map(|t| t.0).collect()
    }

    fn drive(&mut self) -> u64 {
        loop {
            assert!(self.engine.has_room(0));
            match self.engine.step() {
                Action::Again => {}
                Action::Evaluate(k) => self.evaluate(k),
                Action::Resume(_, v) => return v,
                Action::Ready(_, v) => return v,
                Action::Nothing => panic!("nothing to step"),
            }
        }
    }

    fn need(&mut self, k: QueryKey) -> u64 {
        self.engine.demand(k);
        self.drive()
    }

    fn top(&mut self, k: QueryKey) -> u64 {
        self.engine.open(k);
        self.drive()
    }

    fn scope_ref(&self, root: FileId) -> &ModuleScope {
        self.scopes[root.raw].as_ref().expect("resolved")
    }

    /// Demands what the query demands behind its scope.
    fn need_all(&mut self, k: QueryKey, root: FileId) -> Vec<u64> {
        let ks = demands(k, self.scope_ref(root), root);
        ks.into_iter().map(|d| self.need(d)).collect()
    }

    fn evaluate(&mut self, k: QueryKey) {
        let mut own = Diagnostics::new();
        let value = match k {
            QueryKey::Source(_) => unreachable!(),
            QueryKey::Parse(f) => {
                self.need(QueryKey::Source(f));
                let text = self.source(f.raw).to_string();
                self.number(format!("tree {text}"))
            }
            QueryKey::Ast(f) => {
                self.need(QueryKey::Parse(f));
                let (ast, mut ds) = parse_ast(self.source(f.raw));
                ds.tag_file_from(0, f);
                own = ds;
                let v = self.number(format!("{ast:?}"));
                self.asts[f.raw] = Some(ast);
                v
            }
            QueryKey::Scope(root) => {
                let mut d = Discovery::new(root);
                while let Some(f) = d.next_file() {
                    self.need(QueryKey::Ast(f));
                    let modules = self.modules();
                    d.visit(&modules, &self.asts[f.raw].as_ref().unwrap().uses);
                }
                let files = d.files().clone();
                let modules = self.modules();
                let ws: Vec<WorkspaceFile> = files
                    .iter()
                    .map(|f| WorkspaceFile {
                        file: *f,
                        module: &modules[f.raw],
                        ast: self.asts[f.raw].as_ref().unwrap(),
                    })
                    .collect();
                let scope = resolve_workspace(root, &ws, &mut self.interner, &mut own);
                let unchanged = matches!(&self.scopes[root.raw], Some(old) if old.same(&scope));
                self.scopes[root.raw] = Some(scope);
                if !unchanged {
                    let revision = self.engine.revision();
                    self.scope_values[root.raw] =
                        self.number(format!("scope {} {revision}", root.raw));
                }
                self.scope_values[root.raw]
            }
            QueryKey::AstItem(d) => {
                self.need(QueryKey::Ast(d.file));
                let name = self.interner.resolve(d.name).to_string();
                let item = ast_item(self.asts[d.file.raw].as_ref().unwrap(), &name);
                self.number(format!("{item:?}"))
            }
            QueryKey::HirBody(d) => {
                self.need(QueryKey::Scope(d.root));
                self.need_all(k, d.root);
                let (_, item) = self.lowered(d, &mut own);
                self.number(format!("hir {item}"))
            }
            QueryKey::BodyTypes(d) => {
                self.need(QueryKey::Scope(d.root));
                self.need_all(k, d.root);
                let (body, item) = self.lowered(d, &mut Diagnostics::new());
                if let Some(sig) = self.scope_ref(d.root).fn_sig(body.def) {
                    type_errors(&body, sig, &mut own);
                }
                own.tag_origin_from(0, body.def);
                self.number(format!("types {item}"))
            }
            QueryKey::Ownership(root) => {
                self.need(QueryKey::Scope(root));
                self.need_all(k, root);
                let text = self.contracts(root);
                self.number(text)
            }
            QueryKey::MirBody(d) => {
                self.need(QueryKey::Scope(d.root));
                let vs = self.need_all(k, d.root);
                self.number(format!("mir {vs:?}"))
            }
            QueryKey::Graph(root) | QueryKey::Diagnostics(root) | QueryKey::Compile(root) => {
                self.need(QueryKey::Scope(root));
                let vs = self.need_all(k, root);
                self.number(format!("{} {vs:?}", k.name()))
            }
        };
        self.engine.finish(value, own.into_vec(), 1);
    }

    fn lowered(&mut self, d: DefKey, ds: &mut Diagnostics) -> (HirBody, String) {
        let name = self.interner.resolve(d.name).to_string();
        let item = ast_item(self.asts[d.file.raw].as_ref().unwrap(), &name).expect("item");
        let text = format!("{item:?}");
        let scope = self.scopes[d.root.raw].as_ref().unwrap();
        let def = (0..scope.defs.len())
            .map(DefId::new)
            .find(|x| scope.def_key(*x) == d)
            .expect("def");
        match item {
            Item::Fn(f) => (lower_body(&f, def, scope, &mut self.interner, ds), text),
            Item::Data(_) => unreachable!(),
        }
    }

    /// Per function and parameter: whether the body moves it into a
    /// binding.
    fn contracts(&mut self, root: FileId) -> String {
        let keys: Vec<DefKey> = {
            let s = self.scope_ref(root);
            (0..s.defs.len())
                .map(DefId::new)
                .filter(|d| s.fn_sig(*d).is_some())
                .map(|d| s.def_key(d))
                .collect()
        };
        self.collected = 0;
        self.reused = 0;
        let mut out = String::from("contracts");
        for (n, k) in keys.into_iter().enumerate() {
            let stamps = (
                self.engine.stamp(QueryKey::HirBody(k)),
                self.engine.stamp(QueryKey::BodyTypes(k)),
            );
            match self.facts.iter().position(|f| f.0 == k) {
                Some(i) if self.facts[i].1 == stamps => self.reused += 1,
                Some(i) => {
                    self.facts[i].1 = stamps;
                    self.collected += 1;
                }
                None => {
                    self.facts.push((k, stamps));
                    self.collected += 1;
                }
            }
            let (body, _) = self.lowered(k, &mut Diagnostics::new());
            for (i, s) in body.local_symbols.iter().enumerate() {
                if s.kind != SymbolKind::Param {
                    continue;
                }
                let moved = body.exprs.iter().any(|e| match &e.kind {
                    HirExprKind::Block { stmts, .. } => stmts.iter().any(|st| match st {
                        HirStmt::Let { init: Some(v), .. } => matches!(
                            body.exprs[v.raw].kind,
                            HirExprKind::Var(SymbolId::Local(j)) if j == i
                        ),
                        _ => false,
                    }),
                    _ => false,
                });
                out.push_str(&format!(" {n} {i} {moved}"));
            }
        }
        out
    }

    fn collect(&mut self, k: QueryKey, root: usize) -> Compiled {
        self.top(k);
        let snap = self.fresh(root).snap;
        let ds = self.engine.entry_diags(k);
        let r = snap.check_report(self.engine.revision(), &ds, self.engine.last_run());
        assert_eq!(r.checked_revision, self.engine.revision());
        assert_eq!(r.is_valid(), !r.diags.has_errors());
        Compiled { snap, diags: r.diags }
    }

    fn check(&mut self, root: usize) -> Compiled {
        self.collect(QueryKey::Diagnostics(FileId::new(root)), root)
    }

    fn compile(&mut self, root: usize) -> Compiled {
        self.collect(QueryKey::Compile(FileId::new(root)), root)
    }

    // ----- transactions -----

    fn plan_rename(&self, root: usize, symbol: &str, to: &str) -> Result<RenamePlan, RenameError> {
        let base = self.fresh(root);
        let c = prepare_rename(&base.snap, root, symbol, to, &lexed(to), &base.diags)?;
        let after = self.with_new(&c.new_sources, root);
        finish_rename(c, &after.diags, &self.session)
    }

    fn plan_rename_at(
        &self,
        root: usize,
        file: usize,
        off: u32,
        to: &str,
    ) -> Result<RenamePlan, RenameError> {
        let base = self.fresh(root);
        let c = prepare_rename_at(&base.snap, root, file, off, to, &lexed(to), &base.diags)?;
        let after = self.with_new(&c.new_sources, root);
        let key = c.target;
        let body = |s: &Snapshot| {
            (0..s.scope.defs.len())
                .find(|d| {
                    let k = s.scope.def_key(DefId::new(*d));
                    k.file == key.file
                        && s.interner.resolve(k.name) == base.snap.interner.resolve(key.name)
                })
                .expect("the function is still there")
        };
        let (b, a) = (body(&base.snap), body(&after.snap));
        finish_rename_at(
            c,
            base.snap.bodies[b].as_ref().unwrap(),
            after.snap.bodies[a].as_ref().unwrap(),
            &after.diags,
            &self.session,
        )
    }

    fn apply_rename(&mut self, plan: &RenamePlan) -> Result<RenameReport, RenameError> {
        let r = apply_rename(&mut self.session, plan)?;
        self.engine.open_revision();
        for f in &r.files {
            self.write(*f);
        }
        Ok(r)
    }

    fn plan_patch(&self, root: usize, ops: &[PatchOp]) -> Result<PatchPlan, PatchError> {
        let base = self.fresh(root);
        let ops = ops.to_vec();
        let probes: Vec<Probe> = ops
            .iter()
            .map(|op| {
                let name = lexed(&name_payload(op).unwrap_or_default());
                let (ast, diags) = parse_ast(&parse_payload(op).unwrap_or_default());
                Probe { name, parsed: Parsed { ast, diags } }
            })
            .collect();
        let c = prepare_patch(&base.snap, root, &ops, &probes, &base.diags)?;
        let after = self.with_new(&c.new_sources, root);
        finish_patch(c, &after.diags, &self.session)
    }

    fn apply_patch(&mut self, plan: &PatchPlan) -> Result<PatchReport, PatchError> {
        let r = apply_patch(&mut self.session, plan)?;
        self.engine.open_revision();
        for f in &r.files {
            self.write(*f);
        }
        Ok(r)
    }
}

// ---------- running programs ----------

#[derive(Clone, PartialEq, Debug)]
enum Val {
    Unit,
    Int(i128),
    Bool(bool),
    Data(DefId, Vec<Val>),
    Variant(DefId, usize, Vec<Val>),
}

struct Frame<'a> {
    snap: &'a Snapshot,
    body: &'a HirBody,
    locals: Vec<Val>,
}

fn call(snap: &Snapshot, def: DefId, args: Vec<Val>) -> Val {
    let body = snap.bodies[def.raw].as_ref().expect("a body");
    let mut locals = args;
    locals.resize(body.local_symbols.len(), Val::Unit);
    let mut f = Frame { snap, body, locals };
    match f.eval(body.root) {
        Ok(v) => v,
        Err(v) => v,
    }
}

fn local(s: SymbolId) -> usize {
    match s {
        SymbolId::Local(i) => i,
        SymbolId::Module(_) => panic!("a local"),
    }
}

impl Frame<'_> {
    /// `Err` is a return.
    fn eval(&mut self, e: ExprId) -> Result<Val, Val> {
        let body = self.body;
        Ok(match &body.exprs[e.raw].kind {
            HirExprKind::Literal(Literal::Int(i)) => Val::Int(*i),
            HirExprKind::Literal(Literal::Bool(b)) => Val::Bool(*b),
            HirExprKind::Var(s) => self.locals[local(*s)].clone(),
            HirExprKind::Call { def, args } => {
                let mut vs = Vec::new();
                for a in args {
                    vs.push(self.eval(*a)?);
                }
                call(self.snap, *def, vs)
            }
            HirExprKind::Field { base, name, .. } => match self.eval(*base)? {
                Val::Data(d, fs) => {
                    let shape = self.snap.scope.data_shape(d).expect("a record");
                    fs[shape.field_index.get(name.id.raw).expect("a field")].clone()
                }
                other => panic!("no record: {other:?}"),
            },
            HirExprKind::Binary { op, lhs, rhs } => {
                let (a, b) = match (self.eval(*lhs)?, self.eval(*rhs)?) {
                    (Val::Int(a), Val::Int(b)) => (a, b),
                    other => panic!("no integers: {other:?}"),
                };
                match op {
                    BinOp::Add => Val::Int(a + b),
                    BinOp::Sub => Val::Int(a - b),
                    BinOp::Mul => Val::Int(a * b),
                    BinOp::Gt => Val::Bool(a > b),
                    BinOp::Lt => Val::Bool(a < b),
                    other => panic!("operator {other:?}"),
                }
            }
            HirExprKind::Block { stmts, tail } => {
                for s in stmts {
                    match s {
                        HirStmt::Let { symbol, init, .. } => {
                            if let Some(i) = init {
                                let v = self.eval(*i)?;
                                self.locals[local(*symbol)] = v;
                            }
                        }
                        HirStmt::Assign { target, value, .. } => {
                            let v = self.eval(*value)?;
                            self.locals[local(target.base)] = v;
                        }
                        HirStmt::Expr { expr, .. } => {
                            self.eval(*expr)?;
                        }
                        HirStmt::Return { value, .. } => {
                            let v = match value {
                                Some(v) => self.eval(*v)?,
                                None => Val::Unit,
                            };
                            return Err(v);
                        }
                    }
                }
                match tail {
                    Some(t) => self.eval(*t)?,
                    None => Val::Unit,
                }
            }
            HirExprKind::StructLit { def, fields } => {
                let shape = self.snap.scope.data_shape(*def).expect("a record");
                let mut vs = vec![Val::Unit; shape.fields.len()];
                for (n, e) in fields {
                    vs[shape.field_index.get(n.id.raw).expect("a field")] = self.eval(*e)?;
                }
                Val::Data(*def, vs)
            }
            HirExprKind::VariantLit { def, variant, args } => {
                let mut vs = Vec::new();
                for a in args {
                    vs.push(self.eval(*a)?);
                }
                Val::Variant(*def, *variant, vs)
            }
            _ => panic!("not run here"),
        })
    }
}

/// What running `entry` (`f` or `m::f`) shows.
fn run(c: &Compiled, entry: &str) -> String {
    assert!(c.is_valid(), "{:?}", c.diags);
    match c.snap.resolve_symbol(entry) {
        Resolved::Def(d) => match call(&c.snap, d, Vec::new()) {
            Val::Int(i) => i.to_string(),
            other => format!("{other:?}"),
        },
        Resolved::Ambiguous(cs) => {
            let d = cs
                .iter()
                .find(|x| c.snap.scope.defs[x.owner.raw].file == c.snap.scope.root)
                .expect("an entry of the root");
            match call(&c.snap, d.owner, Vec::new()) {
                Val::Int(i) => i.to_string(),
                other => format!("{other:?}"),
            }
        }
        _ => panic!("no entry `{entry}`"),
    }
}

/// Registers `sources` as `(module, text)` pairs. File 0 is the root.
fn ws(sources: &[(&str, &str)]) -> Db {
    ws_as(1, sources)
}

fn ws_as(id: u64, sources: &[(&str, &str)]) -> Db {
    let mut db = Db::new(id);
    for (module, text) in sources {
        db.add_source_named(module, text);
    }
    db
}

/// A root that provides `main`, and its registered modules.
fn ws_root(root_src: &str, deps: &[(&str, &str)]) -> (Db, usize) {
    let mut db = Db::new(1);
    let root = db.add_source_named("main", root_src);
    for (name, src) in deps {
        db.add_source_named(name, src);
    }
    (db, root)
}

/// Every source text, for the nothing-mutated assertions.
fn sources(db: &Db, n: usize) -> Vec<String> {
    (0..n).map(|f| db.source(f).to_string()).collect()
}

// ---------- workspaces ----------

const MATH: &str = "\
fn double(x: i32) -> i32 { return x * 2; }
fn triple(x: i32) -> i32 { return x * 3; }
fn answer() -> i32 { return 7; }";

// ---- resolution & execution ----------------------------------------

#[test]
fn qualified_call_compiles_and_runs() {
    let (mut db, root) = ws_root(
        "use math; fn main() -> i32 { return math::double(21); }",
        &[("math", MATH)],
    );
    let a = db.compile(root);
    assert!(a.is_valid(), "{:?}", a.diags);
    assert_eq!(run(&a, "main"), "42");
}

#[test]
fn module_qualified_entry_runs() {
    let (mut db, root) = ws_root(
        "use math; fn main() -> i32 { return 0; }",
        &[("math", MATH)],
    );
    let a = db.compile(root);
    assert!(a.is_valid(), "{:?}", a.diags);
    assert_eq!(run(&a, "math::answer"), "7");
}

#[test]
fn imported_alias_binds_member() {
    let (mut db, root) = ws_root(
        "use math::double as dbl; fn main() -> i32 { return dbl(21); }",
        &[("math", MATH)],
    );
    let a = db.compile(root);
    assert!(a.is_valid(), "{:?}", a.diags);
    assert_eq!(run(&a, "main"), "42");
}

#[test]
fn imported_member_needs_no_alias() {
    let (mut db, root) = ws_root(
        "use math::double; fn main() -> i32 { return double(21); }",
        &[("math", MATH)],
    );
    let a = db.compile(root);
    assert!(a.is_valid(), "{:?}", a.diags);
    assert_eq!(run(&a, "main"), "42");
}

#[test]
fn qualified_data_type_and_literal() {
    let geo = "data Point { x: i32; y: i32; }";
    let (mut db, root) = ws_root(
        "use geo; fn main() -> i32 { let p = geo::Point { x: 3, y: 4 }; return p.x + p.y; }",
        &[("geo", geo)],
    );
    let a = db.compile(root);
    assert!(a.is_valid(), "{:?}", a.diags);
    assert_eq!(run(&a, "main"), "7");
}

#[test]
fn qualified_type_annotation() {
    let geo = "data Point { x: i32; }";
    let (mut db, root) = ws_root(
        "use geo; fn take(p: geo::Point) -> i32 { return p.x; } \
         fn main() -> i32 { return take(geo::Point { x: 9 }); }",
        &[("geo", geo)],
    );
    let a = db.compile(root);
    assert!(a.is_valid(), "{:?}", a.diags);
    assert_eq!(run(&a, "main"), "9");
}

/// Two files may define same-named fns — `DefId` identity keeps
/// them distinct, so `a::v()` and `b::v()` are different callees.
#[test]
fn same_name_defs_in_two_modules() {
    let (mut db, root) = ws_root(
        "use a; use b; fn main() -> i32 { return a::v() + b::v(); }",
        &[
            ("a", "fn v() -> i32 { return 1; }"),
            ("b", "fn v() -> i32 { return 2; }"),
        ],
    );
    let a = db.compile(root);
    assert!(a.is_valid(), "{:?}", a.diags);
    assert_eq!(run(&a, "main"), "3");
}

/// A dep's own `use` pulls a further module in — transitive
/// reachability.
#[test]
fn transitive_uses_reach_inner_modules() {
    let (mut db, root) = ws_root(
        "use mid; fn main() -> i32 { return mid::go(); }",
        &[
            ("mid", "use leaf; fn go() -> i32 { return leaf::val(); }"),
            ("leaf", "fn val() -> i32 { return 5; }"),
        ],
    );
    let a = db.compile(root);
    assert!(a.is_valid(), "{:?}", a.diags);
    assert_eq!(run(&a, "main"), "5");
}

/// Import cycles terminate — the BFS marks files visited.
#[test]
fn cyclic_uses_compile() {
    let (mut db, root) = ws_root(
        "use other; fn main() -> i32 { return other::v(); }",
        &[("other", "use main; fn v() -> i32 { return 1; }")],
    );
    let a = db.compile(root);
    assert!(a.is_valid(), "{:?}", a.diags);
    assert_eq!(run(&a, "main"), "1");
}

// ---- rejections -----------------------------------------------------

#[test]
fn unknown_module_reports() {
    let (mut db, root) = ws_root("use nope; fn main() -> i32 { return 0; }", &[]);
    let report = db.check(root);
    assert!(report.diags.iter().iter().any(|d| d.code == Code::UnknownModule));
}

#[test]
fn unknown_module_member_reports() {
    let (mut db, root) = ws_root(
        "use math; fn main() -> i32 { return math::nope(1); }",
        &[("math", MATH)],
    );
    let report = db.check(root);
    assert!(report.diags.has_errors());
    // Member misses are symbol errors, not module errors.
    assert!(report.diags.iter().iter().all(|d| d.code != Code::UnknownModule));
}

/// A dep's defs are not in the root's bare-name scope — `use m;`
/// imports the module path only, not its members.
#[test]
fn dep_members_need_qualification() {
    let (mut db, root) = ws_root(
        "use math; fn main() -> i32 { return double(21); }",
        &[("math", MATH)],
    );
    let report = db.check(root);
    assert!(report.diags.has_errors());
}

/// A registered file that no `use` reaches stays outside the
/// workspace — its errors don't surface and its defs don't exist
/// for the root.
#[test]
fn unreached_file_stays_out_of_scope() {
    let (mut db, root) = ws_root(
        "fn main() -> i32 { return 0; }",
        &[("broken", "fn bad( -> i32 { return ; }")],
    );
    let report = db.check(root);
    assert!(
        !report.diags.has_errors(),
        "{:?}",
        report.diags.iter().iter().map(|d| &d.message).collect::<Vec<_>>()
    );
}

/// Reach a broken file via `use` → its diagnostics surface, tagged
/// with *its* file id, and their spans index its own text.
#[test]
fn dep_diagnostics_carry_dep_file() {
    let (mut db, root) = ws_root(
        "use broken; fn main() -> i32 { return 0; }",
        &[("broken", "fn bad() -> i32 { return nope; }")],
    );
    let report = db.check(root);
    let dep_diags: Vec<_> = report
        .diags.iter().iter().filter(|d| d.file == Some(FileId::new(1)))
        .collect();
    assert!(!dep_diags.is_empty(), "{:?}", report.diags);
    // The span is an offset into `broken`'s text, not the root's.
    let broken_text = db.source(1);
    for d in dep_diags {
        let p = d.primary.expect("dep diag has a primary span");
        assert!(p.end as usize <= broken_text.len());
    }
}

// ---- incrementality --------------------------------------------------

/// Names of per-def HirBody keys evaluated in the last demand.
fn evald_hir(db: &Db) -> Vec<String> {
    db.last_evaluated()
        .iter()
        .filter_map(|k| match k {
            QueryKey::HirBody(key) => Some(*key),
            _ => None,
        })
        .map(|k| format!("{}:{}", k.file.index(), db.interner.resolve(k.name)))
        .collect()
}

/// Editing a dep's function *body* re-lowers only that def: the
/// scope's signatures are unchanged (item-relative spans), so the
/// caller's HIR stays memoized end-to-end.
#[test]
fn dep_body_edit_invalidates_only_dep() {
    let (mut db, root) = ws_root(
        "use math; fn main() -> i32 { return math::double(21); }",
        &[("math", MATH)],
    );
    assert!(db.compile(root).is_valid());
    db.set_source(1, MATH.replace("x * 2", "x * 4"));
    assert!(db.compile(root).is_valid());
    assert_eq!(evald_hir(&db), ["1:double"]);
    assert_eq!(run(&db.compile(root), "main"), "84");
}

/// Editing a dep's *signature* propagates: `double`'s contract or
/// arity change re-resolves the scope and re-lowers the caller.
#[test]
fn dep_signature_edit_reaches_callers() {
    let (mut db, root) = ws_root(
        "use math; fn main() -> i32 { return math::double(21); }",
        &[("math", MATH)],
    );
    assert!(db.compile(root).is_valid());
    db.set_source(1, MATH.replace("x * 2", "x * 2 + 0")); // body-only first
    assert!(db.compile(root).is_valid());
    // Now rename a param — sig value changes → scope re-resolves →
    // caller's body re-lowers (its call site is re-checked).
    db.set_source(
        1,
        MATH.replace("double(x: i32)", "double(y: i32)")
            .replace("x * 2", "y * 2"),
    );
    assert!(db.compile(root).is_valid());
    let evald = evald_hir(&db);
    assert!(evald.contains(&"1:double".to_string()), "{evald:?}");
    assert!(evald.contains(&"0:main".to_string()), "{evald:?}");
}

/// Removing a dep's `use` from the root shrinks the reachable set —
/// subsequent edits to the dep no longer touch the root's workspace.
#[test]
fn dropping_use_severs_dependency() {
    let (mut db, root) = ws_root(
        "use math; fn main() -> i32 { return math::double(21); }",
        &[("math", MATH)],
    );
    assert!(db.compile(root).is_valid());
    db.set_source(0, "fn main() -> i32 { return 0; }");
    assert!(db.compile(root).is_valid());
    // Editing math now: nothing in root's workspace re-runs.
    db.set_source(1, "fn double(x: i32) -> i32 { return x; }");
    assert!(db.compile(root).is_valid());
    assert_eq!(db.last_evaluated(), Vec::new());
}

/// `DefKey`s carry the file, so same-named defs in different files
/// are different query keys — no per-definition conflation.
#[test]
fn def_keys_are_file_scoped() {
    let (mut db, root) = ws_root(
        "use a; use b; fn main() -> i32 { return a::v() + b::v(); }",
        &[
            ("a", "fn v() -> i32 { return 1; }"),
            ("b", "fn v() -> i32 { return 2; }"),
        ],
    );
    assert!(db.compile(root).is_valid());
    let a = db.compile(root);
    let v = a.snap.interner.get("v").unwrap().raw;
    let va = a
        .snap
        .scope
        .env(FileId::new(1))
        .unwrap()
        .fns
        .get(v)
        .unwrap();
    let vb = a
        .snap
        .scope
        .env(FileId::new(2))
        .unwrap()
        .fns
        .get(v)
        .unwrap();
    assert_ne!(va, vb);
    assert_eq!(a.snap.scope.def(DefId::new(va)).file, FileId::new(1));
    assert_eq!(a.snap.scope.def(DefId::new(vb)).file, FileId::new(2));
}

/// Two roots may share a dep in one `Db`. The same def has different
/// `DefId`s in each workspace (defs are indexed per scope), so
/// per-def query results must key on `(root, file, name)` — reusing
/// root A's `dep::v` body under root B would carry A's `DefId`s and
/// resolve its call to the wrong target (here: arity mismatch).
#[test]
fn shared_dep_under_two_roots_stays_correct() {
    let mut db = Db::new(1);
    let dep = db.add_source_named(
        "dep",
        "fn v() -> i32 { return helper(7); } fn helper(x: i32) -> i32 { return x; }",
    );
    let a = db.add_source_named("a", "use dep; fn main() -> i32 { return dep::v(); }");
    let b = db.add_source_named(
        "b",
        "fn extra() -> i32 { return 99; } use dep; fn main() -> i32 { return dep::v(); }",
    );
    assert_eq!(run(&db.compile(a), "main"), "7");
    // `dep` checked directly roots its own single-file workspace —
    // the next demand on `b` must reclaim it as `b`'s dep.
    assert!(db.check(dep).is_valid());
    assert_eq!(run(&db.compile(b), "main"), "7");
    // Round-trip: each root's entries stay its own.
    assert_eq!(run(&db.compile(a), "main"), "7");
    assert_eq!(run(&db.compile(b), "dep::v"), "7");
    assert_eq!(run(&db.compile(dep), "v"), "7");
}

// ---------- incremental demands ----------

const SRC: &str = "fn main() -> i32 { let x = 1; return x + 1; }";

// ---- incremental acceptance (ADR-0008) --------------------------

/// Names of the per-def queries evaluated in the last demand.
fn evald_defs(db: &Db, kind: fn(&QueryKey) -> Option<DefKey>) -> Vec<String> {
    db.last_evaluated()
        .iter()
        .filter_map(kind)
        .map(|k| db.interner.resolve(k.name).to_string())
        .collect()
}

fn hir_key(k: &QueryKey) -> Option<DefKey> {
    match k {
        QueryKey::HirBody(k) => Some(*k),
        _ => None,
    }
}
fn types_key(k: &QueryKey) -> Option<DefKey> {
    match k {
        QueryKey::BodyTypes(k) => Some(*k),
        _ => None,
    }
}
fn mir_key(k: &QueryKey) -> Option<DefKey> {
    match k {
        QueryKey::MirBody(k) => Some(*k),
        _ => None,
    }
}

const THREE_FN: &str = "\
data P { x: i32; }
fn f(p: i32) -> i32 { return p + 1; }
fn g(q: i32) -> i32 { return q * 2; }
fn main() -> i32 { return f(1) + g(2); }";

/// Acceptance A: a second compile with no edit evaluates nothing.
#[test]
fn unchanged_recompile_evaluates_nothing() {
    let mut db = Db::new(1);
    let f = db.add_source(THREE_FN);
    assert!(db.compile(f).is_valid());
    assert!(!db.last_evaluated().is_empty());
    assert!(db.compile(f).is_valid());
    assert_eq!(db.last_evaluated(), Vec::new());
    assert!(db.engine.stats().totals().1 > 0, "second compile all reuse");
}

/// Acceptance B: editing inside one body re-evaluates only that
/// body's per-def queries; unrelated bodies stay memoized.
#[test]
fn body_edit_invalidates_only_that_body() {
    let mut db = Db::new(1);
    let f = db.add_source(THREE_FN);
    assert!(db.compile(f).is_valid());
    db.set_source(f, THREE_FN.replace("p + 1", "p + 7"));
    assert!(db.compile(f).is_valid());
    assert_eq!(evald_defs(&db, hir_key), ["f"]);
    assert_eq!(evald_defs(&db, types_key), ["f"]);
    // f's contract is unchanged (still borrow) → ownership value
    // equal → downstream mir of *other* fns never re-ran.
    assert_eq!(evald_defs(&db, mir_key), ["f"]);
    // Inside the ownership fixpoint, only f's facts were
    // re-walked; g and main served from the oracle memo.
    assert_eq!(db.collected, 1);
    assert_eq!(db.reused, 2);
}

/// Acceptance C: a comment-only edit cuts off at the AST —
/// no per-definition work re-runs at all. (Note: spans are
/// file-absolute, so edits *inside* a body still rebuild that
/// body — body-relative spans are future work.)
#[test]
fn whitespace_edit_cuts_off_at_ast() {
    let mut db = Db::new(1);
    let f = db.add_source(THREE_FN);
    assert!(db.compile(f).is_valid());
    db.set_source(f, format!("{THREE_FN}\n// trailing comment\n"));
    assert!(db.compile(f).is_valid());
    assert!(evald_defs(&db, hir_key).is_empty());
    assert!(evald_defs(&db, types_key).is_empty());
    assert!(evald_defs(&db, mir_key).is_empty());
}

/// Acceptance D: changing a callee's *contract* propagates — the
/// ownership fixpoint re-runs and callers' MIR re-lowers even
/// though the caller's own body never changed.
#[test]
fn contract_change_propagates_to_caller() {
    // `sink` is declared last so editing its body cannot shift
    // `main`'s item spans — main's HIR/types must stay memoized.
    let src = "\
data P { x: i32; }
fn main() -> i32 { let q = P { x: 1 }; return sink(q); }
fn sink(p: P) -> i32 { return p.x; }";
    let mut db = Db::new(1);
    let f = db.add_source(src);
    assert!(db.compile(f).is_valid());
    // `let r = p` moves the param → sink's contract borrow → move.
    db.set_source(f, src.replace("return p.x;", "let r = p; return r.x;"));
    assert!(db.compile(f).is_valid());
    let evals = db.last_evaluated();
    assert!(evals.contains(&QueryKey::Ownership(FileId::new(0))));
    assert_eq!(evald_defs(&db, hir_key), ["sink"]);
    // Ownership's value changed → mir bodies that read contracts
    // re-lower: sink's body changed, main's contract input did.
    assert_eq!(evald_defs(&db, mir_key), ["main", "sink"]);
}

/// Check-vs-build split: `check` demands `Diagnostics` only —
/// no graph, no MIR, no artifact assembly. This is the evidence
/// that validation never pays for codegen-facing work.
#[test]
fn check_does_not_build_graph_or_mir() {
    let mut db = Db::new(1);
    let f = db.add_source(THREE_FN);
    let report = db.check(f);
    assert!(report.is_valid());
    let evals = db.last_evaluated();
    assert!(!evals.is_empty());
    for key in &evals {
        assert!(
            !matches!(
                key,
                QueryKey::Graph(_) | QueryKey::MirBody(_) | QueryKey::Compile(_)
            ),
            "check evaluated {key:?}"
        );
    }
    assert!(!db.engine.stats().executed.get("graph").is_some());
    assert!(!db.engine.stats().executed.get("mir").is_some());
    assert!(!db.engine.stats().executed.get("assemble").is_some());
}

/// `check` is not a weaker pass — it reports exactly the
/// diagnostics `compile` collects, in the same sorted order.
#[test]
fn check_reports_same_diagnostics_as_compile() {
    let src = "fn main() -> i32 { return nope; }";
    let mut db = Db::new(1);
    let f = db.add_source(src);
    let report = db.check(f);
    assert!(report.diags.has_errors());
    let codes: Vec<_> = report.diags.iter().iter().map(|d| d.code).collect();
    let mut db2 = Db::new(1);
    let f2 = db2.add_source(src);
    let a = db2.compile(f2);
    let codes2: Vec<_> = a.diags.iter().iter().map(|d| d.code).collect();
    assert_eq!(codes, codes2);
}

/// After `check`, `compile` evaluates only the missing tail —
/// graph + mir + assemble. Frontend work stays memoized.
#[test]
fn check_then_compile_evaluates_only_backend() {
    let mut db = Db::new(1);
    let f = db.add_source(THREE_FN);
    assert!(db.check(f).is_valid());
    assert!(db.compile(f).is_valid());
    let evals = db.last_evaluated();
    assert!(!evals.is_empty(), "compile must build graph+mir");
    for key in &evals {
        assert!(
            matches!(
                key,
                QueryKey::Graph(_) | QueryKey::MirBody(_) | QueryKey::Compile(_)
            ),
            "compile re-ran frontend query {key:?}"
        );
    }
}

// ---- item-relative spans ---------------------------------------

fn ast_item_key(k: &QueryKey) -> Option<DefKey> {
    match k {
        QueryKey::AstItem(k) => Some(*k),
        _ => None,
    }
}

/// An edit that only *shifts* an item's absolute offset — here a
/// comment inserted before `g` — recomputes its `AstItem` to an
/// equal (item-relative) value, so the whole per-definition chain
/// (HIR → types → MIR) and the ownership fixpoint stay memoized.
/// With file-absolute spans this edit rebuilt `g` and `main`.
#[test]
fn offset_shift_reuses_shifted_bodies() {
    let mut db = Db::new(1);
    let f = db.add_source(THREE_FN);
    assert!(db.compile(f).is_valid());
    db.set_source(f, THREE_FN.replace("fn g(q", "// shifted\nfn g(q"));
    assert!(db.compile(f).is_valid());
    // AstItems re-verified (their Ast dep changed) but recomputed
    // equal — that's exactly the early-cutoff boundary.
    assert_eq!(evald_defs(&db, ast_item_key), ["f", "g", "main"]);
    assert!(evald_defs(&db, hir_key).is_empty());
    assert!(evald_defs(&db, types_key).is_empty());
    assert!(evald_defs(&db, mir_key).is_empty());
    assert!(
        !db.last_evaluated()
            .contains(&QueryKey::Ownership(FileId::new(0)))
    );
}

/// Tagged item-relative diagnostics are rebased with the
/// *current* item bases at collection time — a shifted function's
/// diagnostic lands on its new absolute offset, identical to what
/// a fresh compile of the shifted source produces.
#[test]
fn diagnostics_track_shifted_offsets() {
    let bad = "fn ok() -> i32 { return 0; }\nfn tail() -> i32 { return nope; }";
    let mut db = Db::new(1);
    let f = db.add_source(bad);
    let report = db.check(f);
    assert!(report.diags.iter().iter().all(|d| d.origin.is_none()));
    let before: Vec<_> = report.diags.iter().iter().map(|d| (d.code, d.primary)).collect();
    assert!(!before.is_empty());
    let prefix = "// shifted\n";
    let shifted = format!("{prefix}{bad}");
    db.set_source(f, shifted.clone());
    let after: Vec<_> = db
        .check(f)
        .diags.iter().iter().map(|d| (d.code, d.primary))
        .collect();
    let bump = prefix.len() as u32;
    let expected: Vec<_> = before
        .iter()
        .map(|&(c, p)| (c, p.map(|s| s.abs(bump))))
        .collect();
    assert_eq!(expected, after);
    // Incremental result equals a from-scratch compile of the
    // shifted source — rebasing can't drift.
    let mut db2 = Db::new(1);
    let f2 = db2.add_source(&shifted);
    let fresh: Vec<_> = db2
        .check(f2)
        .diags.iter().iter().map(|d| (d.code, d.primary))
        .collect();
    assert_eq!(after, fresh);
}

/// Multi-file: editing file B touches nothing in file A.
#[test]
fn files_are_independent() {
    let mut db = Db::new(1);
    let a = db.add_source(THREE_FN);
    let b = db.add_source("fn other() -> i32 { return 0; }");
    assert!(db.compile(a).is_valid());
    assert!(db.compile(b).is_valid());
    db.set_source(b, "fn other() -> i32 { return 1; }");
    assert!(db.compile(b).is_valid());
    for key in db.last_evaluated() {
        assert_eq!(key.file(), FileId::new(1));
    }
    assert!(db.compile(a).is_valid());
    assert_eq!(db.last_evaluated(), Vec::new());
}

// ---- determinism -------------------------------------------------

/// Diagnostic order is part of the deterministic contract:
/// repeated compiles of the same invalid source emit the same
/// sequence, and `--json` consumers get a stable `code` stream.
#[test]
fn diagnostics_order_is_deterministic() {
    let src = "\
fn main() -> i32 { let x = 1; x = 2; return nope; let q = y; }";
    let mut db = Db::new(1);
    let f = db.add_source(src);
    let first: Vec<_> = db
        .compile(f)
        .diags.iter().iter().map(|d| (d.code, d.message.clone()))
        .collect();
    assert!(!first.is_empty());
    let mut db2 = Db::new(1);
    let f2 = db2.add_source(src);
    let second: Vec<_> = db2
        .compile(f2)
        .diags.iter().iter().map(|d| (d.code, d.message.clone()))
        .collect();
    assert_eq!(first, second);
}

#[test]
fn compiles_and_caches() {
    let mut db = Db::new(1);
    let f = db.add_source(SRC);
    assert!(db.compile(f).is_valid());
    let key = QueryKey::Compile(FileId::new(f));
    let rev = db.engine.stamp(key);
    let v1 = db.top(key);
    let v2 = db.top(key);
    assert_eq!(v1, v2);
    assert_eq!(db.engine.stamp(key), rev);
}

#[test]
fn edit_invalidates() {
    let mut db = Db::new(1);
    let f = db.add_source(SRC);
    db.compile(f);
    let key = QueryKey::Compile(FileId::new(f));
    let r0 = db.engine.stamp(key);
    db.set_source(f, "fn main() -> i32 { return 7; }");
    let a = db.compile(f);
    assert!(db.engine.stamp(key) > r0);
    assert!(a.is_valid());
}

#[test]
fn reports_stage_timings() {
    let mut db = Db::new(1);
    let f = db.add_source(SRC);
    db.compile(f);
    let timings = stage_timings(db.engine.last_run());
    let stages: Vec<&str> = timings.iter().map(|t| t.stage).collect();
    for stage in [
        "lex+parse",
        "ast",
        "resolve",
        "hir",
        "types",
        "ownership",
        "graph",
        "mir",
    ] {
        assert!(stages.contains(&stage), "missing stage {stage}");
    }
}

#[test]
fn errors_surface_in_artifacts() {
    let mut db = Db::new(1);
    let f = db.add_source("fn main() -> i32 { return nope; }");
    let a = db.compile(f);
    assert!(!a.is_valid());
    assert!(a.diags.has_errors());
}

// ---------- renames ----------

/// Splice the plan's `new_sources` — the text apply would install.
fn renamed_text(plan: &RenamePlan, file: usize) -> &str {
    &plan
        .new_sources()
        .iter()
        .find(|(f, _)| *f == file)
        .expect("file has new source")
        .1
}

const DEP: &str = "data Vec2 { x: i32; y: i32; }\n\
                   fn double(x: i32) -> i32 { return x * 2; }\n\
                   fn norm(v: Vec2) -> i32 { return v.x * v.x + v.y * v.y; }\n";

const MAIN: &str = "use dep;\n\
                    use dep::Vec2;\n\
                    fn main() -> i32 {\n\
                    \x20   let v = Vec2 { x: 3, y: 4 };\n\
                    \x20   return dep::double(norm2(v));\n\
                    }\n\
                    fn norm2(v: Vec2) -> i32 { return dep::norm(v); }\n";

// ---------- preview / scan coverage ----------

#[test]
fn preview_covers_decl_and_qualified_sites() {
    let db = ws(&[("main", MAIN), ("dep", DEP)]);
    let dep_src = db.source(1).to_string();
    let plan = db.plan_rename(0, "dep::double", "twice").unwrap();
    assert_eq!(plan.old_name(), "double");
    // Two sites: the decl `fn double` in dep, the `double` segment
    // of `dep::double(...)` in main. `norm`/`Vec2` sites untouched.
    assert_eq!(plan.edits().len(), 2);
    let dep_file = FileId::new(1);
    let decl = plan.edits().iter().find(|e| e.file == dep_file).unwrap();
    assert_eq!(
        &dep_src[decl.span.start as usize..decl.span.end as usize],
        "double"
    );
    assert!(renamed_text(&plan, 1).contains("fn twice(x: i32)"));
    assert!(renamed_text(&plan, 1).contains("fn norm(v: Vec2)"));
    assert!(renamed_text(&plan, 0).contains("dep::twice(norm2(v))"));
    assert!(renamed_text(&plan, 0).contains("dep::norm(v)"));
}

#[test]
fn unaliased_import_rebinds_references() {
    let db = ws(&[
        (
            "main",
            "use dep::double; fn main() -> i32 { return double(3); }",
        ),
        ("dep", DEP),
    ]);
    let plan = db.plan_rename(0, "dep::double", "twice").unwrap();
    // Three sites: decl, use-path segment, the bare `double` call —
    // `use dep::x` rebinds under the new name.
    assert_eq!(plan.edits().len(), 3);
    assert!(renamed_text(&plan, 0).contains("use dep::twice;"));
    assert!(renamed_text(&plan, 0).contains("return twice(3);"));
}

#[test]
fn aliased_import_keeps_local_name() {
    let db = ws(&[
        (
            "main",
            "use dep::double as dbl; fn main() -> i32 { return dbl(3); }",
        ),
        ("dep", DEP),
    ]);
    let plan = db.plan_rename(0, "dep::double", "twice").unwrap();
    // Two sites only: decl + use-path member. The `dbl` alias and
    // every reference through it stay exactly as written.
    assert_eq!(plan.edits().len(), 2);
    assert!(renamed_text(&plan, 0).contains("use dep::twice as dbl;"));
    assert!(renamed_text(&plan, 0).contains("return dbl(3);"));
    assert!(!renamed_text(&plan, 0).contains("twice(3)"));
}

#[test]
fn module_alias_is_transparent() {
    let db = ws(&[
        (
            "main",
            "use dep as m; fn main() -> i32 { return m::double(3); }",
        ),
        ("dep", DEP),
    ]);
    let plan = db.plan_rename(0, "dep::double", "twice").unwrap();
    assert_eq!(plan.edits().len(), 2);
    assert!(renamed_text(&plan, 0).contains("m::twice(3)"));
}

#[test]
fn data_rename_covers_type_and_literal_sites() {
    let db = ws(&[("main", MAIN), ("dep", DEP)]);
    let plan = db.plan_rename(0, "dep::Vec2", "Point").unwrap();
    // `Vec2` sites: decl, `use dep::Vec2`, the struct literal,
    // `v: Vec2` param annotation, `-> ...` via `dep::Vec2` — every
    // one resolves to the data def.
    assert!(plan.edits().len() >= 4, "edits: {:?}", plan.edits());
    assert!(renamed_text(&plan, 1).contains("data Point {"));
    assert!(renamed_text(&plan, 0).contains("use dep::Point;"));
    assert!(renamed_text(&plan, 0).contains("Point { x: 3, y: 4 }"));
    assert!(renamed_text(&plan, 0).contains("fn norm2(v: Point)"));
    assert!(renamed_text(&plan, 0).contains("-> i32 { return dep::norm(v); }"));
}

#[test]
fn data_rename_covers_array_element_types() {
    // `[Vec2]` — the element path inside a bracketed array type is a
    // rename site exactly like a bare type path.
    let db = ws(&[
        (
            "main",
            "use dep::Vec2;\n\
             fn sum(v: [Vec2]) -> i32 { return v.len; }\n\
             fn main() -> i32 { let a: [Vec2] = []; return sum(a); }\n",
        ),
        ("dep", DEP),
    ]);
    let plan = db.plan_rename(0, "dep::Vec2", "Point").unwrap();
    assert!(renamed_text(&plan, 0).contains("fn sum(v: [Point])"));
    assert!(renamed_text(&plan, 0).contains("let a: [Point] = []"));
}

// ---------- apply ----------

#[test]
fn apply_is_atomic_and_runs() {
    let mut db = ws(&[("main", MAIN), ("dep", DEP)]);
    let plan = db.plan_rename(0, "dep::double", "twice").unwrap();
    let rev = db.revision();
    let report = db.apply_rename(&plan).unwrap();
    // One revision bump covers every file — no partial mutation.
    assert_eq!(report.revision, rev + 1);
    assert_eq!(report.files.len(), 2);
    let after = db.check(0);
    assert!(after.diags.is_empty() || !after.diags.has_errors());
    assert!(db.source(0).contains("dep::twice"));
    assert!(db.source(1).contains("fn twice"));
    // The renamed program still runs: twice(norm(3,4)) = 50.
    assert_eq!(run(&db.compile(0), "main"), "50");
}

#[test]
fn apply_then_per_def_values_survive_rename() {
    // A rename preserves semantic identity for defs whose item text
    // is byte-identical: calls key on `DefId`, not name — `dep::twice`
    // resolves to the same def `dep::double` did. `norm` (in the
    // edited dep file) and `norm2` (caller-adjacent but untouched)
    // keep every per-def value's `computed_at` stamp. `main`'s own
    // body legitimately differs — `double`→`twice` shifted its
    // item-relative spans.
    let mut db = ws(&[("main", MAIN), ("dep", DEP)]);
    db.compile(0); // warm the whole per-def pipeline
    let key = |db: &Db, file: usize, name: &str| DefKey {
        root: FileId::new(0),
        file: FileId::new(file),
        name: db.interner.get(name).unwrap(),
    };
    let stamps: Vec<(QueryKey, u64)> = [("norm2", 0usize), ("norm", 1)]
        .into_iter()
        .flat_map(|(n, f)| {
            [
                QueryKey::HirBody(key(&db, f, n)),
                QueryKey::BodyTypes(key(&db, f, n)),
                QueryKey::MirBody(key(&db, f, n)),
            ]
        })
        .map(|q| (q, db.engine.stamp(q)))
        .collect();
    let main_hir = db.engine.stamp(QueryKey::HirBody(key(&db, 0, "main")));
    assert!(stamps.iter().all(|(_, s)| *s > 0), "queries were warm");

    let plan = db.plan_rename(0, "dep::double", "twice").unwrap();
    db.apply_rename(&plan).unwrap();
    db.compile(0);

    for (q, before) in stamps {
        assert_eq!(
            db.engine.stamp(q),
            before,
            "{q:?} produced a different value across the rename"
        );
    }
    // `main`'s spans moved — its body recomputed a different value.
    assert_ne!(db.engine.stamp(QueryKey::HirBody(key(&db, 0, "main"))), main_hir);
    // The renamed def is a *new* key — its body was computed fresh.
    let twice = key(&db, 1, "twice");
    assert!(db.engine.stamp(QueryKey::HirBody(twice)) > 0);
}

// ---------- rejections ----------

#[test]
fn conflict_rejected_without_mutation() {
    let db = ws(&[("main", MAIN), ("dep", DEP)]);
    let before: Vec<String> = (0..2).map(|f| db.source(f).to_string()).collect();
    let rev = db.revision();
    let err = db.plan_rename(0, "dep::double", "norm").unwrap_err();
    match err {
        RenameError::Conflict(d) => {
            assert_eq!(d.code, Code::NameConflict);
            // The clash site is `fn norm` in dep — tagged to its file.
            assert_eq!(d.file, Some(FileId::new(1)));
        }
        other => panic!("expected conflict, got {other:?}"),
    }
    // Nothing changed: sources and revision untouched.
    for (f, text) in before.iter().enumerate() {
        assert_eq!(db.source(f), text);
    }
    assert_eq!(db.revision(), rev);
}

#[test]
fn invalid_names_rejected() {
    let db = ws(&[("main", MAIN), ("dep", DEP)]);
    for bad in ["123abc", "fn", "not a name", "x-y", ""] {
        assert!(
            matches!(
                db.plan_rename(0, "dep::double", bad),
                Err(RenameError::InvalidName(_))
            ),
            "expected InvalidName for {bad:?}"
        );
    }
}

#[test]
fn unknown_and_ambiguous_rejected() {
    // `other` must be reachable for its `double` to compete —
    // unreachable files are not part of the workspace.
    let db = ws(&[
        ("main", "use dep; use other; fn main() -> i32 { return 0; }"),
        ("dep", DEP),
        ("other", "fn double(x: i32) -> i32 { return x; }"),
    ]);
    assert!(matches!(
        db.plan_rename(0, "dep::nope", "x"),
        Err(RenameError::UnknownSymbol(_))
    ));
    assert!(matches!(
        db.plan_rename(0, "nope", "x"),
        Err(RenameError::UnknownSymbol(_))
    ));
    // `double` exists in dep and other — bare name is ambiguous.
    assert!(matches!(
        db.plan_rename(0, "double", "twice"),
        Err(RenameError::AmbiguousSymbol(_))
    ));
    // Qualified resolves despite the ambiguity.
    assert!(db.plan_rename(0, "other::double", "single").is_ok());
}

#[test]
fn rename_stale_plan_rejected_without_mutation() {
    let mut db = ws(&[("main", MAIN), ("dep", DEP)]);
    let plan = db.plan_rename(0, "dep::double", "twice").unwrap();
    // An unrelated edit lands between plan and apply.
    db.set_source(0, "use dep; fn main() -> i32 { return 0; }");
    let before: Vec<String> = (0..2).map(|f| db.source(f).to_string()).collect();
    let rev = db.revision();
    match db.apply_rename(&plan) {
        Err(RenameError::Stale { planned, current }) => {
            assert_eq!(planned, plan.revision());
            assert_eq!(current, rev);
        }
        _ => panic!("expected stale rejection"),
    }
    // No partial mutation: the edit stands, nothing renamed.
    for (f, text) in before.iter().enumerate() {
        assert_eq!(db.source(f), text);
    }
    assert_eq!(db.revision(), rev);
}

// ---------- resolution semantics ----------

#[test]
fn bare_name_resolves_through_root_import() {
    // Root binds `double` via `use dep::double` — renaming bare
    // `double` targets the dep def (the same symbol the root sees).
    let db = ws(&[
        (
            "main",
            "use dep::double; fn main() -> i32 { return double(3); }",
        ),
        ("dep", DEP),
    ]);
    let plan = db.plan_rename(0, "double", "twice").unwrap();
    assert!(renamed_text(&plan, 1).contains("fn twice"));
    assert!(renamed_text(&plan, 0).contains("use dep::twice;"));
}

#[test]
fn bare_name_finds_unimported_def() {
    // Root doesn't import `helper` — the workspace-wide fallback
    // still resolves the unique match.
    let db = ws(&[
        ("main", "fn main() -> i32 { return 0; }"),
        ("dep", "fn helper() -> i32 { return 1; }"),
    ]);
    // `dep` isn't reachable from root (no `use`) — the workspace
    // scope only spans reachable files, so this stays unknown.
    assert!(matches!(
        db.plan_rename(0, "helper", "h"),
        Err(RenameError::UnknownSymbol(_))
    ));
    // Reach it and the bare name resolves.
    let db = ws(&[
        (
            "main",
            "use dep; fn main() -> i32 { return dep::helper(); }",
        ),
        ("dep", "fn helper() -> i32 { return 1; }"),
    ]);
    let plan = db.plan_rename(0, "helper", "h").unwrap();
    assert!(renamed_text(&plan, 1).contains("fn h()"));
    assert!(renamed_text(&plan, 0).contains("dep::h()"));
}

// ---------- enum variants and `match` ----------

/// Renaming an enum `data` rewrites the *data* segment of every
/// `T::V` constructor and pattern path — the variant names stay.
#[test]
fn data_rename_covers_variant_constructor_and_pattern_sites() {
    let db = ws(&[
        (
            "main",
            "use dep::Opt;\n\
             fn main() -> i32 {\n\
             \x20   let o = Opt::Some(1);\n\
             \x20   return match o { Opt::Some(v) => v, Opt::None => 0 };\n\
             }\n",
        ),
        ("dep", "data Opt { Some(i32); None; }\n"),
    ]);
    let plan = db.plan_rename(0, "dep::Opt", "Maybe").unwrap();
    // decl + `use dep::Opt` + `Opt::Some(1)` + two pattern paths.
    assert!(renamed_text(&plan, 1).contains("data Maybe {"));
    assert!(renamed_text(&plan, 0).contains("use dep::Maybe;"));
    assert!(renamed_text(&plan, 0).contains("let o = Maybe::Some(1);"));
    assert!(renamed_text(&plan, 0).contains("Maybe::Some(v) => v, Maybe::None => 0"));
    // The variant names themselves are never sites.
    assert!(!renamed_text(&plan, 0).contains("Maybe::Some(val)"));
}

/// `m::T::V` — the data segment rewrites inside a module-qualified
/// variant path.
#[test]
fn data_rename_covers_module_qualified_variant_sites() {
    let db = ws(&[
        (
            "main",
            "use dep;\n\
             fn main() -> i32 {\n\
             \x20   let o = dep::Opt::Some(1);\n\
             \x20   return match o { dep::Opt::Some(v) => v, dep::Opt::None => 0 };\n\
             }\n",
        ),
        ("dep", "data Opt { Some(i32); None; }\n"),
    ]);
    let plan = db.plan_rename(0, "dep::Opt", "Maybe").unwrap();
    assert!(renamed_text(&plan, 0).contains("dep::Maybe::Some(1)"));
    assert!(renamed_text(&plan, 0).contains("dep::Maybe::Some(v) => v, dep::Maybe::None => 0"));
}

/// A variant's payload type paths are rename sites like any other
/// type position in a `data` declaration.
#[test]
fn data_rename_covers_variant_payload_types() {
    let db = ws(&[
        (
            "main",
            "use dep;\n\
             fn main() -> i32 {\n\
             \x20   let o = dep::Opt::Some(dep::P { x: 1 });\n\
             \x20   return match o { dep::Opt::Some(p) => p.x, dep::Opt::None => 0 };\n\
             }\n",
        ),
        ("dep", "data P { x: i32; }\ndata Opt { Some(P); None; }\n"),
    ]);
    let plan = db.plan_rename(0, "dep::P", "Point").unwrap();
    assert!(renamed_text(&plan, 1).contains("data Point {"));
    assert!(
        renamed_text(&plan, 1).contains("Some(Point)"),
        "payload type should rewrite: {}",
        renamed_text(&plan, 1)
    );
    assert!(renamed_text(&plan, 0).contains("dep::Point { x: 1 }"));
    // `Opt` sites untouched.
    assert!(renamed_text(&plan, 0).contains("dep::Opt::Some"));
}

/// Renaming a data def keeps `use m::T as U` aliases stable — the
/// variant path through the alias does not rewrite.
#[test]
fn aliased_data_import_keeps_variant_paths() {
    let db = ws(&[
        (
            "main",
            "use dep::Opt as O;\n\
             fn main() -> i32 {\n\
             \x20   let o = O::Some(1);\n\
             \x20   return match o { O::Some(v) => v, O::None => 0 };\n\
             }\n",
        ),
        ("dep", "data Opt { Some(i32); None; }\n"),
    ]);
    let plan = db.plan_rename(0, "dep::Opt", "Maybe").unwrap();
    // decl + `use` member segment — the alias `O` and `O::V` paths
    // stay exactly as written.
    assert!(renamed_text(&plan, 0).contains("use dep::Maybe as O;"));
    assert!(renamed_text(&plan, 0).contains("let o = O::Some(1);"));
    assert!(renamed_text(&plan, 0).contains("O::Some(v) => v, O::None => 0"));
}

/// `dep::Opt::Some` is a variant path and `dep::double` a call —
/// renaming `double` edits only the call member, never the variant
/// path's `Opt`/`Some` segments.
#[test]
fn variant_paths_do_not_confuse_fn_rename() {
    let db = ws(&[
        (
            "main",
            "use dep;\n\
             fn main() -> i32 {\n\
             \x20   let o = dep::Opt::Some(1);\n\
             \x20   return match o { dep::Opt::Some(v) => v, dep::Opt::None => dep::double(0) };\n\
             }\n",
        ),
        (
            "dep",
            "data Opt { Some(i32); None; }\n\
             fn double(x: i32) -> i32 { return x * 2; }\n",
        ),
    ]);
    let plan = db.plan_rename(0, "dep::double", "twice").unwrap();
    assert!(renamed_text(&plan, 0).contains("dep::twice(0)"));
    assert!(renamed_text(&plan, 0).contains("dep::Opt::Some(1)"));
    assert!(renamed_text(&plan, 0).contains("dep::Opt::Some(v) => v, dep::Opt::None"));
}

// ---------- local renames ----------

fn db(src: &str) -> Db {
    let mut db = Db::new(1);
    db.add_source_named("main", src);
    db
}

/// Byte offset of the `n`-th occurrence of `needle` (0-based).
fn at(src: &str, needle: &str, n: usize) -> u32 {
    let mut pos = 0;
    for i in 0..=n {
        let found = src[pos..]
            .find(needle)
            .map(|x| pos + x)
            .unwrap_or_else(|| panic!("{needle:?} occurrence {i} not found"));
        if i == n {
            return found as u32;
        }
        pos = found + 1;
    }
    unreachable!()
}

fn src_of(db: &Db) -> &str {
    db.source(0)
}

// ---------- happy paths ----------

#[test]
fn param_rename_covers_decl_and_refs() {
    let src = "fn f(x: i32) -> i32 { return x * x; }\n";
    let mut db = db(src);
    let plan = db.plan_rename_at(0, 0, at(src, "x", 0), "n").unwrap();
    assert_eq!(plan.old_name(), "x");
    assert_eq!(plan.edits().len(), 3, "edits: {:?}", plan.edits());
    db.apply_rename(&plan).unwrap();
    assert_eq!(src_of(&db), "fn f(n: i32) -> i32 { return n * n; }\n");
}

#[test]
fn let_binding_rename() {
    let src = "fn f() -> i32 { let a = 1; let b = a + 1; return b; }\n";
    let mut db = db(src);
    // Select via the *use* site, not the decl — positional either way.
    let plan = db
        .plan_rename_at(0, 0, at(src, "a + 1", 0), "base")
        .unwrap();
    assert_eq!(plan.edits().len(), 2);
    db.apply_rename(&plan).unwrap();
    assert_eq!(
        src_of(&db),
        "fn f() -> i32 { let base = 1; let b = base + 1; return b; }\n"
    );
}

#[test]
fn nested_block_refs_rewrite() {
    let src = "fn f() -> i32 { let x = 1; { let y = x + 1; } return x; }\n";
    let mut db = db(src);
    let plan = db.plan_rename_at(0, 0, at(src, "x", 0), "k").unwrap();
    // decl + `x + 1` in the inner block + `return x`.
    assert_eq!(plan.edits().len(), 3);
    db.apply_rename(&plan).unwrap();
    assert_eq!(
        src_of(&db),
        "fn f() -> i32 { let k = 1; { let y = k + 1; } return k; }\n"
    );
}

#[test]
fn same_name_in_two_fns_stays_separate() {
    let src = "fn f() -> i32 { let v = 1; return v; }\n\
               fn g() -> i32 { let v = 2; return v; }\n";
    let mut db = db(src);
    let plan = db.plan_rename_at(0, 0, at(src, "v", 2), "w").unwrap();
    // Only g's local — f's `v` is a different symbol.
    assert_eq!(plan.edits().len(), 2);
    db.apply_rename(&plan).unwrap();
    assert_eq!(
        src_of(&db),
        "fn f() -> i32 { let v = 1; return v; }\n\
         fn g() -> i32 { let w = 2; return w; }\n"
    );
}

#[test]
fn inner_shadow_selects_inner_only() {
    // `if` supplies the nested scope: `x > 0` and `return x` bind
    // the outer decl, `let x`/`let u = x` inside the branch bind
    // the inner.
    let src = "fn f() -> i32 { let x = 1; if x > 0 { let x = 2; let u = x; } return x; }\n";
    let mut db = db(src);
    // Inner decl is `x` occurrence #2.
    let plan = db.plan_rename_at(0, 0, at(src, "x", 2), "y").unwrap();
    assert_eq!(plan.edits().len(), 2);
    db.apply_rename(&plan).unwrap();
    assert_eq!(
        src_of(&db),
        "fn f() -> i32 { let x = 1; if x > 0 { let y = 2; let u = y; } return x; }\n"
    );
}

#[test]
fn outer_shadow_leaves_inner_alone() {
    // Renaming the OUTER `x`: `let u = x` inside the branch binds
    // the inner decl — it must not rewrite.
    let src = "fn f() -> i32 { let x = 1; if x > 0 { let x = 2; let u = x; } return x; }\n";
    let mut db = db(src);
    let plan = db.plan_rename_at(0, 0, at(src, "x", 0), "y").unwrap();
    // Outer decl + `x > 0` condition + `return x`.
    assert_eq!(plan.edits().len(), 3, "edits: {:?}", plan.edits());
    db.apply_rename(&plan).unwrap();
    assert_eq!(
        src_of(&db),
        "fn f() -> i32 { let y = 1; if y > 0 { let x = 2; let u = x; } return y; }\n"
    );
}

#[test]
fn local_shadows_param_initializer_binds_param() {
    // `let x = x + 1` — the init's `x` resolves *before* the new
    // decl, so it binds the param. Renaming the param rewrites the
    // param name and the init ref, not the let decl or `return x`.
    let src = "fn f(x: i32) -> i32 { let x = x + 1; return x; }\n";
    let mut db = db(src);
    let plan = db.plan_rename_at(0, 0, at(src, "x", 0), "p").unwrap();
    assert_eq!(plan.edits().len(), 2, "edits: {:?}", plan.edits());
    db.apply_rename(&plan).unwrap();
    assert_eq!(
        src_of(&db),
        "fn f(p: i32) -> i32 { let x = p + 1; return x; }\n"
    );
}

#[test]
fn assign_target_and_mutations_rewrite() {
    let src = "fn f() -> i32 { let mut x = 0; x = x + 1; return x; }\n";
    let mut db = db(src);
    let plan = db.plan_rename_at(0, 0, at(src, "x", 0), "n").unwrap();
    // decl + place base + `x + 1` + `return x`.
    assert_eq!(plan.edits().len(), 4, "edits: {:?}", plan.edits());
    db.apply_rename(&plan).unwrap();
    assert_eq!(
        src_of(&db),
        "fn f() -> i32 { let mut n = 0; n = n + 1; return n; }\n"
    );
}

#[test]
fn length_change_edits_cover_tokens_exactly() {
    let src = "fn f() -> i32 { let xx = 1; return xx; }\n";
    let mut db = db(src);
    let plan = db
        .plan_rename_at(0, 0, at(src, "xx", 0), "long_name")
        .unwrap();
    db.apply_rename(&plan).unwrap();
    assert_eq!(
        src_of(&db),
        "fn f() -> i32 { let long_name = 1; return long_name; }\n"
    );
}

#[test]
fn comments_and_strings_never_rewrite() {
    let src = "// x is the count\n\
               fn f() -> i32 { let x = 1; return x; }\n";
    let mut db = db(src);
    let plan = db.plan_rename_at(0, 0, at(src, "x = 1", 0), "n").unwrap();
    db.apply_rename(&plan).unwrap();
    let out = src_of(&db);
    assert!(out.starts_with("// x is the count"), "{out}");
    assert!(out.contains("let n = 1; return n;"));
}

// ---------- capture / drift rejection ----------

#[test]
fn new_name_captured_by_inner_binding_rejected() {
    // Renaming outer `x` → `y` makes `x + y` in the inner scope
    // bind the inner `y` — a silent rebind; must reject.
    let src = "fn f() -> i32 { let x = 1; if 1 > 0 { let y = 2; let u = x + y; } return x; }\n";
    let db = db(src);
    let before = src_of(&db).to_string();
    let rev = db.revision();
    match db.plan_rename_at(0, 0, at(src, "x", 0), "y") {
        Err(RenameError::ValidationFailed(d, _)) => {
            assert_eq!(d.code, Code::RenameRejected);
            assert!(d.message.contains("rebind"), "{}", d.message);
        }
        other => panic!("expected capture rejection, got {other:?}"),
    }
    assert_eq!(src_of(&db), before);
    assert_eq!(db.revision(), rev);
}

#[test]
fn renamed_decl_captured_by_outer_binding_rejected() {
    // Inner `x` → `y` where `y` is already a parameter: the
    // inner refs would rebind to the parameter `y`.
    let src = "fn f(y: i32) -> i32 { if y > 0 { let x = 1; let u = x + y; } return y; }\n";
    let db = db(src);
    let before = src_of(&db).to_string();
    match db.plan_rename_at(0, 0, at(src, "x = 1", 0), "y") {
        Err(RenameError::ValidationFailed(d, _)) => {
            assert_eq!(d.code, Code::RenameRejected);
        }
        other => panic!("expected capture rejection, got {other:?}"),
    }
    assert_eq!(src_of(&db), before);
}

#[test]
fn colliding_local_in_same_scope_rejected() {
    // `let x` → `y` while `let y` exists later in the same block:
    // `return x` would rebind to the *other* `y`.
    let src = "fn f() -> i32 { let x = 1; let y = 2; return x; }\n";
    let db = db(src);
    match db.plan_rename_at(0, 0, at(src, "x", 0), "y") {
        Err(RenameError::ValidationFailed(_, _)) => {}
        other => panic!("expected rejection, got {other:?}"),
    }
}

#[test]
fn shadowing_rename_that_still_binds_correctly_applies() {
    // Outer `x` → `z` where an inner `y` exists: refs to `x` still
    // bind it — valid, must not be confused with capture.
    let src = "fn f() -> i32 { let x = 1; { let y = 2; } return x; }\n";
    let mut db = db(src);
    let plan = db.plan_rename_at(0, 0, at(src, "x", 0), "z").unwrap();
    db.apply_rename(&plan).unwrap();
    assert_eq!(
        src_of(&db),
        "fn f() -> i32 { let z = 1; { let y = 2; } return z; }\n"
    );
}

// ---------- selection errors ----------

#[test]
fn offset_on_whitespace_is_unknown() {
    let src = "fn f() -> i32 { let x = 1; return x; }\n";
    let db = db(src);
    assert!(matches!(
        db.plan_rename_at(0, 0, at(src, ";", 0), "n"),
        Err(RenameError::UnknownSymbol(_))
    ));
}

#[test]
fn offset_on_fn_name_is_unsupported() {
    let src = "fn f() -> i32 { let x = 1; return x; }\n";
    let mut db = db(src);
    match db.plan_rename_at(0, 0, at(src, "f()", 0), "n") {
        Err(RenameError::Unsupported(d)) => {
            assert_eq!(d.code, Code::UnsupportedTarget);
        }
        other => panic!("expected Unsupported, got {other:?}"),
    }
}

#[test]
fn offset_outside_items_is_unknown() {
    let src = "fn f() -> i32 { return 0; }\n";
    let mut db = db(src);
    assert!(matches!(
        db.plan_rename_at(0, 0, src.len() as u32 + 10, "n"),
        Err(RenameError::UnknownSymbol(_))
    ));
}

#[test]
fn offset_inside_multibyte_char_is_clean_rejection() {
    // `é` is two bytes — an offset inside it must reject cleanly,
    // never panic or mis-select a neighboring token.
    let src = "// café x\nfn f() -> i32 { let x = 1; return x; }\n";
    let mut db = db(src);
    let e_start = src.find('é').unwrap();
    for off in [e_start, e_start + 1] {
        assert!(
            matches!(
                db.plan_rename_at(0, 0, off as u32, "n"),
                Err(RenameError::UnknownSymbol(_))
            ),
            "offset {off} must reject cleanly"
        );
    }
}

// ---------- the def path also verifies correspondence ----------

#[test]
fn def_rename_keeps_binding_correspondence() {
    // A rename whose candidate compiles cleanly AND preserves every
    // binding — the correspondence check passes, sites still resolve
    // to the same def identity.
    let src = "fn helper() -> i32 { return 1; }\n\
               fn main() -> i32 { let h = helper(); return h + helper(); }\n";
    let mut db = db(src);
    let plan = db.plan_rename(0, "helper", "util").unwrap();
    db.apply_rename(&plan).unwrap();
    assert_eq!(
        src_of(&db),
        "fn util() -> i32 { return 1; }\n\
         fn main() -> i32 { let h = util(); return h + util(); }\n"
    );
    // And the renamed program still runs: util+util = 2.
    assert_eq!(run(&db.compile(0), "main"), "2");
}

// ---------- transaction integrity ----------

// ---------- baseline policy ----------

#[test]
fn dirty_baseline_rejected_before_planning() {
    // Pre-existing error in the root: `missing_fn` never resolves.
    // The rename must refuse before scanning — validation compares
    // the candidate against "zero errors", so a dirty baseline
    // makes the check meaningless.
    let mut db = ws(&[
        ("main", "use dep; fn main() -> i32 { return missing_fn(); }"),
        ("dep", DEP),
    ]);
    assert!(db.check(0).diags.has_errors(), "fixture has an error");
    let rev = db.revision();
    let before = sources(&db, 2);
    match db.plan_rename(0, "dep::double", "twice") {
        Err(RenameError::BaselineErrors(d)) => {
            assert_eq!(d.code, Code::BaselineErrors);
        }
        other => panic!("expected BaselineErrors, got {other:?}"),
    }
    // No validated plan, no mutation.
    assert_eq!(db.revision(), rev);
    assert_eq!(sources(&db, 2), before);
}

#[test]
fn dirty_baseline_rejected_even_for_valid_rename() {
    // Even an unknown-symbol request reports the baseline policy —
    // the workspace must be clean before rename semantics apply.
    let mut db = ws(&[
        ("main", "fn main() -> i32 { return missing_fn(); }"),
        ("dep", DEP),
    ]);
    assert!(matches!(
        db.plan_rename(0, "nope", "x"),
        Err(RenameError::BaselineErrors(_))
    ));
}

#[test]
fn clean_baseline_still_shadow_checks() {
    // Baseline clean → the shadow-compile catches a rename that
    // would introduce a *new* error: renaming `double` to `norm`
    // collides with `fn norm` — rejected without mutation.
    let mut db = ws(&[("main", MAIN), ("dep", DEP)]);
    assert!(!db.check(0).diags.has_errors());
    let before = sources(&db, 2);
    let rev = db.revision();
    assert!(matches!(
        db.plan_rename(0, "dep::double", "norm"),
        Err(RenameError::Conflict(_))
    ));
    assert_eq!(db.revision(), rev);
    assert_eq!(sources(&db, 2), before);
}

// ---------- plan provenance ----------

#[test]
fn plan_cannot_cross_database_at_same_revision() {
    // Two Dbs, identical sources, identical revision. The plan
    // still cannot cross: it is bound to the producing session.
    let mut a = ws(&[("main", MAIN), ("dep", DEP)]);
    let mut b = ws_as(2, &[("main", MAIN), ("dep", DEP)]);
    assert_eq!(a.revision(), b.revision());
    let plan = a.plan_rename(0, "dep::double", "twice").unwrap();
    match b.apply_rename(&plan) {
        Err(RenameError::PlanMismatch(d)) => {
            assert_eq!(d.code, Code::PlanMismatch);
        }
        other => panic!("expected PlanMismatch, got {other:?}"),
    }
    // Db B untouched — still holds the old name.
    assert!(b.source(1).contains("fn double"));
    // Db A applies its own plan fine.
    a.apply_rename(&plan).unwrap();
    assert!(a.source(1).contains("fn twice"));
}

#[test]
fn plan_cannot_cross_workspaces() {
    // Same file count, same revision, different module names —
    // provenance binds to the workspace fingerprint too.
    let mut a = ws(&[("main", MAIN), ("dep", DEP)]);
    let mut b = ws_as(2, &[
        ("app", "fn main() -> i32 { return 0; }"),
        ("lib", "fn helper() -> i32 { return 1; }"),
    ]);
    assert_eq!(a.revision(), b.revision());
    let plan = a.plan_rename(0, "dep::double", "twice").unwrap();
    assert!(matches!(
        b.apply_rename(&plan),
        Err(RenameError::PlanMismatch(_))
    ));
}

#[test]
fn replayed_plan_rejected() {
    // A plan is single-shot: after apply the revision moved on —
    // replaying the same plan is stale, not a second apply.
    let mut db = ws(&[("main", MAIN), ("dep", DEP)]);
    let plan = db.plan_rename(0, "dep::double", "twice").unwrap();
    db.apply_rename(&plan).unwrap();
    let after = sources(&db, 2);
    let rev = db.revision();
    assert!(matches!(
        db.apply_rename(&plan),
        Err(RenameError::Stale { .. })
    ));
    assert_eq!(db.revision(), rev);
    assert_eq!(sources(&db, 2), after);
}

#[test]
fn module_inventory_change_stales_plan() {
    // A file added after planning bumps the revision — the plan's
    // read set changed, so apply is rejected.
    let mut db = ws(&[("main", MAIN), ("dep", DEP)]);
    let plan = db.plan_rename(0, "dep::double", "twice").unwrap();
    db.add_source_named("extra", "fn extra() -> i32 { return 0; }");
    assert!(matches!(
        db.apply_rename(&plan),
        Err(RenameError::Stale { .. })
    ));
    assert!(db.source(1).contains("fn double"));
}

#[test]
fn identical_text_edit_stales_plan() {
    // Revision is a write counter, not a content version: even a
    // byte-identical set_source makes the plan stale. Conservative,
    // never wrong — content-equal edits are rare in practice.
    let mut db = ws(&[("main", MAIN), ("dep", DEP)]);
    let plan = db.plan_rename(0, "dep::double", "twice").unwrap();
    db.set_source(0, MAIN);
    assert!(matches!(
        db.apply_rename(&plan),
        Err(RenameError::Stale { .. })
    ));
}

// ---------- apply ordering / no partial mutation ----------

#[test]
fn stale_rejection_leaves_everything_untouched() {
    let mut db = ws(&[("main", MAIN), ("dep", DEP)]);
    let plan = db.plan_rename(0, "dep::double", "twice").unwrap();
    db.set_source(0, "use dep; fn main() -> i32 { return 0; }");
    let before = sources(&db, 2);
    let rev = db.revision();
    assert!(matches!(
        db.apply_rename(&plan),
        Err(RenameError::Stale { .. })
    ));
    assert_eq!(sources(&db, 2), before);
    assert_eq!(db.revision(), rev);
    // And the workspace still checks cleanly — no half-state.
    assert!(!db.check(0).diags.has_errors());
}

#[test]
fn applied_plan_reports_post_rename_diagnostics() {
    // The report carries a fresh check of the renamed workspace —
    // consumers see the post-state, not the plan-time snapshot.
    let mut db = ws(&[("main", MAIN), ("dep", DEP)]);
    let plan = db.plan_rename(0, "dep::double", "twice").unwrap();
    let report = db.apply_rename(&plan).unwrap();
    assert!(!db.check(0).diags.has_errors());
    assert_eq!(report.files.len(), 2);
    assert_eq!(report.revision, db.revision());
    assert!(db.source(0).contains("dep::twice"));
    assert!(db.source(1).contains("fn twice"));
    // Edit spans index the *pre-edit* text: the decl site's span
    // covers `double` in the old source, `twice` afterwards at the
    // same start.
    let decl = plan
        .edits()
        .iter()
        .find(|e| e.file.index() == 1)
        .expect("dep decl edit");
    assert_eq!(decl.span.end - decl.span.start, "double".len() as u32);
    assert_eq!(
        &db.source(1)[decl.span.start as usize..decl.span.start as usize + "twice".len()],
        "twice"
    );
}

// ---------- patches ----------

/// Splice the plan's `new_sources` — the text apply would install.
fn patched_text(plan: &PatchPlan, file: usize) -> &str {
    &plan
        .new_sources()
        .iter()
        .find(|(f, _)| *f == file)
        .expect("file has new source")
        .1
}

const PATCH_DEP: &str = "fn double(x: i32) -> i32 { return x * 2; }\n\
                   fn norm(x: i32) -> i32 { return x; }\n";

const PATCH_MAIN: &str = "use dep;\n\
                    fn main() -> i32 { return dep::double(21); }\n\
                    fn local() -> i32 { return 1; }\n";

// ---------- preview ----------

#[test]
fn replace_body_preview_splices_only_the_block() {
    let mut db = ws(&[("main", PATCH_MAIN), ("dep", PATCH_DEP)]);
    let plan = db
        .plan_patch(
            0,
            &[PatchOp::ReplaceBody {
                symbol: "main::local".into(),
                body: "{ return 7; }".into(),
            }],
        )
        .unwrap();
    assert_eq!(plan.ops(), &["replace_body main::local"]);
    assert_eq!(plan.edits().len(), 1);
    let e = &plan.edits()[0];
    assert_eq!(e.file, FileId::new(0));
    // The edit covers exactly the `{ ... }` block — the signature
    // and `main`'s call site are untouched.
    assert_eq!(
        &db.source(0)[e.span.start as usize..e.span.end as usize],
        "{ return 1; }"
    );
    assert_eq!(e.replace, "{ return 7; }");
    assert!(patched_text(&plan, 0).contains("fn local() -> i32 { return 7; }"));
    assert!(patched_text(&plan, 0).contains("dep::double(21)"));
    // Preview never mutates.
    assert!(!db.source(0).contains("return 7"));
}

#[test]
fn remove_def_swallows_the_item_and_its_newline() {
    let mut db = ws(&[("main", PATCH_MAIN), ("dep", PATCH_DEP)]);
    let plan = db
        .plan_patch(
            0,
            &[PatchOp::RemoveDef {
                symbol: "dep::norm".into(),
            }],
        )
        .unwrap();
    assert_eq!(plan.edits().len(), 1);
    let text = patched_text(&plan, 1);
    assert!(!text.contains("norm"), "{text}");
    // No stray blank line left behind.
    assert_eq!(text, "fn double(x: i32) -> i32 { return x * 2; }\n");
}

#[test]
fn add_def_appends_to_the_module_file() {
    let mut db = ws(&[("main", PATCH_MAIN), ("dep", PATCH_DEP)]);
    let plan = db
        .plan_patch(
            0,
            &[PatchOp::AddDef {
                module: Some("dep".into()),
                text: "fn triple(x: i32) -> i32 { return x * 3; }".into(),
            }],
        )
        .unwrap();
    assert_eq!(plan.ops(), &["add_def triple → dep"]);
    let e = &plan.edits()[0];
    // Insertion at the module file's EOF.
    assert_eq!(e.file, FileId::new(1));
    assert_eq!(e.span.start as usize, PATCH_DEP.len());
    assert_eq!(e.span.start, e.span.end);
    let text = patched_text(&plan, 1);
    assert!(text.ends_with("fn triple(x: i32) -> i32 { return x * 3; }\n"));
    assert!(text.starts_with("fn double"));
}

#[test]
fn add_def_without_module_targets_the_root() {
    let mut db = ws(&[("main", PATCH_MAIN), ("dep", PATCH_DEP)]);
    let plan = db
        .plan_patch(
            0,
            &[PatchOp::AddDef {
                module: None,
                text: "fn added() -> i32 { return 9; }".into(),
            }],
        )
        .unwrap();
    assert_eq!(plan.edits()[0].file, FileId::new(0));
    assert!(patched_text(&plan, 0).ends_with("fn added() -> i32 { return 9; }\n"));
}

#[test]
fn multi_op_patch_orders_same_point_inserts_by_spec() {
    let mut db = ws(&[("main", "fn main() -> i32 { return 0; }\n")]);
    let plan = db
        .plan_patch(
            0,
            &[
                PatchOp::AddDef {
                    module: None,
                    text: "fn first() -> i32 { return 1; }".into(),
                },
                PatchOp::AddDef {
                    module: None,
                    text: "fn second() -> i32 { return 2; }".into(),
                },
            ],
        )
        .unwrap();
    let text = patched_text(&plan, 0);
    // Spec order is file order.
    let first = text.find("fn first").unwrap();
    let second = text.find("fn second").unwrap();
    assert!(first < second, "{text}");
}

// ---------- apply ----------

#[test]
fn apply_is_atomic_and_the_patched_program_runs() {
    let mut db = ws(&[("main", PATCH_MAIN), ("dep", PATCH_DEP)]);
    let plan = db
        .plan_patch(
            0,
            &[
                PatchOp::ReplaceBody {
                    symbol: "dep::double".into(),
                    body: "{ return x * 3; }".into(),
                },
                PatchOp::AddDef {
                    module: None,
                    text: "fn added() -> i32 { return 1; }".into(),
                },
            ],
        )
        .unwrap();
    let rev = db.revision();
    let report = db.apply_patch(&plan).unwrap();
    assert_eq!(report.revision, rev + 1);
    assert_eq!(report.ops, 2);
    assert_eq!(report.edits, 2);
    assert!(report.files.contains(&0) && report.files.contains(&1));
    assert!(!db.check(0).diags.has_errors());
    assert!(db.source(1).contains("return x * 3;"));
    assert!(db.source(0).contains("fn added()"));
    // The patched workspace still compiles and runs: 21 * 3 = 63.
    assert_eq!(run(&db.compile(0), "main"), "63");
}

#[test]
fn remove_def_of_a_still_called_fn_is_rejected_atomically() {
    let mut db = ws(&[("main", PATCH_MAIN), ("dep", PATCH_DEP)]);
    let before = sources(&db, 2);
    let rev = db.revision();
    let err = db
        .plan_patch(
            0,
            &[PatchOp::RemoveDef {
                symbol: "dep::double".into(),
            }],
        )
        .unwrap_err();
    let codes: Vec<_> = err.diagnostics().iter().map(|d| d.code).collect();
    assert!(codes.contains(&Code::PatchRejected), "{codes:?}");
    // The offending diagnostic rides along — the dangling call is
    // named, not just counted.
    assert!(
        err.diagnostics()
            .iter()
            .skip(1)
            .any(|d| d.severity == Severity::Error),
        "{:?}",
        err.diagnostics()
    );
    // Nothing applied: byte-identical sources, same revision.
    assert_eq!(sources(&db, 2), before);
    assert_eq!(db.revision(), rev);
}

#[test]
fn replace_body_with_a_type_error_is_rejected_atomically() {
    let mut db = ws(&[("main", PATCH_MAIN), ("dep", PATCH_DEP)]);
    let before = sources(&db, 2);
    let rev = db.revision();
    let err = db
        .plan_patch(
            0,
            &[PatchOp::ReplaceBody {
                symbol: "dep::double".into(),
                body: "{ return \"nope\"; }".into(),
            }],
        )
        .unwrap_err();
    assert!(matches!(err, PatchError::Rejected(..)));
    assert_eq!(sources(&db, 2), before);
    assert_eq!(db.revision(), rev);
}

// ---------- spec validation ----------

#[test]
fn malformed_specs_reject_before_any_workspace_work() {
    let mut db = ws(&[("main", PATCH_MAIN), ("dep", PATCH_DEP)]);
    let cases: Vec<PatchOp> = vec![
        // `body` is not a `{ ... }` block.
        PatchOp::ReplaceBody {
            symbol: "dep::double".into(),
            body: "return x * 3;".into(),
        },
        // Empty payload.
        PatchOp::ReplaceBody {
            symbol: "dep::double".into(),
            body: "   ".into(),
        },
    ];
    for op in cases {
        match db.plan_patch(0, &[op]) {
            Err(PatchError::Malformed(d)) => assert_eq!(d.code, Code::MalformedPatch),
            other => panic!("expected Malformed, got {other:?}"),
        }
    }
    // Empty op list.
    assert!(matches!(
        db.plan_patch(0, &[]),
        Err(PatchError::Malformed(_))
    ));
    // add_def payloads: not-parseable, two items, a `use` decl.
    for text in [
        "fn broken( {",
        "fn a() -> i32 { return 1; } fn b() -> i32 { return 2; }",
        "use dep;",
        "fn ok() -> i32 { return 1; } use dep;",
    ] {
        match db.plan_patch(
            0,
            &[PatchOp::AddDef {
                module: None,
                text: text.into(),
            }],
        ) {
            Err(PatchError::Malformed(d)) => assert_eq!(d.code, Code::MalformedPatch),
            other => panic!("expected Malformed for {text:?}, got {other:?}"),
        }
    }
}

#[test]
fn overlapping_ops_reject() {
    let db = ws(&[("main", PATCH_MAIN), ("dep", PATCH_DEP)]);
    // Two replace_body ops on one fn cover the same span.
    let err = db
        .plan_patch(
            0,
            &[
                PatchOp::ReplaceBody {
                    symbol: "dep::double".into(),
                    body: "{ return 1; }".into(),
                },
                PatchOp::ReplaceBody {
                    symbol: "dep::double".into(),
                    body: "{ return 2; }".into(),
                },
            ],
        )
        .unwrap_err();
    assert!(matches!(err, PatchError::Malformed(_)));
    // replace_body + remove_def on the same item overlap too.
    let err = db
        .plan_patch(
            0,
            &[
                PatchOp::RemoveDef {
                    symbol: "dep::norm".into(),
                },
                PatchOp::ReplaceBody {
                    symbol: "dep::norm".into(),
                    body: "{ return 0; }".into(),
                },
            ],
        )
        .unwrap_err();
    assert!(matches!(err, PatchError::Malformed(_)));
}

// ---------- semantic resolution rejections ----------

#[test]
fn unknown_ambiguous_and_wrong_kind_reject() {
    let db = ws(&[
        ("main", "use dep; use other; fn main() -> i32 { return 0; }"),
        ("dep", PATCH_DEP),
        ("other", "fn double(x: i32) -> i32 { return x; }"),
    ]);
    assert!(matches!(
        db.plan_patch(
            0,
            &[PatchOp::RemoveDef {
                symbol: "dep::nope".into()
            }]
        ),
        Err(PatchError::UnknownSymbol(_))
    ));
    // `double` exists in both dep and other — bare name is ambiguous.
    assert!(matches!(
        db.plan_patch(
            0,
            &[PatchOp::RemoveDef {
                symbol: "double".into()
            }]
        ),
        Err(PatchError::AmbiguousSymbol(_))
    ));
    // replace_body on a `data` def is the wrong kind.
    let db = ws(&[
        ("main", "use dep; fn main() -> i32 { return 0; }"),
        ("dep", "data V { x: i32; }\nfn f() -> i32 { return 0; }\n"),
    ]);
    match db.plan_patch(
        0,
        &[PatchOp::ReplaceBody {
            symbol: "dep::V".into(),
            body: "{ }".into(),
        }],
    ) {
        Err(PatchError::Unsupported(d)) => assert_eq!(d.code, Code::UnsupportedTarget),
        other => panic!("expected Unsupported, got {other:?}"),
    }
}

#[test]
fn replace_body_with_a_comment_in_the_seam_is_refused() {
    // The comment between the signature and `{` rides inside the
    // block's syntax-node span — splicing there would drop it, so
    // the site is refused rather than silently losing text.
    let db = ws(&[("main", "fn main() -> i32 /* keep me */ { return 0; }\n")]);
    match db.plan_patch(
        0,
        &[PatchOp::ReplaceBody {
            symbol: "main".into(),
            body: "{ return 1; }".into(),
        }],
    ) {
        Err(PatchError::Unsupported(d)) => assert_eq!(d.code, Code::UnsupportedTarget),
        other => panic!("expected Unsupported, got {other:?}"),
    }
    assert!(db.source(0).contains("keep me"));
}

#[test]
fn add_def_to_an_unreachable_module_rejects() {
    // `other` is registered but never `use`d — it is not in the
    // workspace's `use` graph.
    let db = ws(&[
        ("main", "use dep; fn main() -> i32 { return 0; }"),
        ("dep", PATCH_DEP),
        ("other", "fn x() -> i32 { return 0; }"),
    ]);
    match db.plan_patch(
        0,
        &[PatchOp::AddDef {
            module: Some("other".into()),
            text: "fn y() -> i32 { return 0; }".into(),
        }],
    ) {
        Err(PatchError::UnknownModule(d)) => assert_eq!(d.code, Code::UnknownModule),
        other => panic!("expected UnknownModule, got {other:?}"),
    }
}

#[test]
fn dirty_baseline_rejects_the_whole_patch() {
    let db = ws(&[
        (
            "main",
            "use dep; fn main() -> i32 { return dep::double(21); }",
        ),
        ("dep", "fn double(x: i32) -> i32 { return nope; }"),
    ]);
    let before = sources(&db, 2);
    match db.plan_patch(
        0,
        &[PatchOp::AddDef {
            module: None,
            text: "fn a() -> i32 { return 1; }".into(),
        }],
    ) {
        Err(PatchError::BaselineErrors(d)) => assert_eq!(d.code, Code::BaselineErrors),
        other => panic!("expected BaselineErrors, got {other:?}"),
    }
    assert_eq!(sources(&db, 2), before);
}

// ---------- apply-time guards ----------

#[test]
fn patch_stale_plan_rejected_without_mutation() {
    let mut db = ws(&[("main", PATCH_MAIN), ("dep", PATCH_DEP)]);
    let plan = db
        .plan_patch(
            0,
            &[PatchOp::RemoveDef {
                symbol: "dep::norm".into(),
            }],
        )
        .unwrap();
    // An unrelated edit lands between plan and apply.
    db.set_source(0, "use dep; fn main() -> i32 { return 0; }");
    let before = sources(&db, 2);
    let rev = db.revision();
    match db.apply_patch(&plan) {
        Err(PatchError::Stale { planned, current }) => {
            assert_eq!(planned, plan.revision());
            assert_eq!(current, rev);
        }
        other => panic!("expected Stale, got {other:?}"),
    }
    assert_eq!(sources(&db, 2), before);
    assert_eq!(db.revision(), rev);
}

#[test]
fn a_plan_can_never_cross_database_sessions() {
    let db1 = ws(&[("main", PATCH_MAIN), ("dep", PATCH_DEP)]);
    let mut db2 = ws_as(2, &[("main", PATCH_MAIN), ("dep", PATCH_DEP)]);
    let plan = db1
        .plan_patch(
            0,
            &[PatchOp::RemoveDef {
                symbol: "dep::norm".into(),
            }],
        )
        .unwrap();
    // Same sources, same revision — still the wrong database.
    match db2.apply_patch(&plan) {
        Err(PatchError::PlanMismatch(d)) => assert_eq!(d.code, Code::PlanMismatch),
        other => panic!("expected PlanMismatch, got {other:?}"),
    }
    assert!(db2.source(1).contains("fn norm"));
}

// ---------- the daemon ----------

const DAEMON_SRC: &str = "data P { x: i32; }\n\
                          fn read(p: P) -> i32 { return p.x; }\n\
                          fn bump(mut p: P) { p.x = p.x + 1; }\n\
                          fn main() -> i32 { let mut q = P { x: 1 }; bump(q); return read(q) + 5; }";

fn fs_path(text: &str) -> FsPath {
    FsPath {
        absolute: text.starts_with('/'),
        parts: text
            .split('/')
            .filter(|p| !p.is_empty())
            .map(|p| p.to_string())
            .collect(),
    }
}

fn object(ms: Vec<(&str, Json)>) -> Json {
    Json::Object(
        ms.into_iter()
            .map(|(k, value)| Member { key: k.to_string(), value })
            .collect(),
    )
}

fn text(s: &str) -> Json {
    Json::Str(s.to_string())
}

/// The value below keys and positions.
fn at_path<'a>(j: &'a Json, path: &[&str]) -> &'a Json {
    let mut cur = j;
    for p in path {
        cur = match cur {
            Json::Array(v) => &v[p.parse::<usize>().unwrap()],
            _ => cur.get(p).unwrap_or_else(|| panic!("no `{p}` in {cur:?}")),
        };
    }
    cur
}

fn items(j: &Json) -> &Vec<Json> {
    match j {
        Json::Array(v) => v,
        other => panic!("no array: {other:?}"),
    }
}

fn strings(j: &Json) -> Vec<&str> {
    items(j).iter().filter_map(|x| x.as_str()).collect()
}

fn codes(j: &Json) -> Vec<&str> {
    items(at_path(j, &["diagnostics"]))
        .iter()
        .filter_map(|d| d.get_str("code"))
        .collect()
}

/// Per function: what its body does with each parameter.
fn ownership_facts(snap: &Snapshot) -> Vec<Vec<ParamFacts>> {
    snap.bodies
        .iter()
        .map(|b| match b {
            None => Vec::new(),
            Some(b) => (0..b.local_symbols.len())
                .filter(|i| b.local_symbols[*i].kind == SymbolKind::Param)
                .map(|i| {
                    let param = SymbolId::Local(i);
                    let mut evidence = Vec::new();
                    let mut assigned = false;
                    for e in &b.exprs {
                        match &e.kind {
                            HirExprKind::Field { base, .. } => {
                                if matches!(b.exprs[base.raw].kind, HirExprKind::Var(s) if s == param)
                                {
                                    evidence.push(Evidence {
                                        kind: "read".to_string(),
                                        at: e.span,
                                    });
                                }
                            }
                            HirExprKind::Block { stmts, .. } => {
                                for s in stmts {
                                    if let HirStmt::Assign { target, .. } = s {
                                        assigned |= target.base == param;
                                    }
                                }
                            }
                            _ => {}
                        }
                    }
                    ParamFacts {
                        behavior: if assigned { "borrow_mut" } else { "borrow" }.to_string(),
                        escapes: Vec::new(),
                        evidence,
                    }
                })
                .collect(),
        })
        .collect()
}

/// A daemon over a disk that is only read.
struct Server {
    daemon: Daemon,
    db: Db,
    disk: Vec<(String, String)>,
}

impl Server {
    fn new(disk: &[(&str, &str)]) -> Server {
        Server {
            daemon: Daemon::new(1),
            db: Db::new(1),
            disk: disk
                .iter()
                .map(|(p, t)| (p.to_string(), t.to_string()))
                .collect(),
        }
    }

    fn bind(&mut self, path: &str, text: &str) -> usize {
        let p = fs_path(path);
        let module = module_name(&p);
        let shown = Shown { name: path.to_string(), path: p };
        let known = self.daemon.lookup(path);
        let f = self
            .daemon
            .bind(path.to_string(), shown, module.clone(), text.to_string());
        match known {
            Some(k) => self.db.set_source(k, text),
            None => assert_eq!(self.db.add_source_named(&module, text), f),
        }
        f
    }

    fn open(&mut self, path: &str) -> Result<usize, String> {
        if let Some(f) = self.daemon.lookup(path) {
            return Ok(f);
        }
        match self.disk.iter().find(|d| d.0 == path).cloned() {
            Some((_, text)) => Ok(self.bind(path, &text)),
            None => Err(format!("cannot read {path}: no such file")),
        }
    }

    fn ensure_workspace(&mut self, path: &str) -> Result<usize, String> {
        let f = self.open(path)?;
        let root = fs_path(path);
        let dir = &root.parts[..root.parts.len() - 1];
        let entries = self
            .disk
            .iter()
            .map(|d| fs_path(&d.0))
            .filter(|p| &p.parts[..p.parts.len() - 1] == dir)
            .collect();
        for p in workspace_files(&root, entries).into_iter().skip(1) {
            let name = p.display();
            if self.daemon.lookup(&name).is_none() {
                let t = self.disk.iter().find(|d| d.0 == name).unwrap().1.clone();
                self.bind(&name, &t);
            }
        }
        Ok(f)
    }

    fn handle(&mut self, req: &Json) -> Json {
        let asked = match dispatch(&mut self.daemon, req, 2) {
            Step::Stop => panic!("the session ended"),
            Step::Reply(reply) => return reply,
            Step::Work(asked) => asked,
        };
        match asked {
            Request::Open { path, text } => {
                let r = match text {
                    Some(t) => Ok(self.bind(&path, &t)),
                    None => self.open(&path),
                };
                match r {
                    Ok(f) => opened(f),
                    Err(m) => io_failed("daemon", &m),
                }
            }
            Request::Check { path } => match self.ensure_workspace(&path) {
                Err(m) => io_failed("check", &m),
                Ok(f) => {
                    let c = self.db.check(f);
                    checked(&c.diags, &self.db.last_evaluated(), &self.daemon.source_files())
                }
            },
            Request::Explain { path, symbol } => match self.ensure_workspace(&path) {
                Err(m) => io_failed("explain", &m),
                Ok(f) => {
                    let c = self.db.compile(f);
                    let facts = ownership_facts(&c.snap);
                    let (result, extra) =
                        c.snap.explain_result(&facts, &Vec::new(), symbol.as_deref(), &path);
                    explained(
                        result,
                        extra.as_ref(),
                        &c.diags,
                        &self.db.last_evaluated(),
                        &self.daemon.source_files(),
                    )
                }
            },
            Request::Rename { path, symbol, to, apply, revision, at } => {
                match self.ensure_workspace(&path) {
                    Err(m) => io_failed("rename", &m),
                    Ok(f) => self.rename(f, &symbol, &to, apply, revision, at),
                }
            }
            Request::Patch { path, ops, apply, revision } => {
                match self.ensure_workspace(&path) {
                    Err(m) => io_failed("patch", &m),
                    Ok(f) => self.patch(f, &ops, apply, revision),
                }
            }
            Request::Fmt { path } => match self.open(&path) {
                Err(m) => io_failed("fmt", &m),
                Ok(f) => {
                    let t = self.daemon.session().source(f).to_string();
                    formatted(&path, &t, TIDY)
                }
            },
            Request::Stats => stats(
                self.db.engine.stats(),
                Facts {
                    collected: self.db.collected as u64,
                    reused: self.db.reused as u64,
                    rounds: 1,
                },
                &self.db.last_evaluated(),
            ),
            Request::Close { path } => closed(self.daemon.close(&path)),
            Request::Shutdown | Request::Unknown(_) => unreachable!(),
        }
    }

    fn rename(
        &mut self,
        f: usize,
        symbol: &str,
        to: &str,
        apply: bool,
        revision: Option<u64>,
        at: Option<u64>,
    ) -> Json {
        let files = self.daemon.source_files();
        if let Some(stale) = rename_stale(apply, revision, self.daemon.revision(), &files) {
            return stale;
        }
        let planned = match at {
            Some(off) => self.db.plan_rename_at(f, f, off as u32, to),
            None => self.db.plan_rename(f, symbol, to),
        };
        match planned {
            Err(e) => rename_output::rejection_json(&e, &files),
            Ok(plan) if apply => match self.daemon.apply_rename(&plan) {
                Err(e) => rename_output::rejection_json(&e, &files),
                Ok(report) => {
                    self.db.apply_rename(&plan).unwrap();
                    let c = self.db.check(f);
                    rename_served(&plan, &report, &c.diags, &self.daemon.source_files())
                }
            },
            Ok(plan) => rename_planned(&plan, &files),
        }
    }

    fn patch(&mut self, f: usize, ops: &Json, apply: bool, revision: Option<u64>) -> Json {
        let files = self.daemon.source_files();
        if let Some(stale) = patch_stale(apply, revision, self.daemon.revision(), &files) {
            return stale;
        }
        let ops = match parse_ops(ops) {
            Err(d) => return patch_malformed(&d, &files),
            Ok(ops) => ops,
        };
        match self.db.plan_patch(f, &ops) {
            Err(e) => patch_output::rejection_json(&e, &files),
            Ok(plan) if apply => match self.daemon.apply_patch(&plan) {
                Err(e) => patch_output::rejection_json(&e, &files),
                Ok(report) => {
                    self.db.apply_patch(&plan).unwrap();
                    let c = self.db.check(f);
                    patch_served(&plan, &report, &c.diags, &self.daemon.source_files())
                }
            },
            Ok(plan) => patch_planned(&plan, &files),
        }
    }

    fn all(&mut self, reqs: Vec<Json>) -> Vec<Json> {
        reqs.iter().map(|r| self.handle(r)).collect()
    }
}

fn op(name: &str, path: &str) -> Json {
    object(vec![("op", text(name)), ("path", text(path))])
}

fn put_text(path: &str, t: &str) -> Json {
    object(vec![("op", text("set")), ("path", text(path)), ("text", text(t))])
}

#[test]
fn daemon_recheck_evaluates_nothing() {
    let p = "/ws/daemon.ixa";
    let rs = Server::new(&[(p, DAEMON_SRC)]).all(vec![op("open", p), op("check", p), op("check", p)]);
    assert_eq!(rs.len(), 3);
    assert_eq!(at_path(&rs[0], &["success"]), &Json::Bool(true));
    // Cold check evaluates queries; the same-source recheck is pure
    // verification — zero evals.
    assert!(!items(at_path(&rs[1], &["result", "evaluated"])).is_empty());
    assert_eq!(items(at_path(&rs[2], &["result", "evaluated"])).len(), 0);
}

/// `read` LAST so an in-body edit shifts no other def's spans.
const SRC_LAST: &str = "data P { x: i32; }\n\
                        fn bump(mut p: P) { p.x = p.x + 1; }\n\
                        fn main() -> i32 { let mut q = P { x: 1 }; bump(q); return read(q) + 5; }\n\
                        fn read(p: P) -> i32 { return p.x; }";

#[test]
fn daemon_edit_reruns_only_dirty_chain() {
    let p = "/ws/daemonedit.ixa";
    // Edit inside `read`'s body — the last def, so nothing else shifts.
    let edited = SRC_LAST.replace("return p.x;", "return p.x ;");
    let rs = Server::new(&[]).all(vec![
        put_text(p, SRC_LAST),
        op("check", p),
        put_text(p, &edited),
        op("check", p),
    ]);
    let evs = strings(at_path(&rs[3], &["result", "evaluated"]));
    // Exactly one body chain re-ran (read's) — bump and main are
    // verified fresh without re-evaluating.
    let bodies: Vec<&&str> = evs.iter().filter(|k| k.contains("HirBody")).collect();
    assert_eq!(bodies.len(), 1, "expected one dirty body: {evs:?}");
    assert!(evs.iter().any(|k| k.contains("Parse")), "{evs:?}");
}

#[test]
fn daemon_trailing_comment_cuts_off_at_ast() {
    let p = "/ws/daemoncomment.ixa";
    let commented = format!("{SRC_LAST}\n// a note");
    let rs = Server::new(&[]).all(vec![
        put_text(p, SRC_LAST),
        op("check", p),
        put_text(p, &commented),
        op("check", p),
    ]);
    let evs = strings(at_path(&rs[3], &["result", "evaluated"]));
    // A comment-only edit re-parses but cuts off at the AST —
    // no body's semantic chain runs.
    for pat in ["HirBody", "BodyTypes", "MirBody", "Scope"] {
        assert!(
            !evs.iter().any(|k| k.contains(pat)),
            "{pat} unexpectedly re-ran: {evs:?}"
        );
    }
    assert!(evs.iter().any(|k| k.contains("Parse")), "{evs:?}");
}

#[test]
fn daemon_explain_and_stats() {
    let p = "/ws/daemonexpl.ixa";
    let rs = Server::new(&[(p, DAEMON_SRC)]).all(vec![
        op("open", p),
        object(vec![("op", text("explain")), ("path", text(p)), ("symbol", text("read"))]),
        object(vec![("op", text("stats"))]),
    ]);
    let sym = at_path(&rs[1], &["result", "symbol"]);
    assert_eq!(at_path(sym, &["name"]), &text("read"));
    assert_eq!(at_path(sym, &["params", "0", "behavior"]), &text("borrow"));
    // Evidence: read's param was observed at a specific span.
    assert_eq!(at_path(sym, &["params", "0", "evidence", "0", "kind"]), &text("read"));
    assert!(matches!(
        at_path(&rs[2], &["result", "queries", "executed"]),
        Json::Object(_)
    ));
    let rounds = at_path(&rs[2], &["result", "oracle"]).get_u64("rounds").unwrap();
    assert!(rounds >= 1);
}

#[test]
fn daemon_bad_lines_get_envelopes_not_crashes() {
    let mut s = Server::new(&[]);
    let lines = [malformed("expected value"), s.handle(&object(vec![("op", text("bogus"))]))];
    assert_eq!(at_path(&lines[0], &["error", "kind"]), &text("io"));
    assert_eq!(at_path(&lines[1], &["error", "kind"]), &text("io"));
    assert_eq!(at_path(&lines[1], &["error", "message"]), &text("unknown op `bogus`"));
}

#[test]
fn daemon_workspace_check_loads_siblings() {
    let p = "/ws/main.ixa";
    let mut s = Server::new(&[
        (p, "use math; fn main() -> i32 { return math::double(21); }"),
        ("/ws/math.ixa", "fn double(x: i32) -> i32 { return x * 2; }"),
    ]);
    let rs = s.all(vec![op("open", p), op("check", p), op("check", p)]);
    assert_eq!(at_path(&rs[1], &["success"]), &Json::Bool(true), "{:?}", rs[1]);
    let ev = strings(at_path(&rs[1], &["result", "evaluated"]));
    // File 1 (math) was discovered through `use` and its defs checked.
    assert!(
        ev.iter().any(|k| k.contains("FileId(1)")),
        "no dep-file query evaluated: {ev:?}"
    );
    // Recheck: pure verification.
    assert_eq!(items(at_path(&rs[2], &["result", "evaluated"])).len(), 0);
}

#[test]
fn daemon_dep_edit_reruns_only_dep_chain() {
    let p = "/ws/main.ixa";
    let dep = "/ws/math.ixa";
    let mut s = Server::new(&[
        (p, "use math; fn main() -> i32 { return math::double(21); }"),
        (dep, "fn double(x: i32) -> i32 { return x * 2; }"),
    ]);
    let rs = s.all(vec![
        op("open", p),
        op("check", p),
        put_text(dep, "fn double(x: i32) -> i32 { return x * 4; }"),
        op("check", p),
    ]);
    assert_eq!(at_path(&rs[3], &["success"]), &Json::Bool(true), "{:?}", rs[3]);
    let ev = strings(at_path(&rs[3], &["result", "evaluated"]));
    let bodies: Vec<&&str> = ev.iter().filter(|k| k.contains("HirBody")).collect();
    // Only `double` (file 1) re-lowered; `main` (file 0) stayed
    // memoized — the signature didn't change. DefKeys print as
    // `DefKey(root:file:name)`.
    assert_eq!(bodies.len(), 1, "expected one dirty body: {ev:?}");
    assert!(bodies[0].contains("DefKey(0:1:"), "{ev:?}");
}

#[test]
fn daemon_rename_previews_applies_and_guards_stale() {
    let p = "/ws/main.ixa";
    let disk = [
        (p, "use math; fn main() -> i32 { return math::double(21); }"),
        ("/ws/math.ixa", "fn double(x: i32) -> i32 { return x * 2; }"),
    ];
    let rename = |symbol: &str, to: &str, rev: Option<u64>| {
        let mut ms = vec![
            ("op", text("rename")),
            ("path", text(p)),
            ("symbol", text(symbol)),
            ("to", text(to)),
        ];
        if let Some(r) = rev {
            ms.push(("apply", Json::Bool(true)));
            ms.push(("revision", Json::Uint(r)));
        }
        object(ms)
    };
    let rs = Server::new(&disk).all(vec![op("open", p), rename("math::double", "twice", None)]);
    assert_eq!(at_path(&rs[1], &["success"]), &Json::Bool(true), "{:?}", rs[1]);
    assert_eq!(at_path(&rs[1], &["result", "applied"]), &Json::Bool(false));
    let rev = at_path(&rs[1], &["result"]).get_u64("revision").unwrap();
    assert!(items(at_path(&rs[1], &["result", "edits"])).len() >= 2);

    let rs = Server::new(&disk).all(vec![
        op("open", p),
        // Apply naming the wrong revision → E_STALE_REVISION.
        rename("math::double", "twice", Some(rev + 9)),
        // Apply with the planned revision → applied in-memory.
        rename("math::double", "twice", Some(rev)),
        // The revision bumped — the same plan is now stale.
        rename("math::twice", "triple", Some(rev)),
    ]);
    assert!(codes(&rs[1]).contains(&"E_STALE_REVISION"), "{:?}", rs[1]);
    assert_eq!(at_path(&rs[2], &["success"]), &Json::Bool(true), "{:?}", rs[2]);
    assert_eq!(at_path(&rs[2], &["result", "applied"]), &Json::Bool(true));
    let srcs = items(at_path(&rs[2], &["result", "new_sources"]));
    assert_eq!(srcs.len(), 2);
    assert!(srcs.iter().all(|s| s.get_str("text").unwrap().contains("twice")));
    assert!(codes(&rs[3]).contains(&"E_STALE_REVISION"), "{:?}", rs[3]);
}

const MESSY: &str = "fn f( x:i32)->i32{return x;}";
const TIDY: &str = "fn f(x: i32) -> i32 {\n    return x;\n}\n";

#[test]
fn daemon_fmt_returns_canonical_text_without_mutating() {
    let p = "/ws/daemonfmt.ixa";
    let rs = Server::new(&[]).all(vec![put_text(p, MESSY), op("fmt", p), op("fmt", p)]);
    assert_eq!(at_path(&rs[1], &["command"]), &text("fmt"));
    assert_eq!(at_path(&rs[1], &["success"]), &Json::Bool(true));
    assert_eq!(at_path(&rs[1], &["result", "changed"]), &Json::Bool(true));
    assert_eq!(at_path(&rs[1], &["result", "formatted"]), &text(TIDY));
    // Not mutated: the second demand still reports `changed`.
    assert_eq!(at_path(&rs[2], &["result", "changed"]), &Json::Bool(true));
}

#[test]
fn daemon_rename_at_selects_local_positionally() {
    let p = "/ws/main.ixa";
    let src = "fn main() -> i32 { let count = 2; return count * 2; }";
    let disk = [(p, src), ("/ws/math.ixa", "fn double(x: i32) -> i32 { return x * 2; }")];
    let off = src.find("count").unwrap() as u64;
    let base = || {
        vec![
            ("op", text("rename")),
            ("path", text(p)),
            ("at", Json::Uint(off)),
            ("to", text("total")),
        ]
    };
    let rs = Server::new(&disk).all(vec![op("open", p), object(base())]);
    assert_eq!(at_path(&rs[1], &["success"]), &Json::Bool(true), "{:?}", rs[1]);
    assert_eq!(at_path(&rs[1], &["result", "applied"]), &Json::Bool(false));
    // decl + use — local rename found both through HIR identity.
    assert_eq!(items(at_path(&rs[1], &["result", "edits"])).len(), 2);
    let rev = at_path(&rs[1], &["result"]).get_u64("revision").unwrap();

    let mut apply = base();
    apply.push(("apply", Json::Bool(true)));
    apply.push(("revision", Json::Uint(rev)));
    let rs = Server::new(&disk).all(vec![op("open", p), object(apply)]);
    assert_eq!(at_path(&rs[1], &["success"]), &Json::Bool(true), "{:?}", rs[1]);
    assert_eq!(at_path(&rs[1], &["result", "applied"]), &Json::Bool(true));
    let new_src = at_path(&rs[1], &["result", "new_sources", "0", "text"]);
    assert_eq!(
        new_src,
        &text("fn main() -> i32 { let total = 2; return total * 2; }")
    );
}

#[test]
fn daemon_poisoned_session_starts_over() {
    let p = "/ws/a.ixa";
    let mut s = Server::new(&[(p, "fn a() -> i32 { return 1; }")]);
    s.handle(&op("open", p));
    s.daemon.poison();
    let r = s.handle(&op("check", p));
    assert_eq!(at_path(&r, &["error", "kind"]), &text("internal"));
    assert_eq!(s.daemon.revision(), 1);
    assert!(s.daemon.gate("open", 9).is_none());
    assert_eq!(s.daemon.revision(), 0);
    assert!(s.daemon.lookup(p).is_none());
    assert!(s.daemon.gate("check", 9).is_none());
    assert_eq!(
        at_path(&handler_failed(), &["error", "message"]),
        &text("panic in request handler; session requires reset")
    );
}

#[test]
fn daemon_close_drops_the_binding_only() {
    let p = "/ws/a.ixa";
    let mut s = Server::new(&[(p, "fn a() -> i32 { return 1; }")]);
    let rs = s.all(vec![op("open", p), op("close", p), op("close", p)]);
    assert_eq!(at_path(&rs[0], &["result", "file"]), &Json::Uint(0));
    assert_eq!(at_path(&rs[1], &["result", "closed"]), &Json::Bool(true));
    assert_eq!(at_path(&rs[2], &["result", "closed"]), &Json::Bool(false));
    assert_eq!(s.daemon.source_files().len(), 1);
    let r = s.handle(&op("check", "/ws/missing.ixa"));
    assert_eq!(at_path(&r, &["error", "kind"]), &text("io"));
}

// ---------- explain ----------

fn explain_doc(src: &str, symbol: Option<&str>) -> (Json, u8) {
    let mut db = Db::new(1);
    let f = db.add_source_named("main", src);
    let c = db.compile(f);
    let facts = ownership_facts(&c.snap);
    let (result, extra) = c.snap.explain_result(&facts, &Vec::new(), symbol, "main.ixa");
    let files = vec![SourceFile {
        name: "main.ixa".to_string(),
        path: None,
        text: src.to_string(),
    }];
    match explain(
        "main.ixa",
        symbol.is_some(),
        result,
        extra.as_ref(),
        &c.diags,
        &files,
        None,
        true,
    ) {
        Answer::Document(j, code) => (j, code),
        Answer::Text(_) => panic!("a document"),
    }
}

fn explain_lines(src: &str, symbol: Option<&str>) -> (String, u8) {
    let mut db = Db::new(1);
    let f = db.add_source_named("main", src);
    let c = db.compile(f);
    let facts = ownership_facts(&c.snap);
    let (result, extra) = c.snap.explain_result(&facts, &Vec::new(), symbol, "main.ixa");
    let files = vec![SourceFile {
        name: "main.ixa".to_string(),
        path: None,
        text: src.to_string(),
    }];
    match explain(
        "main.ixa",
        symbol.is_some(),
        result,
        extra.as_ref(),
        &c.diags,
        &files,
        None,
        false,
    ) {
        Answer::Text(o) => (o.out, o.code),
        Answer::Document(..) => panic!("text"),
    }
}

#[test]
fn explain_json_lists_defs() {
    let (d, _) = explain_doc(DAEMON_SRC, None);
    let defs = items(at_path(&d, &["result", "defs"]));
    assert_eq!(defs.len(), 4);
    // `read` must carry its inferred contract.
    let read = defs.iter().find(|d| d.get_str("name") == Some("read")).unwrap();
    assert_eq!(at_path(read, &["params", "0", "behavior"]), &text("borrow"));
}

#[test]
fn explain_symbol_resolves_semantically() {
    let (d, code) = explain_doc(DAEMON_SRC, Some("read"));
    assert_eq!(at_path(&d, &["result", "symbol", "kind"]), &text("fn"));
    assert_eq!(
        at_path(&d, &["result", "symbol", "params", "0", "behavior"]),
        &text("borrow")
    );
    assert_eq!(code, 0);
}

#[test]
fn explain_ambiguous_symbol_is_a_diagnostic() {
    let (d, code) = explain_doc(DAEMON_SRC, Some("p"));
    assert_eq!(at_path(&d, &["success"]), &Json::Bool(false));
    assert!(codes(&d).contains(&"E_AMBIGUOUS_SYMBOL"), "{:?}", codes(&d));
    assert_eq!(code, 1);
}

#[test]
fn explain_unknown_symbol_is_a_diagnostic() {
    let (d, code) = explain_doc(DAEMON_SRC, Some("nope"));
    assert_eq!(codes(&d), ["E_UNKNOWN_SYMBOL"]);
    assert_eq!(at_path(&d, &["result"]), &Json::Null);
    assert_eq!(code, 1);
}

#[test]
fn explain_prints_definitions_and_symbols() {
    let (out, code) = explain_lines(DAEMON_SRC, None);
    assert_eq!(
        out,
        "main.ixa\n\
         \x20 data P { x }\n\
         \x20 fn read(p: borrow)\n\
         \x20 fn bump(p: borrow_mut)\n\
         \x20 fn main()\n"
    );
    assert_eq!(code, 0);
    let (out, _) = explain_lines("data O { Some(i32); None; } fn f() -> i32 { return 0; }", Some("Some"));
    assert_eq!(
        out,
        "symbol: Some\n  kind: variant\n  owner: O\n  type: O\n  binding: immutable\n  \
         discriminant: 0\n  payload: (i32)\n"
    );
    let src = "fn f(k: i32) -> i32 { let q = k; return q; }";
    let (out, _) = explain_lines(src, Some("k"));
    assert_eq!(
        out,
        "symbol: k\n  kind: param\n  owner: f\n  type: i32\n  binding: immutable\n  \
         behavior: borrow\n"
    );
    let (out, _) = explain_lines("data O { Some(i32); None; } fn f() -> i32 { return 0; }", Some("O"));
    assert_eq!(out, "  data O { Some(i32), None }\n");
}

#[test]
fn human_check_has_no_json_on_stdout() {
    let mut db = Db::new(1);
    let f = db.add_source_named("main", DAEMON_SRC);
    let c = db.check(f);
    let files = vec![SourceFile {
        name: "human.ixa".to_string(),
        path: None,
        text: DAEMON_SRC.to_string(),
    }];
    match check("human.ixa", &c.diags, &files, None, false) {
        Answer::Text(o) => {
            assert_eq!(o.code, 0);
            // Human mode: no JSON document on stdout at all.
            assert!(o.out.trim().is_empty());
            assert_eq!(o.err, "human.ixa: ok\n");
        }
        Answer::Document(..) => panic!("text"),
    }
}

#[test]
fn check_json_is_one_document() {
    let mut db = Db::new(1);
    let f = db.add_source_named("main", DAEMON_SRC);
    let c = db.check(f);
    let timings = stage_timings(db.engine.last_run());
    let files = vec![SourceFile {
        name: "check.ixa".to_string(),
        path: None,
        text: DAEMON_SRC.to_string(),
    }];
    let Answer::Document(d, code) = check("check.ixa", &c.diags, &files, Some(&timings), true) else {
        panic!("a document")
    };
    assert_eq!(at_path(&d, &["schema"]), &Json::Uint(1));
    assert_eq!(at_path(&d, &["command"]), &text("check"));
    assert_eq!(at_path(&d, &["success"]), &Json::Bool(true));
    let stages: Vec<&str> = items(at_path(&d, &["timings"]))
        .iter()
        .filter_map(|t| t.get_str("stage"))
        .collect();
    // check is check-only: frontend stages run, backend stages
    // (graph, mir, assemble) must not — that's the check/build split.
    for stage in ["lex+parse", "ast", "hir", "types", "ownership"] {
        assert!(stages.contains(&stage), "missing stage {stage}");
    }
    for stage in ["graph", "mir", "assemble"] {
        assert!(!stages.contains(&stage), "check ran {stage}");
    }
    assert_eq!(code, 0);
}

/// A diagnostic in a dependency file names *that* file and offsets
/// into *its* text — not the root's.
#[test]
fn workspace_dep_diagnostic_names_dep_file() {
    let math_src = "fn v() -> i32 { return nope; }";
    let p = "/ws/main.ixa";
    let mut s = Server::new(&[
        (p, "use math; fn main() -> i32 { return math::v(); }"),
        ("/ws/math.ixa", math_src),
    ]);
    let d = s.handle(&op("check", p));
    assert_eq!(at_path(&d, &["success"]), &Json::Bool(false));
    let dep = items(at_path(&d, &["diagnostics"]))
        .iter()
        .find(|x| {
            at_path(x, &["primary"])
                .get_str("file")
                .is_some_and(|f| f.contains("math.ixa"))
        })
        .expect("a dep-file diagnostic");
    // `nope`'s span indexes math.ixa's own text.
    let at = math_src.find("nope").unwrap() as u64;
    assert_eq!(at_path(dep, &["primary", "start"]), &Json::Uint(at));
    assert_eq!(at_path(dep, &["primary", "end"]), &Json::Uint(at + 4));
}

#[test]
fn rename_output_names_files_and_edits() {
    let db = ws(&[("main", MAIN), ("dep", DEP)]);
    let plan = db.plan_rename(0, "dep::double", "twice").unwrap();
    let files: Vec<SourceFile> = [("main.ixa", MAIN), ("dep.ixa", DEP)]
        .iter()
        .map(|(n, t)| SourceFile { name: n.to_string(), path: None, text: t.to_string() })
        .collect();
    let Answer::Text(o) = rename_previewed(&plan, &files, false) else { panic!("text") };
    assert!(o.out.starts_with("dep::double → twice: 2 edit(s) in 2 file(s)\n"), "{}", o.out);
    assert_eq!(o.err, "dry run — pass --apply to write the changes\n");
    let Answer::Document(d, 0) = rename_previewed(&plan, &files, true) else {
        panic!("a document")
    };
    assert_eq!(at_path(&d, &["result", "applied"]), &Json::Bool(false));
    assert_eq!(strings(at_path(&d, &["result", "files"])), ["main.ixa", "dep.ixa"]);
    let edits = items(at_path(&d, &["result", "edits"]));
    assert!(edits.iter().all(|e| e.get_str("replace") == Some("twice")));
    let err = db.plan_rename(0, "dep::double", "norm").unwrap_err();
    let Answer::Document(d, 1) = rename_refused(&err, &files, true) else {
        panic!("a refusal")
    };
    assert_eq!(codes(&d), ["E_NAME_CONFLICT"]);
}

#[test]
fn patch_output_counts_ops_and_edits() {
    let mut db = ws(&[("main", PATCH_MAIN), ("dep", PATCH_DEP)]);
    let spec = object(vec![(
        "ops",
        Json::Array(vec![object(vec![
            ("op", text("remove_def")),
            ("symbol", text("dep::norm")),
        ])]),
    )]);
    let ops = parse_ops(&spec).unwrap();
    let plan = db.plan_patch(0, &ops).unwrap();
    let files: Vec<SourceFile> = [("main.ixa", PATCH_MAIN), ("dep.ixa", PATCH_DEP)]
        .iter()
        .map(|(n, t)| SourceFile { name: n.to_string(), path: None, text: t.to_string() })
        .collect();
    let Answer::Text(o) = patch_previewed(&plan, &files, false) else { panic!("text") };
    assert!(o.out.starts_with("patch: 1 op(s), 1 edit(s) in 1 file(s)\n"), "{}", o.out);
    let report = db.apply_patch(&plan).unwrap();
    let ds = db.check(0).diags;
    let Answer::Text(o) = patch_done(&plan, &report, &ds, &files, false) else {
        panic!("text")
    };
    assert_eq!(o.out, "applied 1 op(s): 1 edit(s), 1 file(s) written\n");
    let Answer::Document(d, 0) = patch_done(&plan, &report, &ds, &files, true) else {
        panic!("a document")
    };
    assert_eq!(at_path(&d, &["result", "ops_applied"]), &Json::Uint(1));
    assert_eq!(strings(at_path(&d, &["result", "applied_files"])), ["dep.ixa"]);
    // What a preview replaces is shown quoted, with its escapes.
    let body = PatchOp::ReplaceBody {
        symbol: "main::local".into(),
        body: "{\n    return 7;\n}".into(),
    };
    let plan = ws(&[("main", PATCH_MAIN), ("dep", PATCH_DEP)]).plan_patch(0, &[body]).unwrap();
    let Answer::Text(o) = patch_previewed(&plan, &files, false) else { panic!("text") };
    assert!(o.out.contains("\"{\\n    return 7;\\n}\""), "{}", o.out);
}

#[test]
fn patch_ops_edit_signatures_uses_and_fields() {
    let src = "use dep;\nfn main() -> i32 { return f(1); }\nfn f(a: i32) -> i32 { return a; }\n";
    let db = ws(&[("main", src), ("dep", "data V { x: i32; }\nfn g() -> i32 { return 1; }\n")]);
    let one = |op: PatchOp, file: usize| {
        let plan = db.plan_patch(0, &[op]).unwrap();
        patched_text(&plan, file).to_string()
    };
    let t = one(
        PatchOp::RenameParam { symbol: "f".into(), param: "a".into(), to: "b".into() },
        0,
    );
    assert!(t.contains("fn f(b: i32) -> i32 { return b; }"), "{t}");
    let t = one(
        PatchOp::SetParamType { symbol: "f".into(), param: "a".into(), ty: "i64".into() },
        0,
    );
    assert!(t.contains("fn f(a: i64)"), "{t}");
    let t = one(PatchOp::SetRetType { symbol: "f".into(), ty: Some("i64".into()) }, 0);
    assert!(t.contains("fn f(a: i32) -> i64 {"), "{t}");
    let t = one(
        PatchOp::AddUse { module: None, path: "dep::g".into(), alias: Some("h".into()) },
        0,
    );
    assert!(t.contains("use dep::g as h;"), "{t}");
    let t = one(PatchOp::RemoveUse { module: None, path: "dep".into(), alias: None }, 0);
    assert!(!t.contains("use dep"), "{t}");
    let t = one(
        PatchOp::AddField { symbol: "dep::V".into(), field: "y".into(), ty: "i32".into() },
        1,
    );
    assert!(t.contains("y: i32;"), "{t}");
    let t = one(
        PatchOp::SetFieldType { symbol: "dep::V".into(), field: "x".into(), ty: "i64".into() },
        1,
    );
    assert!(t.contains("x: i64;"), "{t}");
    let t = one(PatchOp::RemoveField { symbol: "dep::V".into(), field: "x".into() }, 1);
    assert!(!t.contains("x: i32"), "{t}");
    let t = one(
        PatchOp::RenameField { symbol: "dep::V".into(), field: "x".into(), to: "z".into() },
        1,
    );
    assert!(t.contains("z: i32;"), "{t}");
}

// ---------- artifacts across edits and sessions ----------

const DIVERSE: &str = "\
data P { x: i32; y: i32; }
fn read(p: P) -> i32 { return p.x + p.y; }
fn bump(mut p: P) { p.x = p.x + 1; }
fn keep(p: P) -> P { return p; }
fn main() -> i32 { let mut q = P { x: 1, y: 2 }; bump(q); let r = keep(q); return read(r); }";

/// Secondary labels rebase with the same base: the "value moved
/// here" label must land on the shifted move site.
#[test]
fn diagnostic_labels_track_shifted_offsets() {
    let src = "data P { x: i32; } fn main() -> i32 { let q = P { x: 1 }; let r = q; return q.x + r.x; }";
    let mut db = Db::new(1);
    let f = db.add_source(src);
    let labels = |c: &Compiled| -> Vec<Span> {
        c.diags
            .iter()
            .iter()
            .flat_map(|d| d.labels.iter().map(|l| l.span))
            .collect()
    };
    let before = labels(&db.check(f));
    assert!(!before.is_empty());
    assert_eq!(&src[before[0].start as usize..before[0].end as usize], "q");
    let prefix = "// pad pad\n";
    db.set_source(f, format!("{prefix}{src}"));
    let after = labels(&db.check(f));
    let bump = prefix.len() as u32;
    let expected: Vec<Span> = before.iter().map(|s| s.abs(bump)).collect();
    assert_eq!(expected, after);
}

/// Two independent sessions over the same source produce the same
/// artifacts: no iteration order leaks into the output.
#[test]
fn artifacts_are_byte_deterministic_across_sessions() {
    let compile_once = |id: u64| {
        let mut db = Db::new(id);
        let f = db.add_source(DIVERSE);
        db.compile(f)
    };
    let a = compile_once(1);
    let b = compile_once(2);
    assert_eq!(format!("{:?}", a.snap.asts), format!("{:?}", b.snap.asts), "AST");
    assert_eq!(format!("{:?}", a.snap.bodies), format!("{:?}", b.snap.bodies), "HIR");
    assert_eq!(
        format!("{:?}", a.snap.scope.symbols),
        format!("{:?}", b.snap.scope.symbols),
        "HIR"
    );
    assert_eq!(format!("{:?}", a.diags), format!("{:?}", b.diags), "diagnostics");
}

/// An edit followed by a revert to byte-identical text re-runs
/// exactly the edited body's chain, and the result equals the first.
#[test]
fn revert_produces_from_scratch_artifacts() {
    let mut db = Db::new(1);
    let f = db.add_source(DIVERSE);
    let graph = QueryKey::Graph(FileId::new(f));
    db.compile(f);
    let original = db.engine.value(graph);
    assert!(original.is_some());
    db.set_source(f, DIVERSE.replace("x + p.y", "x * p.y"));
    assert!(db.compile(f).is_valid());
    db.set_source(f, DIVERSE);
    assert!(db.compile(f).is_valid());
    // Bounded invalidation: only the edited def's chain re-ran.
    assert_eq!(evald_defs(&db, hir_key), ["read"]);
    assert_eq!(evald_defs(&db, mir_key), ["read"]);
    // And the reverted graph is the first one.
    db.compile(f);
    assert_eq!(db.engine.value(graph), original);
}

// ---------- commands over a workspace ----------

const DOUBLE: &str = "fn double(x: i32) -> i32 { return x * 2; }";
const DOUBLE_NORM: &str = "fn double(x: i32) -> i32 { return x * 2; }\n\
                         fn norm(x: i32) -> i32 { return x; }";
const CALLER: &str = "use math; fn main() -> i32 { return math::double(21); }";

/// A root that calls into `math`, and the files as commands show them.
fn fixture(math: &str) -> (Db, Vec<SourceFile>) {
    let db = ws(&[("main", CALLER), ("math", math)]);
    (db, fixture_files(CALLER, math))
}

fn fixture_files(root: &str, math: &str) -> Vec<SourceFile> {
    [("/ws/main.ixa", root), ("/ws/math.ixa", math)]
        .into_iter()
        .map(|(p, t)| SourceFile {
            name: p.to_string(),
            path: Some(fs_path(p)),
            text: t.to_string(),
        })
        .collect()
}

fn document(a: Answer) -> (Json, u8) {
    match a {
        Answer::Document(d, code) => (d, code),
        Answer::Text(_) => panic!("a document"),
    }
}

fn run_document(db: &mut Db, files: &Vec<SourceFile>) -> Json {
    let c = db.compile(0);
    let shown = run(&c, "main");
    let value = RunValue::Int(shown.parse().unwrap());
    let outcome = RunOutcome::Value(value, shown);
    document(run_command(&c.snap, "main", &outcome, &c.diags, files, None, true)).0
}

#[test]
fn check_error_still_one_document() {
    let src = "data P { x: i32; } fn main() -> i32 { let q = P { x: 1 }; let r = q; return q.x + r.x; }";
    let mut db = ws(&[("main", src)]);
    let c = db.check(0);
    let files = vec![SourceFile { name: "err".to_string(), path: None, text: src.to_string() }];
    let (d, code) = document(check("err", &c.diags, &files, None, true));
    assert_eq!(at_path(&d, &["success"]), &Json::Bool(false));
    assert!(codes(&d).contains(&"E_USE_AFTER_MOVE"), "{:?}", codes(&d));
    assert_eq!(code, 1);
}

#[test]
fn workspace_qualified_call_runs() {
    let (mut db, files) = fixture(DOUBLE);
    let d = run_document(&mut db, &files);
    assert_eq!(at_path(&d, &["success"]), &Json::Bool(true));
    assert_eq!(at_path(&d, &["result", "value"]), &Json::Uint(42));
}

#[test]
fn rename_preview_lists_edits_and_writes_nothing() {
    let (db, files) = fixture(DOUBLE_NORM);
    let plan = db.plan_rename(0, "math::double", "twice").unwrap();
    let (d, code) = document(rename_previewed(&plan, &files, true));
    assert_eq!(at_path(&d, &["success"]), &Json::Bool(true));
    assert_eq!(at_path(&d, &["result", "applied"]), &Json::Bool(false));
    let edits = items(at_path(&d, &["result", "edits"]));
    assert_eq!(edits.len(), 2, "{edits:?}");
    assert!(edits.iter().any(|e| e.get_str("file").unwrap().contains("math.ixa")));
    assert!(edits.iter().any(|e| e.get_str("file").unwrap().contains("main.ixa")));
    assert!(edits.iter().all(|e| e.get_str("replace") == Some("twice")));
    assert_eq!(code, 0);
    // Preview never mutates.
    assert_eq!(sources(&db, 2), [CALLER, DOUBLE_NORM]);
}

#[test]
fn rename_apply_writes_all_files_and_program_still_runs() {
    let (mut db, files) = fixture(DOUBLE);
    let plan = db.plan_rename(0, "math::double", "twice").unwrap();
    let report = db.apply_rename(&plan).unwrap();
    let c = db.check(0);
    let (d, _) = document(rename_done(&plan, &report, &c.diags, &files, true));
    assert_eq!(at_path(&d, &["success"]), &Json::Bool(true));
    assert_eq!(at_path(&d, &["result", "applied"]), &Json::Bool(true));
    // What goes to disk replaces exactly what was read.
    let tx = rename_output::persist(&plan, &files, "ontixa-tx-1-0".to_string()).unwrap();
    let after = |p: &str| {
        let f = tx.files().iter().find(|f| f.path.display() == p).unwrap();
        String::from_utf8(f.after.clone()).unwrap()
    };
    assert!(after("/ws/math.ixa").contains("fn twice("));
    assert!(after("/ws/main.ixa").contains("math::twice(21)"));
    assert!(tx.files().iter().any(|f| f.before == DOUBLE.as_bytes()));
    // The renamed workspace still compiles and runs.
    let d = run_document(&mut db, &files);
    assert_eq!(at_path(&d, &["result", "value"]), &Json::Uint(42));
}

#[test]
fn rename_rejections_emit_codes_and_write_nothing() {
    let (db, files) = fixture(DOUBLE_NORM);
    let reject = |symbol: &str, to: &str| {
        let e = db.plan_rename(0, symbol, to).unwrap_err();
        let (d, code) = document(rename_refused(&e, &files, true));
        assert_eq!(at_path(&d, &["success"]), &Json::Bool(false));
        assert_eq!(code, 1);
        codes(&d).into_iter().map(String::from).collect::<Vec<String>>()
    };
    let conflict = reject("math::double", "norm");
    assert!(conflict.iter().any(|c| c == "E_NAME_CONFLICT"), "{conflict:?}");
    let invalid = reject("math::double", "123x");
    assert!(invalid.iter().any(|c| c == "E_INVALID_NAME"), "{invalid:?}");
    let unknown = reject("math::nope", "x");
    assert!(unknown.iter().any(|c| c == "E_UNKNOWN_SYMBOL"), "{unknown:?}");
    // Rejected plans never touch a source.
    assert_eq!(sources(&db, 2), [CALLER, DOUBLE_NORM]);
}

/// A pending transaction journal blocks any new write to the
/// workspace, and recovery reports a corrupt one as a conflict.
#[test]
fn rename_apply_io_failure_leaves_no_partial_writes() {
    let (mut db, files) = fixture(DOUBLE);
    let plan = db.plan_rename(0, "math::double", "twice").unwrap();
    db.apply_rename(&plan).unwrap();
    let journal = fs_path("/ws/.ontixa-tx-dead.journal");
    let mut tx = persist_sources(plan.new_sources(), &files, "ontixa-tx-1-0".to_string()).unwrap();
    assert_eq!(tx.action(), TxAction::ListJournals);
    tx.advance(Event::Found(vec![journal.copy()]));
    // Nothing was written: the run is over before its first write.
    assert_eq!(tx.action(), TxAction::Stop);
    let e = tx.into_outcome().unwrap_err();
    let Reply::Document(d, code) = emit_failure(CompileFailure::Io(e.to_text()), "rename", true)
    else {
        panic!("a document")
    };
    assert_eq!(at_path(&d, &["success"]), &Json::Bool(false));
    assert_eq!(at_path(&d, &["error", "kind"]), &text("io"));
    assert!(at_path(&d, &["error", "message"]).as_str().unwrap().contains("pending"));
    assert_eq!(code, 2);

    let outcomes = vec![recover_one(&journal, None).into_outcome()];
    let (d, code) = document(recover(&outcomes, true));
    assert_eq!(code, 1);
    assert_eq!(at_path(&d, &["schema"]), &Json::Uint(1));
    assert_eq!(at_path(&d, &["success"]), &Json::Bool(false));
    assert_eq!(at_path(&d, &["error", "kind"]), &text("conflict"));
    assert_eq!(
        at_path(&d, &["error", "message"]),
        &text("recovery has unresolved conflicts")
    );
    assert_eq!(at_path(&d, &["result", "outcomes", "0", "status"]), &text("conflict"));
    match recover(&outcomes, false) {
        Answer::Text(o) => assert_eq!(o.code, 1),
        Answer::Document(..) => panic!("text"),
    }

    // Without a journal, recovery is a clean no-op.
    let clean = ontixa::recovery::recover_all(Vec::new());
    let (d, code) = document(recover(&clean, true));
    assert_eq!(code, 0);
    assert_eq!(at_path(&d, &["success"]), &Json::Bool(true));
    assert_eq!(at_path(&d, &["error"]), &Json::Null);
    assert_eq!(at_path(&d, &["result", "outcomes", "0", "status"]), &text("clean"));
}

// ---------- roots and dependencies ----------

#[test]
fn a_demand_claims_the_files_of_its_scope() {
    let f = FileId::new;
    let mut roots = Roots::new();
    assert_eq!(roots.root_of(f(2)), f(2));
    roots.claim(f(0), &vec![f(0), f(2)]);
    assert_eq!(roots.root_of(f(2)), f(0));
    roots.reroot(f(1), &vec![f(2)]);
    assert_eq!(roots.root_of(f(1)), f(1));
    assert_eq!(roots.root_of(f(2)), f(1));
    assert_eq!(roots.root_of(f(0)), f(0));
}

#[test]
fn item_bases_are_the_starts_of_items() {
    let c = compile_texts(&[("main".to_string(), THREE_FN.to_string())], 0);
    let bases = c.snap.item_bases();
    let starts: Vec<u32> = c.snap.asts[0].items.iter().map(|i| i.span().start).collect();
    assert_eq!(bases, starts);
    assert_eq!(bases.len(), 4);
}

#[test]
fn an_evaluation_records_what_it_demands() {
    let mut e = Engine::new();
    let f = FileId::new(0);
    e.open_revision();
    e.write_input(QueryKey::Source(f), 7);
    e.open(QueryKey::Parse(f));
    while !matches!(e.step(), Action::Evaluate(_)) {}
    assert!(e.deps_so_far().is_empty());
    e.demand(QueryKey::Source(f));
    while !matches!(e.step(), Action::Resume(..)) {}
    assert_eq!(e.deps_so_far(), [QueryKey::Source(f)]);
    e.finish(8, Vec::new(), 1);
    while !matches!(e.step(), Action::Ready(..)) {}
    assert_eq!(e.value(QueryKey::Parse(f)), Some(8));
}

/// The daemon `patch` op has the guards of `rename`: a preview carries
/// the planned revision, an apply requires it back.
#[test]
fn daemon_patch_previews_applies_and_guards_stale() {
    let p = "/ws/main.ixa";
    let mut s = Server::new(&[(p, CALLER), ("/ws/math.ixa", DOUBLE)]);
    let ops = || {
        Json::Array(vec![object(vec![
            ("op", text("replace_body")),
            ("symbol", text("math::double")),
            ("body", text("{ return x + x; }")),
        ])])
    };
    let patch = |ops: Json, apply: bool, rev: u64| {
        object(vec![
            ("op", text("patch")),
            ("path", text(p)),
            ("ops", ops),
            ("apply", Json::Bool(apply)),
            ("revision", Json::Uint(rev)),
        ])
    };
    let d = s.handle(&patch(ops(), false, 0));
    assert_eq!(at_path(&d, &["command"]), &text("patch"));
    assert_eq!(at_path(&d, &["success"]), &Json::Bool(true));
    assert_eq!(at_path(&d, &["result", "applied"]), &Json::Bool(false));
    let Json::Uint(rev) = at_path(&d, &["result", "revision"]) else {
        panic!("a revision")
    };
    let rev = *rev;

    let stale = s.handle(&patch(ops(), true, rev + 9));
    assert_eq!(codes(&stale), ["E_STALE_REVISION"]);
    let bad = s.handle(&patch(text("no list"), true, rev));
    assert_eq!(codes(&bad), ["E_MALFORMED_PATCH"]);
    let none = s.handle(&patch(Json::Array(Vec::new()), false, rev));
    assert_eq!(at_path(&none, &["success"]), &Json::Bool(false));

    let d = s.handle(&patch(ops(), true, rev));
    assert_eq!(at_path(&d, &["success"]), &Json::Bool(true));
    assert_eq!(at_path(&d, &["result", "applied"]), &Json::Bool(true));
    assert_eq!(at_path(&d, &["result", "ops_applied"]), &Json::Uint(1));
    let news = items(at_path(&d, &["result", "new_sources"]));
    assert_eq!(news.len(), 1);
    assert!(news[0].get_str("text").unwrap().contains("return x + x;"));
    // The revision moved on: the same plan is stale now.
    let again = s.handle(&patch(ops(), true, rev));
    assert_eq!(codes(&again), ["E_STALE_REVISION"]);
}

#[test]
fn a_request_ends_the_session_is_answered_or_takes_work() {
    let mut d = Daemon::new(1);
    let ask = |name: &str| object(vec![("op", text(name)), ("path", text("a.ixa"))]);
    assert!(matches!(dispatch(&mut d, &ask("shutdown"), 2), Step::Stop));
    let Step::Reply(j) = dispatch(&mut d, &ask("dance"), 2) else {
        panic!("an answer")
    };
    assert_eq!(at_path(&j, &["error", "message"]), &text("unknown op `dance`"));
    let Step::Work(Request::Check { path }) = dispatch(&mut d, &ask("check"), 2) else {
        panic!("work")
    };
    assert_eq!(path, "a.ixa");
    d.poison();
    assert!(matches!(dispatch(&mut d, &ask("check"), 2), Step::Reply(_)));
    assert!(matches!(dispatch(&mut d, &ask("shutdown"), 2), Step::Stop));
    assert!(matches!(dispatch(&mut d, &ask("open"), 2), Step::Work(Request::Open { .. })));
    assert!(matches!(dispatch(&mut d, &ask("check"), 2), Step::Work(_)));
}

// ---------- plans that are only looked at ----------

fn extra_def() -> PatchOp {
    PatchOp::AddDef {
        module: Some("dep".to_string()),
        text: "fn extra() -> i32 { return 1; }".to_string(),
    }
}

/// A plan that is only looked at changes nothing; the same plan is then
/// applied, and only once.
#[test]
fn a_previewed_plan_changes_nothing() {
    let mut db = ws(&[("main", MAIN), ("dep", DEP)]);
    let before = sources(&db, 2);
    let revision = db.revision();
    let plan = db.plan_rename(0, "dep::double", "twice").unwrap();
    assert!(settle_rename(&mut db.session, &plan, false).is_none());
    assert_eq!((sources(&db, 2), db.revision()), (before.clone(), revision));
    match settle_rename(&mut db.session, &plan, true) {
        Some(Ok(r)) => assert_eq!((r.revision, r.diags.error_count()), (revision + 1, 0)),
        other => panic!("expected a report, got {other:?}"),
    }
    assert!(db.source(1).contains("fn twice"));
    assert!(matches!(
        settle_rename(&mut db.session, &plan, true),
        Some(Err(RenameError::Stale { .. }))
    ));

    let mut db = ws(&[("main", MAIN), ("dep", DEP)]);
    let ops = vec![extra_def()];
    let mut far = ws_as(2, &[("dep", DEP)]);
    let plan = db.plan_patch(0, &ops).unwrap();
    let held = sources(&far, 1);
    assert!(matches!(far.apply_patch(&plan), Err(PatchError::PlanMismatch(_))));
    assert_eq!(sources(&far, 1), held);
    assert!(settle_patch(&mut db.session, &plan, false).is_none());
    assert_eq!(sources(&db, 2), before);
    assert!(matches!(settle_patch(&mut db.session, &plan, true), Some(Ok(_))));
    assert!(db.source(1).contains("fn extra"));
    assert!(matches!(
        settle_patch(&mut db.session, &plan, true),
        Some(Err(PatchError::Stale { .. }))
    ));
}

/// The same of a daemon's session.
#[test]
fn a_daemon_previews_without_applying() {
    let mut d = Daemon::new(9);
    let db = ws(&[("main", MAIN), ("dep", DEP)]);
    let plan = db.plan_rename(0, "dep::double", "twice").unwrap();
    let patch = db.plan_patch(0, &[extra_def()]).unwrap();
    assert!(d.settle_rename(&plan, false).is_none());
    assert!(d.settle_patch(&patch, false).is_none());
    assert!(matches!(d.settle_rename(&plan, true), Some(Err(RenameError::PlanMismatch(_)))));
    assert!(matches!(d.settle_patch(&patch, true), Some(Err(PatchError::PlanMismatch(_)))));
    assert_eq!(d.revision(), 0);
}

// ---------- scopes ----------

/// Scopes are compared by everything they hold.
#[test]
fn scopes_compare_by_content() {
    let texts = [
        "fn f(p: i32) -> i32 { return p + 1; }\ndata P { x: i32 }",
        "fn f(p: i32) -> i32 { return p + 2; }\ndata P { x: i32 }",
        "fn f(p: i64) -> i32 { return p + 1; }\ndata P { x: i32 }",
        "fn f(p: i32) -> i32 { return p + 1; }\ndata P { y: i32 }",
        "fn g(p: i32) -> i32 { return p + 1; }\ndata P { x: i32 }",
        "fn f(p: i32) -> i32 { return p + 1; }\ndata P { A, B }",
        "use m;\nfn f(p: i32) -> i32 { return p + 1; }\ndata P { x: i32 }",
    ];
    let mut interner = Interner::new();
    let mut scopes: Vec<ModuleScope> = Vec::new();
    for text in texts {
        let (ast, _) = parse_ast(text);
        let (m, _) = parse_ast("fn h() -> i32 { return 1; }");
        let ws = vec![
            WorkspaceFile { file: FileId::new(0), module: "main", ast: &ast },
            WorkspaceFile { file: FileId::new(1), module: "m", ast: &m },
        ];
        let mut ds = Diagnostics::new();
        scopes.push(resolve_workspace(FileId::new(0), &ws, &mut interner, &mut ds));
    }
    for (i, a) in scopes.iter().enumerate() {
        for (j, b) in scopes.iter().enumerate() {
            let alike = i == j || (i < 2 && j < 2);
            assert_eq!(a.same(b), alike, "{i} {j}");
        }
    }
}

/// A signature knows fewer builtin names than a body.
#[test]
fn signatures_know_nine_builtins() {
    for ty in ["bool", "i32", "i64", "u32", "u64", "f32", "f64", "str", "unit"] {
        let c = compile_texts(&[("main".into(), format!("fn f(p: {ty}) {{ }}"))], 0);
        let unknown = c.diags.iter().iter().any(|d| d.code == Code::UnknownType);
        assert!(!unknown, "{ty}");
    }
    for ty in ["i8", "i16", "isize", "u8", "u16", "usize", "char"] {
        let c = compile_texts(&[("main".into(), format!("fn f(p: {ty}) {{ }}"))], 0);
        let unknown = c.diags.iter().iter().any(|d| d.code == Code::UnknownType);
        assert!(unknown, "{ty}");
    }
    let c = compile_texts(&[("main".into(), "fn f() { let c: char = 'x'; }".into())], 0);
    assert!(!c.diags.iter().iter().any(|d| d.code == Code::UnknownType));
}

const SHADOWED: &str = "fn one(x: i32) -> i32 {\n    return x;\n}\n\
    fn two(a: i32, b: i32) -> i32 {\n    let mut c = a;\n    c = b;\n    let a = c;\n    \
    return one(a);\n}\n";

/// Every token that stands for a local covers its name, and the first
/// locals are the parameters.
#[test]
fn tokens_of_locals_cover_their_names() {
    let snap = compile_texts(&[("main".to_string(), SHADOWED.to_string())], 0).snap;
    let mut seen = Vec::new();
    for (d, body) in snap.bodies.iter().enumerate() {
        let b = body.as_ref().unwrap();
        let base = snap.asts[0].items[snap.scope.defs[d].item].span().start;
        let text = |s: Span| &SHADOWED[(s.start + base) as usize..(s.end + base) as usize];
        let name = |i: usize| snap.interner.resolve(b.local_symbols[i].name);
        for (i, l) in b.local_symbols.iter().enumerate() {
            assert_eq!(text(l.span), name(i));
            seen.push(name(i).to_string());
        }
        for e in &b.exprs {
            if let HirExprKind::Var(SymbolId::Local(i)) = e.kind {
                assert_eq!(text(e.span), name(i));
            }
        }
        let sig = snap.scope.fn_sig(DefId::new(d)).unwrap();
        for (i, p) in sig.params.iter().enumerate() {
            assert_eq!(p.symbol, SymbolId::Local(i));
            assert_eq!(snap.interner.resolve(p.name), name(i));
        }
    }
    assert_eq!(seen, ["x", "a", "b", "c", "a"]);
}

/// Rebasing twice is rebasing once by the sum.
#[test]
fn rebasing_twice_is_rebasing_by_the_sum() {
    let (ast, _) = parse_ast(SHADOWED);
    let it = &ast.items[1];
    let twice = rebase_item(&rebase_item(it, 5), 12);
    assert_eq!(format!("{twice:?}"), format!("{:?}", rebase_item(it, 17)));
    assert_eq!(twice.span().start, it.span().start - 17);
}
