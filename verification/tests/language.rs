//! Lowering and resolution of source texts: syntax tree to AST to
//! resolved definitions and bodies.

use ontixa::ast::{AstModule, BinOp, Expr, Item, Literal, Pattern, Stmt, TypeExpr, UnOp};
use ontixa::ast_module::lower_module;
use ontixa::code::Code;
use ontixa::diagnostic::{Diagnostic, Diagnostics};
use ontixa::hir::{ElemRef, HirExprKind, HirModule, HirStmt, SymbolKind, TypeRef};
use ontixa::hir_build::lower_hir;
use ontixa::source::{DefId, Interner, Span};
use ontixa::syntax::{SyntaxElement, SyntaxKind, SyntaxNode, SyntaxToken};

// ---------- a small parser for test sources ----------

#[derive(Clone)]
struct Tok {
    kind: SyntaxKind,
    text: String,
    start: usize,
    end: usize,
}

fn lex(src: &str) -> (Vec<Tok>, bool) {
    let b: Vec<char> = src.chars().collect();
    let mut at: Vec<usize> = Vec::new();
    let mut n = 0;
    for c in &b {
        at.push(n);
        n += c.len_utf8();
    }
    at.push(n);
    let mut out = Vec::new();
    let mut clean = true;
    let mut i = 0;
    while i < b.len() {
        let s = i;
        let c = b[i];
        let kind = if c.is_whitespace() {
            while i < b.len() && b[i].is_whitespace() {
                i += 1;
            }
            SyntaxKind::Whitespace
        } else if c == '/' && i + 1 < b.len() && b[i + 1] == '/' {
            while i < b.len() && b[i] != '\n' {
                i += 1;
            }
            SyntaxKind::Comment
        } else if c == '/' && i + 1 < b.len() && b[i + 1] == '*' {
            i += 2;
            while i + 1 < b.len() && !(b[i] == '*' && b[i + 1] == '/') {
                i += 1;
            }
            i = (i + 2).min(b.len());
            SyntaxKind::Comment
        } else if c.is_alphabetic() || c == '_' {
            while i < b.len() && (b[i].is_alphanumeric() || b[i] == '_') {
                i += 1;
            }
            let w: String = b[s..i].iter().collect();
            match w.as_str() {
                "true" => SyntaxKind::TrueKw,
                "false" => SyntaxKind::FalseKw,
                "mut" => SyntaxKind::MutKw,
                "fn" | "data" | "let" | "return" | "if" | "else" | "for" | "in" | "match"
                | "use" | "as" => SyntaxKind::Keyword,
                _ => SyntaxKind::Ident,
            }
        } else if c.is_ascii_digit() {
            while i < b.len() && (b[i].is_ascii_digit() || b[i] == '_') {
                i += 1;
            }
            if i + 1 < b.len() && b[i] == '.' && b[i + 1].is_ascii_digit() {
                i += 1;
                while i < b.len() && b[i].is_ascii_digit() {
                    i += 1;
                }
                SyntaxKind::FloatNumber
            } else {
                SyntaxKind::IntNumber
            }
        } else if c == '"' {
            i += 1;
            while i < b.len() && b[i] != '"' {
                if b[i] == '\\' {
                    i += 1;
                }
                i += 1;
            }
            i = (i + 1).min(b.len());
            SyntaxKind::Str
        } else {
            let two: String = b[i..(i + 2).min(b.len())].iter().collect();
            let (k, len) = match two.as_str() {
                "==" => (SyntaxKind::Eq2, 2),
                "!=" => (SyntaxKind::Neq, 2),
                "<=" => (SyntaxKind::Le, 2),
                ">=" => (SyntaxKind::Ge, 2),
                "&&" => (SyntaxKind::And2, 2),
                "||" => (SyntaxKind::Or2, 2),
                ".." => (SyntaxKind::Dot2, 2),
                "::" | "->" | "=>" => (SyntaxKind::Punct, 2),
                _ => match c {
                    '+' => (SyntaxKind::Plus, 1),
                    '-' => (SyntaxKind::Minus, 1),
                    '*' => (SyntaxKind::Star, 1),
                    '/' => (SyntaxKind::Slash, 1),
                    '%' => (SyntaxKind::Percent, 1),
                    '!' => (SyntaxKind::Not, 1),
                    '=' => (SyntaxKind::Eq, 1),
                    '<' => (SyntaxKind::Lt, 1),
                    '>' => (SyntaxKind::Gt, 1),
                    ';' => (SyntaxKind::Semicolon, 1),
                    '(' | ')' | '{' | '}' | '[' | ']' | ',' | ':' | '.' => (SyntaxKind::Punct, 1),
                    _ => {
                        clean = false;
                        (SyntaxKind::Punct, 1)
                    }
                },
            };
            i += len;
            k
        };
        out.push(Tok {
            kind,
            text: b[s..i].iter().collect(),
            start: at[s],
            end: at[i],
        });
    }
    (out, clean)
}

fn trivia(k: SyntaxKind) -> bool {
    k == SyntaxKind::Whitespace || k == SyntaxKind::Comment
}

struct Parser {
    toks: Vec<Tok>,
    pos: usize,
    diags: Diagnostics,
    /// Whether `x {` may start a record literal here.
    records: bool,
}

type Kids = Vec<SyntaxElement>;

impl Parser {
    fn peek_at(&self, mut k: usize) -> Option<&Tok> {
        let mut i = self.pos;
        loop {
            while i < self.toks.len() && trivia(self.toks[i].kind) {
                i += 1;
            }
            if k == 0 || i >= self.toks.len() {
                return self.toks.get(i);
            }
            k -= 1;
            i += 1;
        }
    }

    fn at(&self, text: &str) -> bool {
        self.peek_at(0).is_some_and(|t| t.text == text && t.kind != SyntaxKind::Str)
    }

    fn at_kind(&self, kind: SyntaxKind) -> bool {
        self.peek_at(0).is_some_and(|t| t.kind == kind)
    }

    fn bump(&mut self, kids: &mut Kids) {
        loop {
            if self.pos >= self.toks.len() {
                return;
            }
            let t = self.toks[self.pos].clone();
            self.pos += 1;
            kids.push(SyntaxElement::Token(SyntaxToken {
                kind: t.kind,
                text: t.text,
                span: Span::new(t.start as u32, t.end as u32),
            }));
            if !trivia(t.kind) {
                return;
            }
        }
    }

    fn error(&mut self, what: &str) {
        let at = match self.peek_at(0) {
            Some(t) => t.start,
            None => self.toks.last().map(|t| t.end).unwrap_or(0),
        };
        self.diags.push(
            Diagnostic::error(Code::Parse, format!("expected {what}")).primary(Span::empty(at as u32)),
        );
    }

    fn expect(&mut self, kids: &mut Kids, text: &str) {
        if self.at(text) {
            self.bump(kids);
        } else {
            self.error(text);
        }
    }

    fn node(&self, kind: SyntaxKind, children: Kids) -> SyntaxNode {
        let start = children.first().map(|e| self.span_of(e).start).unwrap_or(0);
        let end = children.last().map(|e| self.span_of(e).end).unwrap_or(0);
        SyntaxNode { kind, children, span: Span::new(start, end) }
    }

    fn span_of(&self, e: &SyntaxElement) -> Span {
        match e {
            SyntaxElement::Node(n) => n.span,
            SyntaxElement::Token(t) => t.span,
        }
    }

    fn push(&self, kids: &mut Kids, kind: SyntaxKind, inner: Kids) {
        let n = self.node(kind, inner);
        kids.push(SyntaxElement::Node(n));
    }

    fn name(&mut self, kids: &mut Kids, kind: SyntaxKind) {
        let mut inner = Kids::new();
        if self.at_kind(SyntaxKind::Ident) {
            self.bump(&mut inner);
        } else {
            self.error("a name");
        }
        self.push(kids, kind, inner);
    }

    fn file(&mut self) -> SyntaxNode {
        let mut kids = Kids::new();
        while self.peek_at(0).is_some() {
            let item = if self.at("use") {
                self.use_decl()
            } else if self.at("data") {
                self.data_decl()
            } else if self.at("fn") {
                self.fn_decl()
            } else {
                self.error("an item");
                let mut bad = Kids::new();
                self.bump(&mut bad);
                self.node(SyntaxKind::Error, bad)
            };
            kids.push(SyntaxElement::Node(item));
        }
        while self.pos < self.toks.len() {
            self.bump(&mut kids);
        }
        self.node(SyntaxKind::SourceFile, kids)
    }

    fn use_decl(&mut self) -> SyntaxNode {
        let mut k = Kids::new();
        self.bump(&mut k);
        self.name(&mut k, SyntaxKind::NameRef);
        while self.at("::") {
            self.bump(&mut k);
            self.name(&mut k, SyntaxKind::NameRef);
        }
        if self.at("as") {
            self.bump(&mut k);
            self.name(&mut k, SyntaxKind::Name);
        }
        self.expect(&mut k, ";");
        self.node(SyntaxKind::UseDecl, k)
    }

    fn type_ref(&mut self, kids: &mut Kids) {
        let mut k = Kids::new();
        if self.at("[") {
            self.bump(&mut k);
            self.type_ref(&mut k);
            self.expect(&mut k, "]");
        } else {
            self.name(&mut k, SyntaxKind::Name);
            while self.at("::") {
                self.bump(&mut k);
                self.name(&mut k, SyntaxKind::Name);
            }
        }
        self.push(kids, SyntaxKind::TypeRef, k);
    }

    fn data_decl(&mut self) -> SyntaxNode {
        let mut k = Kids::new();
        self.bump(&mut k);
        self.name(&mut k, SyntaxKind::Name);
        self.expect(&mut k, "{");
        while self.peek_at(0).is_some() && !self.at("}") {
            let before = self.pos;
            let mut f = Kids::new();
            self.name(&mut f, SyntaxKind::Name);
            let kind = if self.at(":") {
                self.bump(&mut f);
                self.type_ref(&mut f);
                SyntaxKind::Field
            } else {
                if self.at("(") {
                    self.bump(&mut f);
                    while self.peek_at(0).is_some() && !self.at(")") {
                        self.type_ref(&mut f);
                        if self.at(",") {
                            self.bump(&mut f);
                        } else {
                            break;
                        }
                    }
                    self.expect(&mut f, ")");
                }
                SyntaxKind::Variant
            };
            self.expect(&mut f, ";");
            self.push(&mut k, kind, f);
            if self.pos == before {
                self.bump(&mut k);
            }
        }
        self.expect(&mut k, "}");
        self.node(SyntaxKind::DataDecl, k)
    }

    fn fn_decl(&mut self) -> SyntaxNode {
        let mut k = Kids::new();
        self.bump(&mut k);
        self.name(&mut k, SyntaxKind::Name);
        let mut ps = Kids::new();
        self.expect(&mut ps, "(");
        while self.peek_at(0).is_some() && !self.at(")") {
            let before = self.pos;
            let mut p = Kids::new();
            if self.at("mut") {
                self.bump(&mut p);
            }
            self.name(&mut p, SyntaxKind::Name);
            self.expect(&mut p, ":");
            self.type_ref(&mut p);
            self.push(&mut ps, SyntaxKind::Param, p);
            if self.at(",") {
                self.bump(&mut ps);
            }
            if self.pos == before {
                self.bump(&mut ps);
            }
        }
        self.expect(&mut ps, ")");
        self.push(&mut k, SyntaxKind::ParamList, ps);
        if self.at("->") {
            let mut r = Kids::new();
            self.bump(&mut r);
            self.type_ref(&mut r);
            self.push(&mut k, SyntaxKind::RetType, r);
        }
        if self.at("{") {
            let b = self.block();
            k.push(SyntaxElement::Node(b));
        } else {
            self.error("a body");
        }
        self.node(SyntaxKind::FnDecl, k)
    }

    fn block(&mut self) -> SyntaxNode {
        let outer = self.records;
        self.records = true;
        let mut k = Kids::new();
        self.expect(&mut k, "{");
        while self.peek_at(0).is_some() && !self.at("}") {
            let before = self.pos;
            let s = self.stmt();
            k.push(SyntaxElement::Node(s));
            if self.pos == before {
                self.bump(&mut k);
            }
        }
        self.expect(&mut k, "}");
        self.records = outer;
        self.node(SyntaxKind::Block, k)
    }

    fn stmt(&mut self) -> SyntaxNode {
        let mut k = Kids::new();
        if self.at("let") {
            self.bump(&mut k);
            if self.at("mut") {
                self.bump(&mut k);
            }
            self.name(&mut k, SyntaxKind::Name);
            if self.at(":") {
                self.bump(&mut k);
                self.type_ref(&mut k);
            }
            if self.at("=") {
                self.bump(&mut k);
                let e = self.expr(0);
                k.push(SyntaxElement::Node(e));
            }
            self.expect(&mut k, ";");
            return self.node(SyntaxKind::LetStmt, k);
        }
        if self.at("return") {
            self.bump(&mut k);
            if !self.at(";") {
                let e = self.expr(0);
                k.push(SyntaxElement::Node(e));
            }
            self.expect(&mut k, ";");
            return self.node(SyntaxKind::ReturnStmt, k);
        }
        let e = self.expr(0);
        let block_like = matches!(
            e.kind,
            SyntaxKind::IfExpr | SyntaxKind::ForExpr | SyntaxKind::MatchExpr | SyntaxKind::Block
        );
        k.push(SyntaxElement::Node(e));
        if self.at("=") {
            self.bump(&mut k);
            let v = self.expr(0);
            k.push(SyntaxElement::Node(v));
            self.expect(&mut k, ";");
            return self.node(SyntaxKind::AssignStmt, k);
        }
        if self.at(";") {
            self.bump(&mut k);
        } else if !block_like && !self.at("}") {
            self.error(";");
        }
        self.node(SyntaxKind::ExprStmt, k)
    }

    fn power(kind: SyntaxKind) -> Option<u8> {
        Some(match kind {
            SyntaxKind::Or2 => 1,
            SyntaxKind::And2 => 2,
            SyntaxKind::Eq2 | SyntaxKind::Neq => 3,
            SyntaxKind::Lt | SyntaxKind::Le | SyntaxKind::Gt | SyntaxKind::Ge => 4,
            SyntaxKind::Plus | SyntaxKind::Minus => 5,
            SyntaxKind::Star | SyntaxKind::Slash | SyntaxKind::Percent => 6,
            _ => return None,
        })
    }

    fn expr(&mut self, min: u8) -> SyntaxNode {
        let mut lhs = self.prefix();
        loop {
            let Some(p) = self.peek_at(0).and_then(|t| Self::power(t.kind)) else {
                return lhs;
            };
            if p <= min {
                return lhs;
            }
            let mut k = Kids::new();
            k.push(SyntaxElement::Node(lhs));
            self.bump(&mut k);
            let rhs = self.expr(p);
            k.push(SyntaxElement::Node(rhs));
            lhs = self.node(SyntaxKind::BinExpr, k);
        }
    }

    fn prefix(&mut self) -> SyntaxNode {
        if self.at("-") || self.at("!") {
            let mut k = Kids::new();
            self.bump(&mut k);
            let e = self.prefix();
            k.push(SyntaxElement::Node(e));
            return self.node(SyntaxKind::PrefixExpr, k);
        }
        let mut e = self.primary();
        loop {
            let mut k = Kids::new();
            if self.at("(") {
                k.push(SyntaxElement::Node(e));
                let mut args = Kids::new();
                self.bump(&mut args);
                self.list(&mut args, ")");
                self.push(&mut k, SyntaxKind::ArgList, args);
                e = self.node(SyntaxKind::CallExpr, k);
            } else if self.at(".") {
                k.push(SyntaxElement::Node(e));
                self.bump(&mut k);
                self.name(&mut k, SyntaxKind::NameRef);
                e = self.node(SyntaxKind::FieldExpr, k);
            } else if self.at("[") {
                k.push(SyntaxElement::Node(e));
                self.bump(&mut k);
                let outer = self.records;
                self.records = true;
                let inner = self.range_or_expr("]");
                k.push(SyntaxElement::Node(inner));
                self.records = outer;
                self.expect(&mut k, "]");
                e = self.node(SyntaxKind::IndexExpr, k);
            } else {
                return e;
            }
        }
    }

    fn list(&mut self, kids: &mut Kids, close: &str) {
        let outer = self.records;
        self.records = true;
        while self.peek_at(0).is_some() && !self.at(close) {
            let before = self.pos;
            let e = self.expr(0);
            kids.push(SyntaxElement::Node(e));
            if self.at(",") {
                self.bump(kids);
            }
            if self.pos == before {
                self.bump(kids);
            }
        }
        self.records = outer;
        self.expect(kids, close);
    }

    fn range_or_expr(&mut self, close: &str) -> SyntaxNode {
        let mut k = Kids::new();
        if !self.at("..") {
            let e = self.expr(0);
            if !self.at("..") {
                return e;
            }
            k.push(SyntaxElement::Node(e));
        }
        self.bump(&mut k);
        if !self.at(close) {
            let e = self.expr(0);
            k.push(SyntaxElement::Node(e));
        }
        self.node(SyntaxKind::Range, k)
    }

    fn guarded(&mut self) -> SyntaxNode {
        let outer = self.records;
        self.records = false;
        let e = self.range_or_expr("{");
        self.records = outer;
        e
    }

    fn primary(&mut self) -> SyntaxNode {
        let mut k = Kids::new();
        let Some(t) = self.peek_at(0).cloned() else {
            self.error("an expression");
            return self.node(SyntaxKind::Error, k);
        };
        match t.kind {
            SyntaxKind::IntNumber
            | SyntaxKind::FloatNumber
            | SyntaxKind::Str
            | SyntaxKind::TrueKw
            | SyntaxKind::FalseKw => {
                self.bump(&mut k);
                self.node(SyntaxKind::Literal, k)
            }
            SyntaxKind::Ident => self.path(),
            _ => match t.text.as_str() {
                "(" => {
                    self.bump(&mut k);
                    let outer = self.records;
                    self.records = true;
                    let e = self.expr(0);
                    self.records = outer;
                    k.push(SyntaxElement::Node(e));
                    self.expect(&mut k, ")");
                    self.node(SyntaxKind::ParenExpr, k)
                }
                "[" => {
                    self.bump(&mut k);
                    self.list(&mut k, "]");
                    self.node(SyntaxKind::ArrayExpr, k)
                }
                "{" => self.block(),
                "if" => {
                    self.bump(&mut k);
                    let c = self.guarded();
                    k.push(SyntaxElement::Node(c));
                    let b = self.block();
                    k.push(SyntaxElement::Node(b));
                    if self.at("else") {
                        self.bump(&mut k);
                        let e = if self.at("if") { self.primary() } else { self.block() };
                        k.push(SyntaxElement::Node(e));
                    }
                    self.node(SyntaxKind::IfExpr, k)
                }
                "for" => {
                    self.bump(&mut k);
                    if self.at("mut") {
                        self.bump(&mut k);
                    }
                    self.name(&mut k, SyntaxKind::Name);
                    self.expect(&mut k, "in");
                    let it = self.guarded();
                    k.push(SyntaxElement::Node(it));
                    let b = self.block();
                    k.push(SyntaxElement::Node(b));
                    self.node(SyntaxKind::ForExpr, k)
                }
                "match" => {
                    self.bump(&mut k);
                    let s = self.guarded();
                    k.push(SyntaxElement::Node(s));
                    let mut arms = Kids::new();
                    self.expect(&mut arms, "{");
                    while self.peek_at(0).is_some() && !self.at("}") {
                        let before = self.pos;
                        let mut a = Kids::new();
                        self.pattern(&mut a);
                        self.expect(&mut a, "=>");
                        let outer = self.records;
                        self.records = true;
                        let e = self.expr(0);
                        self.records = outer;
                        a.push(SyntaxElement::Node(e));
                        self.push(&mut arms, SyntaxKind::MatchArm, a);
                        if self.at(",") {
                            self.bump(&mut arms);
                        }
                        if self.pos == before {
                            self.bump(&mut arms);
                        }
                    }
                    self.expect(&mut arms, "}");
                    self.push(&mut k, SyntaxKind::MatchArmList, arms);
                    self.node(SyntaxKind::MatchExpr, k)
                }
                _ => {
                    self.error("an expression");
                    self.bump(&mut k);
                    self.node(SyntaxKind::Error, k)
                }
            },
        }
    }

    fn pattern(&mut self, kids: &mut Kids) {
        let mut k = Kids::new();
        let qualified = self.peek_at(1).is_some_and(|t| t.text == "::" || t.text == "(");
        if !qualified {
            self.name(&mut k, SyntaxKind::Name);
            self.push(kids, SyntaxKind::PatBind, k);
            return;
        }
        self.name(&mut k, SyntaxKind::NameRef);
        while self.at("::") {
            self.bump(&mut k);
            self.name(&mut k, SyntaxKind::NameRef);
        }
        if self.at("(") {
            self.bump(&mut k);
            while self.peek_at(0).is_some() && !self.at(")") {
                let before = self.pos;
                let mut b = Kids::new();
                self.name(&mut b, SyntaxKind::Name);
                self.push(&mut k, SyntaxKind::PatBind, b);
                if self.at(",") {
                    self.bump(&mut k);
                }
                if self.pos == before {
                    self.bump(&mut k);
                }
            }
            self.expect(&mut k, ")");
        }
        self.push(kids, SyntaxKind::PatVariant, k);
    }

    fn path(&mut self) -> SyntaxNode {
        let mut k = Kids::new();
        self.name(&mut k, SyntaxKind::NameRef);
        let mut head = if self.at("::") {
            while self.at("::") {
                self.bump(&mut k);
                self.name(&mut k, SyntaxKind::NameRef);
            }
            self.node(SyntaxKind::PathExpr, k)
        } else {
            match k.remove(0) {
                SyntaxElement::Node(n) => n,
                SyntaxElement::Token(_) => unreachable!(),
            }
        };
        if self.records && self.at("{") {
            let mut s = Kids::new();
            s.push(SyntaxElement::Node(head));
            self.bump(&mut s);
            while self.peek_at(0).is_some() && !self.at("}") {
                let before = self.pos;
                let mut f = Kids::new();
                self.name(&mut f, SyntaxKind::NameRef);
                self.expect(&mut f, ":");
                let e = self.expr(0);
                f.push(SyntaxElement::Node(e));
                self.push(&mut s, SyntaxKind::StructLitField, f);
                if self.at(",") {
                    self.bump(&mut s);
                }
                if self.pos == before {
                    self.bump(&mut s);
                }
            }
            self.expect(&mut s, "}");
            head = self.node(SyntaxKind::StructLit, s);
        }
        head
    }
}

/// Parses and lowers a source text.
fn parse_ast(src: &str) -> (AstModule, Diagnostics) {
    let (toks, _) = lex(src);
    let mut p = Parser { toks, pos: 0, diags: Diagnostics::new(), records: true };
    let root = p.file();
    let mut diags = p.diags;
    let m = lower_module(&root, &mut diags);
    (m, diags)
}

/// A source text that parses without errors.
fn module(src: &str) -> AstModule {
    let (m, diags) = parse_ast(src);
    assert!(diags.is_empty(), "unexpected diagnostics: {diags:?}");
    m
}

/// Parses, resolves and lowers a source text.
fn parse_hir(src: &str) -> (HirModule, Interner, Diagnostics) {
    let (ast, mut diags) = parse_ast(src);
    let mut interner = Interner::new();
    let m = lower_hir(&ast, &mut interner, &mut diags);
    (m, interner, diags)
}

// ---------- syntax tree to AST ----------

#[test]
fn lowers_functions_and_data() {
    let m = module("data P { x: i32; y: i32; } fn f(a: P) -> i32 { return a.x; }");
    assert_eq!(m.items.len(), 2);
    match &m.items[0] {
        Item::Data(d) => {
            assert_eq!(d.name.name, "P");
            assert_eq!(d.fields.len(), 2);
        }
        _ => panic!("expected data"),
    }
    match &m.items[1] {
        Item::Fn(f) => {
            assert_eq!(f.name.name, "f");
            assert_eq!(f.params.len(), 1);
            assert!(f.ret.is_some());
        }
        _ => panic!("expected fn"),
    }
}

#[test]
fn lowers_tail_expression_vs_statements() {
    let m = module("fn f() -> i32 { let x = 1; x + 1 }");
    match &m.items[0] {
        Item::Fn(f) => {
            assert_eq!(f.body.stmts.len(), 1);
            assert!(f.body.tail.is_some());
        }
        _ => panic!(),
    }
}

#[test]
fn lowers_struct_literal() {
    let m = module("data P { x: i32; } fn f() -> i32 { let p = P { x: 3 }; return p.x; }");
    match &m.items[1] {
        Item::Fn(f) => match &f.body.stmts[0] {
            Stmt::Let {
                init: Some(Expr::StructLit { name, fields, .. }),
                ..
            } => {
                assert_eq!(name.display(), "P");
                assert_eq!(fields[0].name.name, "x");
            }
            other => panic!("expected struct literal, got {other:?}"),
        },
        _ => panic!(),
    }
}

#[test]
fn lowers_assignment_to_field_place() {
    let m = module("data P { x: i32; } fn f(p: P) -> i32 { p.x = 5; return p.x; }");
    match &m.items[1] {
        Item::Fn(f) => match &f.body.stmts[0] {
            Stmt::Assign { target, .. } => {
                assert_eq!(target.base.name, "p");
                assert_eq!(target.fields[0].name, "x");
            }
            other => panic!("expected assign, got {other:?}"),
        },
        _ => panic!(),
    }
}

#[test]
fn binary_precedence_is_nested() {
    let m = module("fn f() -> i32 { return 1 + 2 * 3; }");
    match &m.items[0] {
        Item::Fn(f) => match &f.body.stmts[0] {
            Stmt::Return {
                value:
                    Some(Expr::Binary {
                        op: BinOp::Add,
                        rhs,
                        ..
                    }),
                ..
            } => assert!(matches!(**rhs, Expr::Binary { op: BinOp::Mul, .. })),
            other => panic!("expected add, got {other:?}"),
        },
        _ => panic!(),
    }
}

#[test]
fn if_else_chain() {
    let m = module(
        "fn f(x: i32) -> i32 { if x > 0 { return 1; } else if x == 0 { return 0; } else { return 2; } }",
    );
    match &m.items[0] {
        Item::Fn(f) => {
            // A semicolon-free `if` in tail position is the block's
            // value, matching Rust.
            match f.body.tail.as_deref() {
                Some(Expr::If { else_, .. }) => {
                    assert!(matches!(**else_.as_ref().unwrap(), Expr::If { .. }));
                }
                other => panic!("expected if tail, got {other:?}"),
            }
        }
        _ => panic!(),
    }
}

#[test]
fn lowers_index_and_slice() {
    let m = module("fn f(s: str) -> str { return s[0] + s[1..3] + s[2..] + s[..4] + s[..]; }");
    match &m.items[0] {
        Item::Fn(f) => match &f.body.stmts[0] {
            Stmt::Return {
                value: Some(Expr::Binary { lhs, .. }),
                ..
            } => {
                // Leftmost operand of the `+` chain is `s[0]`.
                let mut cur: &Expr = lhs;
                loop {
                    match cur {
                        Expr::Index { base, index, .. } => {
                            assert!(matches!(**base, Expr::Var { .. }));
                            assert!(matches!(
                                **index,
                                Expr::Literal {
                                    value: Literal::Int(0),
                                    ..
                                }
                            ));
                            break;
                        }
                        Expr::Binary { lhs: l, .. } => cur = l,
                        other => panic!("expected index, got {other:?}"),
                    }
                }
            }
            other => panic!("expected return, got {other:?}"),
        },
        _ => panic!(),
    }
}

#[test]
fn lowers_slice_bounds() {
    // `a + b + c` is `(a + b) + c`.
    let m = module("fn f(s: str) -> str { return s[1..] + s[..2] + s[..]; }");
    match &m.items[0] {
        Item::Fn(f) => match &f.body.stmts[0] {
            Stmt::Return {
                value: Some(Expr::Binary { lhs, rhs, .. }),
                ..
            } => {
                // rhs: `s[..]` — both bounds absent.
                assert!(matches!(
                    **rhs,
                    Expr::Slice {
                        lo: None,
                        hi: None,
                        ..
                    }
                ));
                match &**lhs {
                    Expr::Binary {
                        lhs: l2, rhs: r2, ..
                    } => {
                        // `s[1..]`: lower only.
                        assert!(matches!(
                            **l2,
                            Expr::Slice {
                                lo: Some(_),
                                hi: None,
                                ..
                            }
                        ));
                        // `s[..2]`: upper only.
                        assert!(matches!(
                            **r2,
                            Expr::Slice {
                                lo: None,
                                hi: Some(_),
                                ..
                            }
                        ));
                    }
                    other => panic!("expected binary, got {other:?}"),
                }
            }
            other => panic!("expected return, got {other:?}"),
        },
        _ => panic!(),
    }
}

#[test]
fn index_is_not_assignment_target() {
    let (_, diags) = parse_ast("fn f(s: str) { s[0] = \"x\"; }");
    assert!(diags.has_errors());
}

#[test]
fn lowers_array_literal_and_index() {
    let m = module("fn f() -> i32 { let a = [1, 2, 3]; return a[0]; }");
    match &m.items[0] {
        Item::Fn(f) => {
            match &f.body.stmts[0] {
                Stmt::Let {
                    init: Some(Expr::ArrayLit { elems, .. }),
                    ..
                } => assert_eq!(elems.len(), 3),
                other => panic!("expected array literal, got {other:?}"),
            }
            match &f.body.stmts[1] {
                Stmt::Return {
                    value: Some(Expr::Index { .. }),
                    ..
                } => {}
                other => panic!("expected index, got {other:?}"),
            }
        }
        _ => panic!(),
    }
}

#[test]
fn lowers_array_type_annotation() {
    let m = module("fn f(a: [i64]) -> i32 { let b: [i32] = a[0..]; return 0; }");
    match &m.items[0] {
        Item::Fn(f) => {
            assert!(matches!(f.params[0].ty, TypeExpr::Array { .. }));
            match &f.body.stmts[0] {
                Stmt::Let {
                    ty: Some(TypeExpr::Array { elem, .. }),
                    init: Some(Expr::Slice { .. }),
                    ..
                } => assert!(matches!(**elem, TypeExpr::Named { .. })),
                other => panic!("expected typed let + slice, got {other:?}"),
            }
        }
        _ => panic!(),
    }
}

#[test]
fn lowers_for_over_range() {
    let m = module("fn f() -> i32 { for i in 0..3 { let z = i; } return 0; }");
    match &m.items[0] {
        Item::Fn(f) => match &f.body.stmts[0] {
            Stmt::Expr {
                expr:
                    Expr::For {
                        var,
                        iter,
                        body,
                        mutable,
                        ..
                    },
                ..
            } => {
                assert_eq!(var.name, "i");
                assert!(!mutable);
                assert!(matches!(
                    **iter,
                    Expr::Range {
                        lo: Some(_),
                        hi: Some(_),
                        ..
                    }
                ));
                assert_eq!(body.stmts.len(), 1);
            }
            other => panic!("expected for, got {other:?}"),
        },
        _ => panic!(),
    }
}

#[test]
fn for_mut_and_array_iterable() {
    let m = module("fn f(a: [i32]) -> i32 { for mut x in a { x = x + 1; } return 0; }");
    match &m.items[0] {
        Item::Fn(f) => match &f.body.stmts[0] {
            Stmt::Expr {
                expr: Expr::For { mutable, iter, .. },
                ..
            } => {
                assert!(*mutable);
                assert!(matches!(**iter, Expr::Var { .. }));
            }
            other => panic!("expected for, got {other:?}"),
        },
        _ => panic!(),
    }
}

/// `-7` used to lower to `Expr::Error` — the prefix operator was
/// hidden behind leading trivia inside the `PREFIX_EXPR` node and
/// the unary value silently became `unit`.
#[test]
fn unary_operators_lower_through_trivia() {
    let m = module("fn f() -> i32 { let x = -7; let y = !true; return x; }");
    match &m.items[0] {
        Item::Fn(f) => {
            match &f.body.stmts[0] {
                Stmt::Let {
                    init: Some(Expr::Unary { op: UnOp::Neg, .. }),
                    ..
                } => {}
                other => panic!("expected unary neg, got {other:?}"),
            }
            match &f.body.stmts[1] {
                Stmt::Let {
                    init: Some(Expr::Unary { op: UnOp::Not, .. }),
                    ..
                } => {}
                other => panic!("expected unary not, got {other:?}"),
            }
        }
        _ => panic!(),
    }
}

#[test]
fn lowers_data_variants() {
    let m = module("data Option { Some(i32); None; } fn f() -> i32 { return 0; }");
    match &m.items[0] {
        Item::Data(d) => {
            assert!(d.fields.is_empty());
            assert_eq!(d.variants.len(), 2);
            assert_eq!(d.variants[0].name.name, "Some");
            assert_eq!(d.variants[0].payload.len(), 1);
            assert_eq!(d.variants[1].name.name, "None");
            assert!(d.variants[1].payload.is_empty());
        }
        _ => panic!("expected data"),
    }
}

#[test]
fn lowers_match_arms_and_patterns() {
    let m = module(
        "data Option { Some(i32); None; }\nfn f(o: Option) -> i32 { return match o { Option::Some(v) => v, Option::None => 0, _ => 9, }; }",
    );
    match &m.items[1] {
        Item::Fn(f) => match &f.body.stmts[0] {
            Stmt::Return {
                value:
                    Some(Expr::Match {
                        scrutinee, arms, ..
                    }),
                ..
            } => {
                assert!(matches!(**scrutinee, Expr::Var { .. }));
                assert_eq!(arms.len(), 3);
                match &arms[0].pat {
                    Pattern::Variant { path, binds, .. } => {
                        assert_eq!(path.display(), "Option::Some");
                        assert_eq!(binds.len(), 1);
                        assert_eq!(binds[0].name, "v");
                    }
                    other => panic!("expected variant pattern, got {other:?}"),
                }
                match &arms[2].pat {
                    Pattern::Bind { name } => assert_eq!(name.name, "_"),
                    other => panic!("expected wildcard, got {other:?}"),
                }
            }
            other => panic!("expected match return, got {other:?}"),
        },
        _ => panic!(),
    }
}

// ---------- resolution and bodies ----------

fn fn_def(m: &HirModule, name: &str, interner: &mut Interner) -> DefId {
    let id = interner.intern(name);
    let raw = m
        .scope
        .root_env()
        .fns
        .get(id.raw)
        .expect("function not resolved");
    DefId::new(raw)
}

fn data_def(m: &HirModule, name: &str, interner: &mut Interner) -> DefId {
    let id = interner.intern(name);
    DefId::new(m.scope.root_env().datas.get(id.raw).expect("data not resolved"))
}

#[test]
fn resolves_fn_and_data_defs() {
    let (m, mut interner, diags) = parse_hir(
        "data P { x: i32; } fn f(p: P) -> i32 { return p.x; } fn main() -> i32 { return 0; }",
    );
    assert!(diags.is_empty(), "{diags:?}");
    let env = m.scope.root_env();
    assert!(env.datas.contains_key(interner.intern("P").raw));
    assert!(env.fns.contains_key(interner.intern("f").raw));
    assert!(env.fns.contains_key(interner.intern("main").raw));
    assert_eq!(m.scope.defs.len(), 3);
}

#[test]
fn resolves_param_and_field_types() {
    let (m, mut interner, _) =
        parse_hir("data P { x: i32; } fn f(p: P) -> i32 { return p.x; }");
    let f = fn_def(&m, "f", &mut interner);
    let sig = m.scope.fn_sig(f).expect("fn sig");
    let p_def = data_def(&m, "P", &mut interner);
    assert_eq!(sig.params[0].ty, TypeRef::Struct(p_def));
    assert_eq!(sig.ret, TypeRef::I32);
    let shape = m.scope.data_shape(p_def).expect("data shape");
    assert_eq!(shape.fields.len(), 1);
    assert_eq!(shape.fields[0].ty, TypeRef::I32);
}

#[test]
fn resolves_calls_and_locals() {
    let (m, mut interner, diags) = parse_hir(
        "fn g(x: i32) -> i32 { return x + 1; } fn main() -> i32 { let y = g(2); return y; }",
    );
    assert!(diags.is_empty(), "{diags:?}");
    let main = fn_def(&m, "main", &mut interner);
    let body = m.body(main).expect("body");
    let root = body.expr(body.root);
    let HirExprKind::Block { stmts, .. } = &root.kind else {
        panic!("expected block root")
    };
    let HirStmt::Let {
        init: Some(init), ..
    } = &stmts[0]
    else {
        panic!("expected let")
    };
    let HirExprKind::Call { def, args } = &body.expr(*init).kind else {
        panic!("expected call")
    };
    assert_eq!(*def, fn_def(&m, "g", &mut interner));
    assert_eq!(args.len(), 1);
}

#[test]
fn resolves_struct_literal_to_data_def() {
    let (m, mut interner, diags) =
        parse_hir("data P { x: i32; } fn main() -> i32 { let p = P { x: 1 }; return p.x; }");
    assert!(diags.is_empty(), "{diags:?}");
    let main = fn_def(&m, "main", &mut interner);
    let body = m.body(main).expect("body");
    let HirExprKind::Block { stmts, .. } = &body.expr(body.root).kind else {
        panic!()
    };
    let HirStmt::Let {
        init: Some(init), ..
    } = &stmts[0]
    else {
        panic!()
    };
    let HirExprKind::StructLit { def, fields } = &body.expr(*init).kind else {
        panic!("expected struct lit")
    };
    assert_eq!(*def, data_def(&m, "P", &mut interner));
    assert_eq!(fields.len(), 1);
}

#[test]
fn lowers_index_and_slice_exprs() {
    let (m, mut interner, diags) = parse_hir("fn f(s: str) -> str { return s[0] + s[1..]; }");
    assert!(diags.is_empty(), "{diags:?}");
    let f = fn_def(&m, "f", &mut interner);
    let body = m.body(f).expect("body");
    let HirExprKind::Block { stmts, .. } = &body.expr(body.root).kind else {
        panic!()
    };
    let HirStmt::Return { value: Some(v), .. } = &stmts[0] else {
        panic!("expected return")
    };
    let HirExprKind::Binary { lhs, rhs, .. } = &body.expr(*v).kind else {
        panic!("expected binary")
    };
    assert!(matches!(body.expr(*lhs).kind, HirExprKind::Index { .. }));
    let HirExprKind::Slice { lo, hi, .. } = &body.expr(*rhs).kind else {
        panic!("expected slice")
    };
    assert!(lo.is_some() && hi.is_none());
}

#[test]
fn reports_unknown_binding() {
    let (_, _, diags) = parse_hir("fn main() -> i32 { return nope; }");
    assert_eq!(diags.iter().len(), 1);
    let d = diags.iter().first().unwrap();
    assert_eq!(d.code, Code::UnknownSymbol);
    assert_eq!(d.subject.as_deref(), Some("nope"));
}

#[test]
fn reports_unknown_type() {
    let (_, _, diags) = parse_hir("fn f(x: Missing) -> i32 { return 0; }");
    assert!(
        diags.iter().iter().any(|d| d.code == Code::UnknownType)
    );
}

#[test]
fn reports_duplicate_defs() {
    let (_, _, diags) = parse_hir("fn f() -> i32 { return 0; } fn f() -> i32 { return 1; }");
    assert!(
        diags.iter().iter().any(|d| d.code == Code::DuplicateDef)
    );
}

#[test]
fn reports_calling_a_value() {
    let (_, _, diags) = parse_hir("fn main() -> i32 { let x = 1; return x(2); }");
    assert!(
        diags.iter().iter().any(|d| d.code == Code::NotCallable)
    );
}

#[test]
fn lexical_scoping_shadows_correctly() {
    let (m, mut interner, diags) = parse_hir(
        "fn main() -> i32 { let x = 1; { let x = 2; let y = x; } let z = x; return z; }",
    );
    assert!(diags.is_empty(), "{diags:?}");
    let main = fn_def(&m, "main", &mut interner);
    let body = m.body(main).expect("body");
    // Two distinct `x` locals plus `y` and `z` → 4 locals.
    assert_eq!(body.local_ids().len(), 4);
    let names: Vec<_> = body
        .local_symbols
        .iter()
        .filter(|s| s.kind == SymbolKind::Local)
        .map(|s| s.name)
        .collect();
    let x = interner.intern("x");
    let xs: Vec<_> = names.iter().filter(|n| **n == x).collect();
    assert_eq!(xs.len(), 2);
}

#[test]
fn struct_lit_unknown_type_reports() {
    let (_, _, diags) = parse_hir("fn main() -> i32 { let p = Q { x: 1 }; return 0; }");
    assert!(
        diags.iter().iter().any(|d| d.code == Code::UnknownType)
    );
}

#[test]
fn resolves_array_type_refs() {
    let (m, mut interner, diags) =
        parse_hir("data P { x: i32; } fn f(a: [i64], b: [P]) -> [i32] { return a[0..]; }");
    assert!(diags.is_empty(), "{diags:?}");
    let f = fn_def(&m, "f", &mut interner);
    let sig = m.scope.fn_sig(f).expect("fn sig");
    assert_eq!(sig.params[0].ty, TypeRef::Array { elem: ElemRef::I64 });
    let p = data_def(&m, "P", &mut interner);
    assert_eq!(
        sig.params[1].ty,
        TypeRef::Array {
            elem: ElemRef::Struct(p)
        }
    );
    assert_eq!(sig.ret, TypeRef::Array { elem: ElemRef::I32 });
}

#[test]
fn rejects_bad_element_types() {
    // Nested arrays and arrays of `unit` are rejected at resolution.
    let (_, _, diags) = parse_hir("fn f(a: [[i32]]) -> i32 { return 0; }");
    assert!(diags.has_errors());
    let (_, _, diags) = parse_hir("fn f(a: [unit]) -> i32 { return 0; }");
    assert!(diags.has_errors());
    let (_, _, diags) = parse_hir("fn f(a: [Nope]) -> i32 { return 0; }");
    assert!(
        diags.iter().iter().any(|d| d.code == Code::UnknownType)
    );
}

#[test]
fn lowers_array_for_range_nodes() {
    let (m, mut interner, diags) = parse_hir(
        "fn f() -> i32 { let a = [1, 2]; for i in 0..a.len { } for x in a { } return 0; }",
    );
    assert!(diags.is_empty(), "{diags:?}");
    let f = fn_def(&m, "f", &mut interner);
    let body = m.body(f).expect("body");
    let HirExprKind::Block { stmts, .. } = &body.expr(body.root).kind else {
        panic!()
    };
    let HirStmt::Let {
        init: Some(init), ..
    } = &stmts[0]
    else {
        panic!("expected let")
    };
    assert!(matches!(
        body.expr(*init).kind,
        HirExprKind::ArrayLit { .. }
    ));
    for s in &stmts[1..3] {
        let HirStmt::Expr { expr, .. } = s else {
            panic!("expected expr stmt")
        };
        let HirExprKind::For { iter, .. } = &body.expr(*expr).kind else {
            panic!("expected for, got {:?}", body.expr(*expr).kind)
        };
        match &body.expr(*iter).kind {
            HirExprKind::Range {
                lo: Some(_),
                hi: Some(_),
            } => {}
            HirExprKind::Var(_) => {}
            other => panic!("unexpected iterable kind {other:?}"),
        }
    }
}

/// The loop variable is a fresh `Local` symbol scoped to the loop:
/// `x` does not leak past the body and shadows an outer `x`.
#[test]
fn for_var_is_loop_scoped() {
    let (m, mut interner, diags) = parse_hir(
        "fn f() -> i32 { let x = 9; for x in 0..2 { let y = x; } let z = x; return z; }",
    );
    assert!(diags.is_empty(), "{diags:?}");
    let f = fn_def(&m, "f", &mut interner);
    let body = m.body(f).expect("body");
    // locals: outer x, loop x, y, z → the loop `x` is a distinct
    // symbol even though it shadows the outer binding.
    let x = interner.intern("x");
    let xs: Vec<_> = body.local_symbols.iter().filter(|s| s.name == x).collect();
    assert_eq!(xs.len(), 2);
    // `let z = x` must see the *outer* x, not the loop's.
    let HirExprKind::Block { stmts, .. } = &body.expr(body.root).kind else {
        panic!()
    };
    let HirStmt::Let {
        init: Some(init), ..
    } = &stmts[2]
    else {
        panic!("expected let z")
    };
    let HirExprKind::Var(sym) = &body.expr(*init).kind else {
        panic!("expected var")
    };
    assert_eq!(*sym, xs[0].id);
}

/// `for mut` marks the loop symbol mutable; plain `for` does not.
#[test]
fn for_mut_marks_symbol_mutable() {
    let (m, mut interner, diags) =
        parse_hir("fn f() -> i32 { for i in 0..1 { } for mut j in 0..1 { } return 0; }");
    assert!(diags.is_empty(), "{diags:?}");
    let f = fn_def(&m, "f", &mut interner);
    let body = m.body(f).expect("body");
    let i = interner.intern("i");
    let j = interner.intern("j");
    let sym = |n| {
        body.local_symbols
            .iter()
            .find(|s| s.name == n)
            .expect("loop var")
    };
    assert!(!sym(i).mutable);
    assert!(sym(j).mutable);
}
