//! The parser: a recursive-descent reading of a token stream into a
//! `Program`, following the precedence levels of the grammar.
use vstd::prelude::*;
use crate::ast::{
    Assign, AssignOp, AssignTarget, BinOp, Block, ChanDecl, Contract, Decl, DocClaim, DocComment,
    EnumDecl, Expr, ExternDecl, Field, FuncDecl, IfExpr, InterfaceKind, Item, Param, Pattern,
    Program, PropKind, RecordDecl, Stmt, StmtKind, TaskDecl, Type, TypeParam, UnaryOp, Variant,
};
use crate::text::{push_char, push_decimal, push_str, str_eq, chars_of, string_of};
use crate::textsearch::{contains, ends_with, find};
use crate::chars::trim;
use crate::token::{DocTag, Keyword, Marker, Punct, Span, TokKind, Token, is_kw, is_punct, well_formed_tokens};
use crate::keywords::keyword_of;
use crate::lexer::{lexes_plainly, plain_text, plain_token_is, plain_tokens};

verus! {

#[derive(Debug)]
pub struct ParseError {
    pub message: String,
    pub span: Span,
}

/// `s` is the span of one of the tokens.
pub open spec fn span_of_token(ts: Seq<Token>, s: Span) -> bool {
    exists|k: int| 0 <= k < ts.len() && ts[k].span == s
}

/// The parser may look at position `i`.
pub open spec fn at_token(ts: Seq<Token>, i: int) -> bool {
    well_formed_tokens(ts) && 0 <= i < ts.len()
}

/// What a parsing step hands back: on success a later position that is still
/// a token, on failure an error located at one of the tokens.
pub open spec fn step_ok<T>(ts: Seq<Token>, i: int, r: Result<(T, usize), ParseError>, strict: bool) -> bool {
    &&& r matches Ok((_, j)) ==> (if strict { i < j } else { i <= j }) && j < ts.len()
    &&& r matches Err(e) ==> span_of_token(ts, e.span)
}

/// A keyword that begins a top-level declaration.
pub open spec fn decl_keyword(k: Keyword) -> bool {
    k == Keyword::Func || k == Keyword::Async || k == Keyword::Task || k == Keyword::Chan || k == Keyword::Extern
        || k == Keyword::Record || k == Keyword::Enum
}

/// A token that cannot stand first at the top level: neither a doc comment,
/// a declaration keyword or marker, the `@interface` marker, nor the end.
pub open spec fn stray_top(k: TokKind) -> bool {
    !(k is Doc || k is Eof || (k matches TokKind::Kw(kw) && decl_keyword(kw)) || k is At)
}

/// A plain text whose first token cannot begin a declaration: an operator,
/// or a word (not a marker) that is not a declaration keyword.
pub open spec fn stray_plain_start(s: Seq<char>) -> bool {
    let es = plain_tokens(s, 0);
    &&& plain_text(s)
    &&& es.len() > 0
    &&& (es[0].2 is Some || (s[es[0].0] != '@' && !(keyword_of(s.subrange(es[0].0, es[0].1)) matches Some(k)
        && decl_keyword(k))))
}

/// Such a text lexes to a first token that is stray at the top level.
pub proof fn lemma_stray_plain_start(ts: Seq<Token>, s: Seq<char>)
    requires
        lexes_plainly(ts, s),
        stray_plain_start(s),
    ensures
        ts.len() > 0 && stray_top(ts[0].kind),
{
    assert(plain_token_is(ts[0], s, plain_tokens(s, 0)[0]));
}

/// The `@interface` marker with its kind, then the end: an interface that
/// declares nothing.
pub open spec fn bare_interface_tokens(ts: Seq<Token>) -> bool {
    &&& ts.len() == 3
    &&& ts[0].kind == TokKind::At(Marker::Interface)
    &&& ts[1].kind is Ident
    &&& (ts[1].text@ == "export"@ || ts[1].text@ == "foreign"@)
}

/// `func NAME()` at `i`: a function header with no markers, type
/// parameters, parameters or result.
pub open spec fn plain_head_at(ts: Seq<Token>, i: int) -> bool {
    &&& 0 <= i && i + 4 < ts.len()
    &&& ts[i].kind == TokKind::Kw(Keyword::Func)
    &&& ts[i + 1].kind is Ident
    &&& is_punct(ts[i + 2].kind, Punct::LParen)
    &&& is_punct(ts[i + 3].kind, Punct::RParen)
}

/// `{}` at `i`.
pub open spec fn empty_block_at(ts: Seq<Token>, i: int) -> bool {
    0 <= i && i + 1 < ts.len() && is_punct(ts[i].kind, Punct::LBrace) && is_punct(ts[i + 1].kind, Punct::RBrace)
}

/// `{ f(x) }` at `i`: a block holding one call of a name with one atom
/// argument.
pub open spec fn call_block_at(ts: Seq<Token>, i: int) -> bool {
    0 <= i && i + 5 < ts.len() && is_punct(ts[i].kind, Punct::LBrace) && call_at(ts, i + 1) && is_punct(
        ts[i + 5].kind,
        Punct::RBrace,
    )
}

/// `func NAME() {}` or `func NAME() { f(x) }` at `i`.
pub open spec fn simple_func_at(ts: Seq<Token>, i: int) -> bool {
    plain_head_at(ts, i) && (empty_block_at(ts, i + 4) || call_block_at(ts, i + 4))
}

/// How many tokens such a function takes.
pub open spec fn simple_func_len(ts: Seq<Token>, i: int) -> int {
    if empty_block_at(ts, i + 4) {
        6
    } else {
        10
    }
}

/// From `i` on, the tokens are such functions and then the end.
pub open spec fn simple_funcs_from(ts: Seq<Token>, i: int) -> bool
    decreases ts.len() - i,
{
    if i < 0 || i >= ts.len() {
        false
    } else if ts[i].kind is Eof {
        true
    } else {
        simple_func_at(ts, i) && simple_funcs_from(ts, i + simple_func_len(ts, i))
    }
}

/// Where those functions start, in order.
pub open spec fn func_starts(ts: Seq<Token>, i: int) -> Seq<int>
    decreases ts.len() - i,
{
    if i < 0 || i >= ts.len() || ts[i].kind is Eof || !simple_func_at(ts, i) {
        Seq::empty()
    } else {
        seq![i] + func_starts(ts, i + simple_func_len(ts, i))
    }
}

/// `f` is the function the tokens at `i` declare: its name, nothing but
/// its name in its header, and its body (none, or the one call).
pub open spec fn simple_func_of(f: FuncDecl, ts: Seq<Token>, i: int) -> bool {
    &&& f.name@ == ts[i + 1].text@
    &&& !f.exported && !f.is_async
    &&& f.type_params@.len() == 0 && f.params@.len() == 0 && f.ret is None
    &&& f.contracts@.len() == 0 && f.doc is None
    &&& empty_block_at(ts, i + 4) ==> f.body.stmts@.len() == 0
    &&& call_block_at(ts, i + 4) ==> f.body.stmts@.len() == 1 && (f.body.stmts@[0].kind matches StmtKind::Expr(e)
        && is_call_of(e, ts, i + 5))
}

/// Every token but the last has a successor.
proof fn lemma_has_next(ts: Seq<Token>, i: int)
    requires
        at_token(ts, i),
    ensures
        !(ts[i].kind is Eof) ==> i + 1 < ts.len(),
{
    if !(ts[i].kind is Eof) {
        assert(ts.last() == ts[ts.len() - 1]);
        assert(i != ts.len() - 1);
    }
}

fn err_at(ts: &Vec<Token>, i: usize, message: String) -> (e: ParseError)
    requires
        i < ts.len(),
    ensures
        span_of_token(ts@, e.span),
{
    let e = ParseError { message, span: ts[i].span.clone() };
    assert(ts@[i as int].span == e.span);
    e
}

/// How a token is named in error messages.
pub open spec fn tok_show_text(kind: TokKind) -> Seq<char> {
    match kind {
        TokKind::Int(v) => "integer "@ + crate::text::decimal(v as nat),
        TokKind::Float(t) => "number "@ + t@,
        TokKind::Char(c) => "char '"@ + seq![c] + seq!['\''],
        TokKind::Str(_) => "string"@,
        TokKind::RawStr(_) => "raw string"@,
        TokKind::Ident(n) => seq!['\''] + n@ + seq!['\''],
        TokKind::Eof => "end of file"@,
        _ => "token"@,
    }
}

/// How a token is named in error messages.
fn tok_show(kind: &TokKind) -> (s: String)
    ensures
        s@ == tok_show_text(*kind),
{
    let mut s = String::new();
    match kind {
        TokKind::Int(v) => {
            push_str(&mut s, "integer ");
            push_decimal(&mut s, *v);
        }
        TokKind::Float(t) => {
            push_str(&mut s, "number ");
            push_str(&mut s, t.as_str());
        }
        TokKind::Char(c) => {
            push_str(&mut s, "char '");
            push_char(&mut s, *c);
            push_char(&mut s, '\'');
        }
        TokKind::Str(_) => push_str(&mut s, "string"),
        TokKind::RawStr(_) => push_str(&mut s, "raw string"),
        TokKind::Ident(n) => {
            push_char(&mut s, '\'');
            push_str(&mut s, n.as_str());
            push_char(&mut s, '\'');
        }
        TokKind::Eof => push_str(&mut s, "end of file"),
        _ => push_str(&mut s, "token"),
    }
    assert(s@ =~= tok_show_text(*kind));
    s
}

fn at_punct(ts: &Vec<Token>, i: usize, p: Punct) -> (r: bool)
    requires
        at_token(ts@, i as int),
    ensures
        r == is_punct(ts@[i as int].kind, p),
        r ==> i + 1 < ts.len(),
{
    proof { lemma_has_next(ts@, i as int); }
    match &ts[i].kind {
        TokKind::Punct(q) => *q == p,
        _ => false,
    }
}

fn at_kw(ts: &Vec<Token>, i: usize, w: Keyword) -> (r: bool)
    requires
        at_token(ts@, i as int),
    ensures
        r == is_kw(ts@[i as int].kind, w),
        r ==> i + 1 < ts.len(),
{
    proof { lemma_has_next(ts@, i as int); }
    match &ts[i].kind {
        TokKind::Kw(q) => *q == w,
        _ => false,
    }
}

fn at_marker(ts: &Vec<Token>, i: usize, m: Marker) -> (r: bool)
    requires
        at_token(ts@, i as int),
    ensures
        r == (ts@[i as int].kind matches TokKind::At(q) && q == m),
        r ==> i + 1 < ts.len(),
{
    proof { lemma_has_next(ts@, i as int); }
    match &ts[i].kind {
        TokKind::At(q) => *q == m,
        _ => false,
    }
}

fn at_eof(ts: &Vec<Token>, i: usize) -> (r: bool)
    requires
        at_token(ts@, i as int),
    ensures
        r == (ts@[i as int].kind is Eof),
        !r ==> i + 1 < ts.len(),
{
    proof { lemma_has_next(ts@, i as int); }
    match &ts[i].kind {
        TokKind::Eof => true,
        _ => false,
    }
}

fn expected(ts: &Vec<Token>, i: usize, what: &str) -> (e: ParseError)
    requires
        i < ts.len(),
    ensures
        span_of_token(ts@, e.span),
{
    let mut m = String::new();
    push_str(&mut m, "expected ");
    push_str(&mut m, what);
    push_str(&mut m, ", found ");
    let shown = tok_show(&ts[i].kind);
    push_str(&mut m, shown.as_str());
    err_at(ts, i, m)
}

fn expect_punct(ts: &Vec<Token>, i: usize, p: Punct, what: &str) -> (r: Result<usize, ParseError>)
    requires
        at_token(ts@, i as int),
    ensures
        r matches Ok(j) ==> j == i + 1 && j < ts.len(),
        r matches Err(e) ==> span_of_token(ts@, e.span),
        is_punct(ts@[i as int].kind, p) ==> r is Ok,
{
    if at_punct(ts, i, p) {
        Ok(i + 1)
    } else {
        Err(expected(ts, i, what))
    }
}

fn expect_kw(ts: &Vec<Token>, i: usize, w: Keyword, what: &str) -> (r: Result<usize, ParseError>)
    requires
        at_token(ts@, i as int),
    ensures
        r matches Ok(j) ==> j == i + 1 && j < ts.len(),
        r matches Err(e) ==> span_of_token(ts@, e.span),
        is_kw(ts@[i as int].kind, w) ==> r is Ok,
{
    if at_kw(ts, i, w) {
        Ok(i + 1)
    } else {
        Err(expected(ts, i, what))
    }
}

/// An identifier token: its text, its span and the next position.
fn expect_ident(ts: &Vec<Token>, i: usize) -> (r: Result<(String, Span, usize), ParseError>)
    requires
        at_token(ts@, i as int),
    ensures
        r matches Ok((_, sp, j)) ==> j == i + 1 && j < ts.len() && sp == ts@[i as int].span,
        r matches Ok((n, _, _)) ==> n@ == ts@[i as int].text@,
        r matches Err(e) ==> span_of_token(ts@, e.span),
        ts@[i as int].kind is Ident <==> r is Ok,
{
    proof { lemma_has_next(ts@, i as int); }
    match &ts[i].kind {
        TokKind::Ident(_) => {
            assert(ts@[i as int].kind is Ident);
            assert(!(ts@[i as int].kind is Eof));
            assert(i + 1 < ts.len());
            Ok((ts[i].text.clone(), ts[i].span.clone(), i + 1))
        }
        _ => Err(expected(ts, i, "identifier")),
    }
}

fn join_span(start: &Span, end: (usize, usize)) -> (s: Span)
    ensures
        s.file == start.file,
        s.start == start.start,
        s.end == end,
{
    Span { file: start.file.clone(), start: start.start, end }
}

/// Parse a token stream into a program. On failure the error points at one
/// of the tokens. The end marker alone is the empty program.
pub fn parse(tokens: Vec<Token>) -> (r: Result<Program, ParseError>)
    requires
        well_formed_tokens(tokens@),
    ensures
        tokens@.len() == 1 ==> (r matches Ok(p) && p.items@.len() == 0 && p.interface_kind is None),
        r matches Err(e) ==> span_of_token(tokens@, e.span),
        r matches Ok(p) ==> (p.interface_kind is Some <==> (tokens@[0].kind matches TokKind::At(m) && m == Marker::Interface)),
        stray_top(tokens@[0].kind) ==> r is Err,
        bare_interface_tokens(tokens@) ==> (r matches Ok(p) && p.items@.len() == 0 && p.interface_kind is Some),
        simple_funcs_from(tokens@, 0) ==> (r matches Ok(p) && p.interface_kind is None && p.items@.len()
            == func_starts(tokens@, 0).len() && forall|k: int| 0 <= k < p.items@.len() ==> (#[trigger] p.items@[k] matches Item::Func(
            f,
        ) && simple_func_of(f, tokens@, func_starts(tokens@, 0)[k]))),
{
    let ts = &tokens;
    let mut i: usize = 0;
    let mut interface_kind: Option<InterfaceKind> = None;
    if at_marker(ts, 0, Marker::Interface) {
        let (k, j) = match interface_marker(ts, 0) { Ok(v) => v, Err(e) => return Err(e) };
        interface_kind = Some(k);
        i = j;
    }
    let mut items: Vec<Item> = Vec::new();
    let ghost mut nm: Seq<int> = Seq::empty();
    while !at_eof(ts, i)
        invariant
            at_token(ts@, i as int),
            ts@ == tokens@,
            interface_kind is Some <==> (ts@[0].kind matches TokKind::At(m) && m == Marker::Interface),
            ts@.len() == 1 ==> i == 0 && items@.len() == 0,
            stray_top(ts@[0].kind) ==> i == 0,
            bare_interface_tokens(ts@) ==> i == 2 && items@.len() == 0,
            simple_funcs_from(ts@, 0) ==> {
                &&& simple_funcs_from(ts@, i as int)
                &&& interface_kind is None
                &&& func_starts(ts@, 0) == nm + func_starts(ts@, i as int)
                &&& nm.len() == items@.len()
                &&& forall|k: int| 0 <= k < items@.len() ==> (#[trigger] items@[k] matches Item::Func(f) && simple_func_of(f, ts@, nm[k]))
            },
        decreases ts.len() - i,
    {
        let (item, j) = match top_level(ts, i) { Ok(v) => v, Err(e) => return Err(e) };
        proof {
            if simple_funcs_from(ts@, 0) {
                let n = simple_func_len(ts@, i as int);
                assert(func_starts(ts@, i as int) == seq![i as int] + func_starts(ts@, i + n));
                nm = nm.push(i as int);
                assert(func_starts(ts@, 0) =~= nm + func_starts(ts@, i + n));
            }
        }
        let ghost before = items@;
        items.push(item);
        proof {
            if simple_funcs_from(ts@, 0) {
                assert forall|k: int| 0 <= k < items@.len() implies (#[trigger] items@[k] matches Item::Func(f)
                    && simple_func_of(f, ts@, nm[k])) by {
                    if k < before.len() {
                        assert(items@[k] == before[k]);
                    }
                }
            }
        }
        i = j;
    }
    proof {
        if simple_funcs_from(ts@, 0) {
            assert(func_starts(ts@, i as int) =~= Seq::<int>::empty());
            assert(nm + Seq::<int>::empty() =~= nm);
        }
    }
    Ok(Program { items, interface_kind })
}

fn interface_marker(ts: &Vec<Token>, i: usize) -> (r: Result<(InterfaceKind, usize), ParseError>)
    requires
        at_token(ts@, i as int),
        i + 1 < ts.len(),
    ensures
        step_ok(ts@, i as int, r, true),
        ts@[i + 1].kind is Ident && (ts@[i + 1].text@ == "export"@ || ts@[i + 1].text@ == "foreign"@) ==> (r matches Ok(
            (_, j),
        ) && j == i + 2),
{
    let (name, sp, j) = match expect_ident(ts, i + 1) { Ok(v) => v, Err(e) => return Err(e) };
    if str_eq(name.as_str(), "export") {
        Ok((InterfaceKind::Export, j))
    } else if str_eq(name.as_str(), "foreign") {
        Ok((InterfaceKind::Foreign, j))
    } else {
        let mut m = String::new();
        push_str(&mut m, "expected 'export' or 'foreign' after '@interface', found '");
        push_str(&mut m, name.as_str());
        push_char(&mut m, '\'');
        Err(err_at(ts, i + 1, m))
    }
}

fn is_doc_token(ts: &Vec<Token>, i: usize) -> (r: bool)
    requires
        at_token(ts@, i as int),
    ensures
        r == (ts@[i as int].kind is Doc),
        r ==> i + 1 < ts.len(),
{
    proof { lemma_has_next(ts@, i as int); }
    match &ts[i].kind {
        TokKind::Doc(_) => true,
        _ => false,
    }
}

/// One doc-comment claim. An inline `@trusted` stamp marks the claim trusted
/// and is cut off the claim text; a trusted claim followed by
/// `// reviewed by` counts as reviewed.
fn doc_claim(tok: &Token) -> (c: DocClaim)
    ensures
        c.span == tok.span,
{
    let tag = match &tok.kind {
        TokKind::Doc(t) => *t,
        _ => DocTag::Intent,
    };
    let full = chars_of(tok.text.as_str());
    let stamp = chars_of("@trusted");
    let spaced = chars_of(" @trusted");
    let mut trusted = false;
    let mut text = tok.text.clone();
    if ends_with(&full, &stamp) || contains(&full, &spaced) {
        trusted = true;
        if let Some(pos) = find(&full, &stamp) {
            let mut head: Vec<char> = Vec::new();
            let mut k: usize = 0;
            while k < pos
                invariant
                    pos <= full.len(),
                    k <= pos,
                decreases pos - k,
            {
                head.push(full[k]);
                k += 1;
            }
            text = string_of(&trim(&head));
        }
    }
    let reviewed = trusted && contains(&full, &chars_of("// reviewed by"));
    DocClaim { tag, text, trusted, reviewed, span: tok.span.clone() }
}

fn top_level(ts: &Vec<Token>, i: usize) -> (r: Result<(Item, usize), ParseError>)
    requires
        at_token(ts@, i as int),
        !(ts@[i as int].kind is Eof),
    ensures
        step_ok(ts@, i as int, r, true),
        stray_top(ts@[i as int].kind) || ts@[i as int].kind == TokKind::At(Marker::Interface) ==> r is Err,
        simple_func_at(ts@, i as int) ==> (r matches Ok((it, j)) && j == i + simple_func_len(ts@, i as int) && (it matches Item::Func(
            f,
        ) && simple_func_of(f, ts@, i as int))),
{
    let mut docs: Vec<DocClaim> = Vec::new();
    let mut k = i;
    while is_doc_token(ts, k)
        invariant
            at_token(ts@, k as int),
            i <= k,
            k == i ==> !(ts@[k as int].kind is Eof),
            !(ts@[i as int].kind is Doc) ==> k == i,
            k == i ==> docs@.len() == 0,
        decreases ts.len() - k,
    {
        docs.push(doc_claim(&ts[k]));
        k += 1;
    }
    proof { lemma_has_next(ts@, k as int); }
    match &ts[k].kind {
        TokKind::Kw(Keyword::Func) | TokKind::Kw(Keyword::Async) | TokKind::At(Marker::Export) => {
            let (d, j) = match func_decl(ts, k, docs) { Ok(v) => v, Err(e) => return Err(e) };
            Ok((Item::Func(d), j))
        }
        TokKind::Kw(Keyword::Task) => {
            let (d, j) = match task_decl(ts, k, docs) { Ok(v) => v, Err(e) => return Err(e) };
            Ok((Item::Task(d), j))
        }
        TokKind::Kw(Keyword::Chan) => {
            let (d, j) = match chan_decl(ts, k) { Ok(v) => v, Err(e) => return Err(e) };
            Ok((Item::Chan(d), j))
        }
        TokKind::Kw(Keyword::Extern) => {
            let (d, j) = match extern_decl(ts, k) { Ok(v) => v, Err(e) => return Err(e) };
            Ok((Item::Extern(d), j))
        }
        TokKind::Kw(Keyword::Record) | TokKind::At(Marker::Cstruct) => {
            let (d, j) = match record_decl(ts, k) { Ok(v) => v, Err(e) => return Err(e) };
            Ok((Item::Record(d), j))
        }
        TokKind::Kw(Keyword::Enum) => {
            let (d, j) = match enum_decl(ts, k) { Ok(v) => v, Err(e) => return Err(e) };
            Ok((Item::Enum(d), j))
        }
        TokKind::At(Marker::Interface) => {
            Err(err_at(ts, k, String::from_str(
                "the '@interface' marker must appear exactly once, before any declaration",
            )))
        }
        _ => {
            let mut m = String::new();
            push_str(&mut m, "unexpected ");
            let shown = tok_show(&ts[k].kind);
            push_str(&mut m, shown.as_str());
            push_str(&mut m, " at top level");
            Err(err_at(ts, k, m))
        }
    }
}

fn func_decl(ts: &Vec<Token>, i: usize, docs: Vec<DocClaim>) -> (r: Result<(FuncDecl, usize), ParseError>)
    requires
        at_token(ts@, i as int),
    ensures
        step_ok(ts@, i as int, r, true),
        simple_func_at(ts@, i as int) && docs@.len() == 0 ==> (r matches Ok((f, j)) && j == i + simple_func_len(
            ts@,
            i as int,
        ) && simple_func_of(f, ts@, i as int)),
{
    let mut k = i;
    let exported = at_marker(ts, k, Marker::Export);
    if exported {
        k += 1;
    }
    let is_async = at_kw(ts, k, Keyword::Async);
    if is_async {
        k += 1;
    }
    k = match expect_kw(ts, k, Keyword::Func, "'func'") { Ok(v) => v, Err(e) => return Err(e) };
    let (name, name_span, j) = match expect_ident(ts, k) { Ok(v) => v, Err(e) => return Err(e) };
    let (type_params, j) = match type_params(ts, j) { Ok(v) => v, Err(e) => return Err(e) };
    let j = match expect_punct(ts, j, Punct::LParen, "'('") { Ok(v) => v, Err(e) => return Err(e) };
    let (params, j) = match params(ts, j) { Ok(v) => v, Err(e) => return Err(e) };
    let mut j = match expect_punct(ts, j, Punct::RParen, "')'") { Ok(v) => v, Err(e) => return Err(e) };
    let mut ret: Option<Type> = None;
    if at_punct(ts, j, Punct::Arrow) {
        let (t, j2) = match ty(ts, j + 1) { Ok(v) => v, Err(e) => return Err(e) };
        ret = Some(t);
        j = j2;
    }
    let (contracts, j) = match contracts(ts, j) { Ok(v) => v, Err(e) => return Err(e) };
    let (body, j) = match block(ts, j) { Ok(v) => v, Err(e) => return Err(e) };
    let doc = if docs.len() > 0 {
        Some(DocComment { claims: docs, span: name_span.clone() })
    } else {
        None
    };
    Ok((FuncDecl { is_async, exported, name, type_params, params, ret, contracts, body, doc, span: name_span }, j))
}

fn type_params(ts: &Vec<Token>, i: usize) -> (r: Result<(Vec<TypeParam>, usize), ParseError>)
    requires
        at_token(ts@, i as int),
    ensures
        step_ok(ts@, i as int, r, false),
        !is_punct(ts@[i as int].kind, Punct::LBracket) ==> (r matches Ok((v, j)) && v@.len() == 0 && j == i),
{
    let mut out: Vec<TypeParam> = Vec::new();
    if !at_punct(ts, i, Punct::LBracket) {
        return Ok((out, i));
    }
    let mut k = i + 1;
    loop
        invariant
            at_token(ts@, k as int),
            i < k,
            is_punct(ts@[i as int].kind, Punct::LBracket),
        decreases ts.len() - k,
    {
        let (name, sp, j) = match expect_ident(ts, k) { Ok(v) => v, Err(e) => return Err(e) };
        let mut constraint: Option<String> = None;
        let mut j = j;
        if at_punct(ts, j, Punct::Colon) {
            let (c, _, j2) = match expect_ident(ts, j + 1) { Ok(v) => v, Err(e) => return Err(e) };
            constraint = Some(c);
            j = j2;
        }
        out.push(TypeParam { name, constraint, span: sp });
        if at_punct(ts, j, Punct::Comma) {
            k = j + 1;
        } else {
            k = j;
            break;
        }
    }
    let k = match expect_punct(ts, k, Punct::RBracket, "']'") { Ok(v) => v, Err(e) => return Err(e) };
    Ok((out, k))
}

fn task_decl(ts: &Vec<Token>, i: usize, docs: Vec<DocClaim>) -> (r: Result<(TaskDecl, usize), ParseError>)
    requires
        at_token(ts@, i as int),
    ensures
        step_ok(ts@, i as int, r, true),
{
    let j = match expect_kw(ts, i, Keyword::Task, "'task'") { Ok(v) => v, Err(e) => return Err(e) };
    let (name, name_span, j) = match expect_ident(ts, j) { Ok(v) => v, Err(e) => return Err(e) };
    let (body, j) = match block(ts, j) { Ok(v) => v, Err(e) => return Err(e) };
    let doc = if docs.len() > 0 {
        Some(DocComment { claims: docs, span: name_span.clone() })
    } else {
        None
    };
    Ok((TaskDecl { name, body, doc, span: name_span }, j))
}

fn chan_decl(ts: &Vec<Token>, i: usize) -> (r: Result<(ChanDecl, usize), ParseError>)
    requires
        at_token(ts@, i as int),
    ensures
        step_ok(ts@, i as int, r, true),
{
    let start = ts[i].span.clone();
    let j = match expect_kw(ts, i, Keyword::Chan, "'chan'") { Ok(v) => v, Err(e) => return Err(e) };
    let (name, _, j) = match expect_ident(ts, j) { Ok(v) => v, Err(e) => return Err(e) };
    let j = match expect_punct(ts, j, Punct::Colon, "':'") { Ok(v) => v, Err(e) => return Err(e) };
    let (chan_name, _, j2) = match expect_ident(ts, j) { Ok(v) => v, Err(e) => return Err(e) };
    if !str_eq(chan_name.as_str(), "Chan") {
        let mut m = String::new();
        push_str(&mut m, "expected 'Chan', found '");
        push_str(&mut m, chan_name.as_str());
        push_char(&mut m, '\'');
        return Err(err_at(ts, j, m));
    }
    let j = match expect_punct(ts, j2, Punct::LBracket, "'['") { Ok(v) => v, Err(e) => return Err(e) };
    let (payload, j) = match ty(ts, j) { Ok(v) => v, Err(e) => return Err(e) };
    let j = match expect_punct(ts, j, Punct::RBracket, "']'") { Ok(v) => v, Err(e) => return Err(e) };
    Ok((ChanDecl { name, payload, span: start }, j))
}

fn extern_decl(ts: &Vec<Token>, i: usize) -> (r: Result<(ExternDecl, usize), ParseError>)
    requires
        at_token(ts@, i as int),
    ensures
        step_ok(ts@, i as int, r, true),
{
    let start = ts[i].span.clone();
    let j = match expect_kw(ts, i, Keyword::Extern, "'extern'") { Ok(v) => v, Err(e) => return Err(e) };
    let j = match expect_kw(ts, j, Keyword::Func, "'func'") { Ok(v) => v, Err(e) => return Err(e) };
    let (name, _, j) = match expect_ident(ts, j) { Ok(v) => v, Err(e) => return Err(e) };
    let (type_params, j) = match type_params(ts, j) { Ok(v) => v, Err(e) => return Err(e) };
    let j = match expect_punct(ts, j, Punct::LParen, "'('") { Ok(v) => v, Err(e) => return Err(e) };
    let (params, j) = match params(ts, j) { Ok(v) => v, Err(e) => return Err(e) };
    let mut j = match expect_punct(ts, j, Punct::RParen, "')'") { Ok(v) => v, Err(e) => return Err(e) };
    let mut transfer_ret = false;
    let mut release: Option<String> = None;
    let mut ret: Option<Type> = None;
    if at_punct(ts, j, Punct::Arrow) {
        j = j + 1;
        if at_kw(ts, j, Keyword::Transfer) {
            transfer_ret = true;
            j = j + 1;
        }
        let (t, j2) = match ty(ts, j) { Ok(v) => v, Err(e) => return Err(e) };
        j = j2;
        proof { lemma_has_next(ts@, j as int); }
        let is_release = match &ts[j].kind {
            TokKind::Ident(n) => str_eq(n.as_str(), "release"),
            _ => false,
        };
        if is_release {
            let (sym, _, j3) = match expect_ident(ts, j + 1) { Ok(v) => v, Err(e) => return Err(e) };
            release = Some(sym);
            j = j3;
        }
        ret = Some(t);
    }
    Ok((ExternDecl { name, type_params, params, ret, transfer_ret, release, span: start }, j))
}

fn record_decl(ts: &Vec<Token>, i: usize) -> (r: Result<(RecordDecl, usize), ParseError>)
    requires
        at_token(ts@, i as int),
    ensures
        step_ok(ts@, i as int, r, true),
{
    let start = ts[i].span.clone();
    let mut j = i;
    let cstruct = at_marker(ts, j, Marker::Cstruct);
    if cstruct {
        j += 1;
    }
    let j = match expect_kw(ts, j, Keyword::Record, "'record'") { Ok(v) => v, Err(e) => return Err(e) };
    let (name, _, j) = match expect_ident(ts, j) { Ok(v) => v, Err(e) => return Err(e) };
    let mut j = match expect_punct(ts, j, Punct::LBrace, "'{'") { Ok(v) => v, Err(e) => return Err(e) };
    let mut fields: Vec<Field> = Vec::new();
    while !at_punct(ts, j, Punct::RBrace)
        invariant
            at_token(ts@, j as int),
            i < j,
        decreases ts.len() - j,
    {
        let (f, j2) = match field(ts, j) { Ok(v) => v, Err(e) => return Err(e) };
        fields.push(f);
        j = j2;
    }
    let close_end = ts[j].span.end;
    let j = j + 1;
    let span = join_span(&start, close_end);
    Ok((RecordDecl { name, cstruct, fields, span }, j))
}

fn enum_decl(ts: &Vec<Token>, i: usize) -> (r: Result<(EnumDecl, usize), ParseError>)
    requires
        at_token(ts@, i as int),
    ensures
        step_ok(ts@, i as int, r, true),
{
    let start = ts[i].span.clone();
    let j = match expect_kw(ts, i, Keyword::Enum, "'enum'") { Ok(v) => v, Err(e) => return Err(e) };
    let (name, _, j) = match expect_ident(ts, j) { Ok(v) => v, Err(e) => return Err(e) };
    let mut j = match expect_punct(ts, j, Punct::LBrace, "'{'") { Ok(v) => v, Err(e) => return Err(e) };
    let mut variants: Vec<Variant> = Vec::new();
    while !at_punct(ts, j, Punct::RBrace)
        invariant
            at_token(ts@, j as int),
            i < j,
        decreases ts.len() - j,
    {
        let (vname, vspan, j2) = match expect_ident(ts, j) { Ok(v) => v, Err(e) => return Err(e) };
        let mut k = match expect_punct(ts, j2, Punct::LParen, "'('") { Ok(v) => v, Err(e) => return Err(e) };
        let mut fields: Vec<Field> = Vec::new();
        if !at_punct(ts, k, Punct::RParen) {
            loop
                invariant
                    at_token(ts@, k as int),
                    j < k,
                decreases ts.len() - k,
            {
                let (f, k2) = match field(ts, k) { Ok(v) => v, Err(e) => return Err(e) };
                fields.push(f);
                if at_punct(ts, k2, Punct::Comma) {
                    k = k2 + 1;
                } else {
                    k = k2;
                    break;
                }
            }
        }
        let k = match expect_punct(ts, k, Punct::RParen, "')'") { Ok(v) => v, Err(e) => return Err(e) };
        variants.push(Variant { name: vname, fields, span: vspan });
        j = k;
    }
    let close_end = ts[j].span.end;
    let j = j + 1;
    let span = join_span(&start, close_end);
    Ok((EnumDecl { name, variants, span }, j))
}

fn params(ts: &Vec<Token>, i: usize) -> (r: Result<(Vec<Param>, usize), ParseError>)
    requires
        at_token(ts@, i as int),
    ensures
        step_ok(ts@, i as int, r, false),
        is_punct(ts@[i as int].kind, Punct::RParen) ==> (r matches Ok((v, j)) && v@.len() == 0 && j == i),
{
    let mut out: Vec<Param> = Vec::new();
    if at_punct(ts, i, Punct::RParen) {
        return Ok((out, i));
    }
    let mut k = i;
    loop
        invariant
            at_token(ts@, k as int),
            i <= k,
            !is_punct(ts@[i as int].kind, Punct::RParen),
        decreases ts.len() - k,
    {
        let mut j = k;
        let mutable = at_kw(ts, j, Keyword::Mut);
        if mutable {
            j += 1;
        }
        let transfer = at_kw(ts, j, Keyword::Transfer);
        if transfer {
            j += 1;
        }
        if mutable && transfer {
            return Err(err_at(ts, j, String::from_str("a parameter cannot be both 'mut' and 'transfer'")));
        }
        let (name, sp, j) = match expect_ident(ts, j) { Ok(v) => v, Err(e) => return Err(e) };
        let j = match expect_punct(ts, j, Punct::Colon, "':'") { Ok(v) => v, Err(e) => return Err(e) };
        let (t, j) = match ty(ts, j) { Ok(v) => v, Err(e) => return Err(e) };
        out.push(Param { mutable, transfer, name, ty: t, span: sp });
        if at_punct(ts, j, Punct::Comma) {
            k = j + 1;
        } else {
            k = j;
            break;
        }
    }
    Ok((out, k))
}

fn field(ts: &Vec<Token>, i: usize) -> (r: Result<(Field, usize), ParseError>)
    requires
        at_token(ts@, i as int),
    ensures
        step_ok(ts@, i as int, r, true),
{
    let (name, sp, j) = match expect_ident(ts, i) { Ok(v) => v, Err(e) => return Err(e) };
    let j = match expect_punct(ts, j, Punct::Colon, "':'") { Ok(v) => v, Err(e) => return Err(e) };
    let (t, j) = match ty(ts, j) { Ok(v) => v, Err(e) => return Err(e) };
    Ok((Field { name, ty: t, span: sp }, j))
}

fn contracts(ts: &Vec<Token>, i: usize) -> (r: Result<(Vec<Contract>, usize), ParseError>)
    requires
        at_token(ts@, i as int),
    ensures
        step_ok(ts@, i as int, r, false),
        !(is_kw(ts@[i as int].kind, Keyword::Pre) || is_kw(ts@[i as int].kind, Keyword::Post) || is_kw(
            ts@[i as int].kind,
            Keyword::Invariant,
        )) ==> (r matches Ok((v, j)) && v@.len() == 0 && j == i),
{
    let mut out: Vec<Contract> = Vec::new();
    let mut k = i;
    loop
        invariant
            at_token(ts@, k as int),
            i <= k,
            k == i ==> out@.len() == 0,
            !(is_kw(ts@[i as int].kind, Keyword::Pre) || is_kw(ts@[i as int].kind, Keyword::Post) || is_kw(
                ts@[i as int].kind,
                Keyword::Invariant,
            )) ==> k == i,
        decreases ts.len() - k,
    {
        if at_kw(ts, k, Keyword::Pre) {
            let (e, j) = match expr(ts, k + 1) { Ok(v) => v, Err(e) => return Err(e) };
            out.push(Contract::Pre(e));
            k = j;
        } else if at_kw(ts, k, Keyword::Post) {
            let (e, j) = match expr(ts, k + 1) { Ok(v) => v, Err(e) => return Err(e) };
            out.push(Contract::Post(e));
            k = j;
        } else if at_kw(ts, k, Keyword::Invariant) {
            let (e, j) = match expr(ts, k + 1) { Ok(v) => v, Err(e) => return Err(e) };
            out.push(Contract::Invariant(e));
            k = j;
        } else {
            break;
        }
    }
    Ok((out, k))
}

// ---- types ----

fn ty(ts: &Vec<Token>, i: usize) -> (r: Result<(Type, usize), ParseError>)
    requires
        at_token(ts@, i as int),
    ensures
        step_ok(ts@, i as int, r, true),
    decreases ts.len() - i, 1nat,
{
    let (first, j) = match nominal(ts, i) { Ok(v) => v, Err(e) => return Err(e) };
    if at_punct(ts, j, Punct::Pipe) {
        let mut members: Vec<Type> = Vec::new();
        members.push(first);
        let mut k = j;
        while at_punct(ts, k, Punct::Pipe)
            invariant
                at_token(ts@, k as int),
                i < k,
            decreases ts.len() - k,
        {
            let (m, k2) = match nominal(ts, k + 1) { Ok(v) => v, Err(e) => return Err(e) };
            members.push(m);
            k = k2;
        }
        Ok((Type::Union(members), k))
    } else {
        Ok((first, j))
    }
}

fn nominal(ts: &Vec<Token>, i: usize) -> (r: Result<(Type, usize), ParseError>)
    requires
        at_token(ts@, i as int),
    ensures
        step_ok(ts@, i as int, r, true),
    decreases ts.len() - i, 0nat,
{
    proof { lemma_has_next(ts@, i as int); }
    match &ts[i].kind {
        TokKind::Ident(name) => {
            let j = i + 1;
            if at_punct(ts, j, Punct::LBracket) {
                let mut args: Vec<Type> = Vec::new();
                let mut k = j + 1;
                loop
                    invariant
                        at_token(ts@, k as int),
                        i < k,
                    decreases ts.len() - k,
                {
                    let (a, k2) = match ty(ts, k) { Ok(v) => v, Err(e) => return Err(e) };
                    args.push(a);
                    if at_punct(ts, k2, Punct::Comma) {
                        k = k2 + 1;
                    } else {
                        k = k2;
                        break;
                    }
                }
                let k = match expect_punct(ts, k, Punct::RBracket, "']'") { Ok(v) => v, Err(e) => return Err(e) };
                Ok((Type::Named(name.clone(), args), k))
            } else {
                Ok((Type::Named(name.clone(), Vec::new()), j))
            }
        }
        _ => {
            let mut m = String::new();
            push_str(&mut m, "expected type name, found ");
            let shown = tok_show(&ts[i].kind);
            push_str(&mut m, shown.as_str());
            Err(err_at(ts, i, m))
        }
    }
}


// ---- blocks and statements ----

fn block(ts: &Vec<Token>, i: usize) -> (r: Result<(Block, usize), ParseError>)
    requires
        at_token(ts@, i as int),
    ensures
        step_ok(ts@, i as int, r, true),
        empty_block_at(ts@, i as int) ==> (r matches Ok((b, j)) && b.stmts@.len() == 0 && j == i + 2),
        call_block_at(ts@, i as int) ==> (r matches Ok((b, j)) && j == i + 6 && b.stmts@.len() == 1 && (
        b.stmts@[0].kind matches StmtKind::Expr(e) && is_call_of(e, ts@, i + 1))),
    decreases ts.len() - i, 40nat,
{
    let start = ts[i].span.clone();
    let mut j = match expect_punct(ts, i, Punct::LBrace, "'{'") { Ok(v) => v, Err(e) => return Err(e) };
    let mut stmts: Vec<Stmt> = Vec::new();
    while !at_punct(ts, j, Punct::RBrace)
        invariant
            at_token(ts@, j as int),
            i < j,
            j == i + 1 ==> stmts@.len() == 0,
            i + 1 < ts@.len() && is_punct(ts@[i + 1].kind, Punct::RBrace) ==> j == i + 1,
            call_block_at(ts@, i as int) ==> (j == i + 1 && stmts@.len() == 0) || (j == i + 5 && stmts@.len() == 1 && (
            stmts@[0].kind matches StmtKind::Expr(e) && is_call_of(e, ts@, i + 1))),
        decreases ts.len() - j,
    {
        if at_eof(ts, j) {
            return Err(err_at(ts, j, String::from_str("unterminated block: missing '}'")));
        }
        let (st, j2) = match statement(ts, j) { Ok(v) => v, Err(e) => return Err(e) };
        stmts.push(st);
        j = j2;
    }
    let close_end = ts[j].span.end;
    let span = join_span(&start, close_end);
    Ok((Block { stmts, span }, j + 1))
}

fn statement(ts: &Vec<Token>, i: usize) -> (r: Result<(Stmt, usize), ParseError>)
    requires
        at_token(ts@, i as int),
    ensures
        step_ok(ts@, i as int, r, true),
        call_at(ts@, i as int) ==> (r matches Ok((st, j)) && j == i + 4 && (st.kind matches StmtKind::Expr(e)
            && is_call_of(e, ts@, i as int))),
    decreases ts.len() - i, 39nat,
{
    let start = ts[i].span.clone();
    let (kind, j) = if at_kw(ts, i, Keyword::Let) {
        let (d, j) = match decl(ts, i, true) { Ok(v) => v, Err(e) => return Err(e) };
        (StmtKind::Decl(d), j)
    } else if at_kw(ts, i, Keyword::Mut) {
        let (d, j) = match decl(ts, i, false) { Ok(v) => v, Err(e) => return Err(e) };
        (StmtKind::Decl(d), j)
    } else if at_kw(ts, i, Keyword::Break) {
        (StmtKind::Break, i + 1)
    } else if at_kw(ts, i, Keyword::Continue) {
        (StmtKind::Continue, i + 1)
    } else {
        let (e, j) = match expr(ts, i) { Ok(v) => v, Err(e) => return Err(e) };
        let is_assign = at_punct(ts, j, Punct::Assign) || at_punct(ts, j, Punct::PlusEq)
            || at_punct(ts, j, Punct::MinusEq) || at_punct(ts, j, Punct::StarEq)
            || at_punct(ts, j, Punct::SlashEq);
        if is_assign {
            let (a, j2) = match assign_tail(ts, j, e) { Ok(v) => v, Err(e) => return Err(e) };
            (StmtKind::Assign(a), j2)
        } else {
            (StmtKind::Expr(e), j)
        }
    };
    let end = ts[j - 1].span.end;
    let span = join_span(&start, end);
    Ok((Stmt { kind, span }, j))
}

fn decl(ts: &Vec<Token>, i: usize, is_let: bool) -> (r: Result<(Decl, usize), ParseError>)
    requires
        at_token(ts@, i as int),
        !(ts@[i as int].kind is Eof),
    ensures
        step_ok(ts@, i as int, r, true),
    decreases ts.len() - i, 38nat,
{
    let start = ts[i].span.clone();
    let (name, _, j) = match expect_ident(ts, i + 1) { Ok(v) => v, Err(e) => return Err(e) };
    let mut j = j;
    let mut ty_opt: Option<Type> = None;
    let mut init: Option<Box<Expr>> = None;
    let mut recv = false;
    let mut chan: Option<String> = None;
    if at_punct(ts, j, Punct::Colon) {
        let (t, j2) = match ty(ts, j + 1) { Ok(v) => v, Err(e) => return Err(e) };
        ty_opt = Some(t);
        j = j2;
    }
    if at_punct(ts, j, Punct::LeftArrow) {
        let k = match expect_kw(ts, j + 1, Keyword::Recv, "'recv'") { Ok(v) => v, Err(e) => return Err(e) };
        let k = match expect_punct(ts, k, Punct::LParen, "'('") { Ok(v) => v, Err(e) => return Err(e) };
        let (ch, _, k) = match expect_ident(ts, k) { Ok(v) => v, Err(e) => return Err(e) };
        let k = match expect_punct(ts, k, Punct::RParen, "')'") { Ok(v) => v, Err(e) => return Err(e) };
        recv = true;
        chan = Some(ch);
        j = k;
    } else if at_punct(ts, j, Punct::Assign) {
        let (e, k) = match expr(ts, j + 1) { Ok(v) => v, Err(e) => return Err(e) };
        init = Some(Box::new(e));
        j = k;
    }
    Ok((Decl { mutable: !is_let, name, ty: ty_opt, init, recv, chan, span: start }, j))
}

fn assign_tail(ts: &Vec<Token>, i: usize, e: Expr) -> (r: Result<(Assign, usize), ParseError>)
    requires
        at_token(ts@, i as int),
        !(ts@[i as int].kind is Eof),
    ensures
        step_ok(ts@, i as int, r, true),
    decreases ts.len() - i, 37nat,
{
    let start = ts[i].span.clone();
    proof { lemma_has_next(ts@, i as int); }
    let op = match &ts[i].kind {
        TokKind::Punct(Punct::PlusEq) => AssignOp::Add,
        TokKind::Punct(Punct::MinusEq) => AssignOp::Sub,
        TokKind::Punct(Punct::StarEq) => AssignOp::Mul,
        TokKind::Punct(Punct::SlashEq) => AssignOp::Div,
        _ => AssignOp::Plain,
    };
    let (value, j) = match expr(ts, i + 1) { Ok(v) => v, Err(e) => return Err(e) };
    let target = match e {
        Expr::Name(n) => AssignTarget::Name(n),
        Expr::Field(base, name) => AssignTarget::Field(base, name),
        _ => {
            return Err(err_at(ts, i, String::from_str("invalid assignment target")));
        }
    };
    Ok((Assign { target, op, value: Box::new(value), span: start }, j))
}

// ---- expressions, one function per precedence level ----

fn expr(ts: &Vec<Token>, i: usize) -> (r: Result<(Expr, usize), ParseError>)
    requires
        at_token(ts@, i as int),
    ensures
        step_ok(ts@, i as int, r, true),
        lone_atom(ts@, i as int) ==> (r matches Ok((e, j)) && j == i + 1 && is_atom_of(e, ts@[i as int])),
        call_at(ts@, i as int) ==> (r matches Ok((e, j)) && j == i + 4 && is_call_of(e, ts@, i as int)),
    decreases ts.len() - i, 30nat,
{
    contract_expr(ts, i)
}

fn binary(op: BinOp, l: Expr, r: Expr) -> (e: Expr)
    ensures
        e == Expr::Binary(op, Box::new(l), Box::new(r)),
{
    Expr::Binary(op, Box::new(l), Box::new(r))
}

fn contract_expr(ts: &Vec<Token>, i: usize) -> (r: Result<(Expr, usize), ParseError>)
    requires
        at_token(ts@, i as int),
    ensures
        step_ok(ts@, i as int, r, true),
        lone_atom(ts@, i as int) ==> (r matches Ok((e, j)) && j == i + 1 && is_atom_of(e, ts@[i as int])),
        call_at(ts@, i as int) ==> (r matches Ok((e, j)) && j == i + 4 && is_call_of(e, ts@, i as int)),
    decreases ts.len() - i, 29nat,
{
    let (left, j) = match or_expr(ts, i) { Ok(v) => v, Err(e) => return Err(e) };
    if at_kw(ts, j, Keyword::Implies) {
        let (right, k) = match contract_expr(ts, j + 1) { Ok(v) => v, Err(e) => return Err(e) };
        Ok((binary(BinOp::Implies, left, right), k))
    } else {
        Ok((left, j))
    }
}

fn or_expr(ts: &Vec<Token>, i: usize) -> (r: Result<(Expr, usize), ParseError>)
    requires
        at_token(ts@, i as int),
    ensures
        step_ok(ts@, i as int, r, true),
        lone_atom(ts@, i as int) ==> (r matches Ok((e, j)) && j == i + 1 && is_atom_of(e, ts@[i as int])),
        call_at(ts@, i as int) ==> (r matches Ok((e, j)) && j == i + 4 && is_call_of(e, ts@, i as int)),
    decreases ts.len() - i, 28nat,
{
    let (mut left, mut j) = match and_expr(ts, i) { Ok(v) => v, Err(e) => return Err(e) };
    while at_kw(ts, j, Keyword::Or)
        invariant
            at_token(ts@, j as int),
            i < j,
            lone_atom(ts@, i as int) ==> j == i + 1 && is_atom_of(left, ts@[i as int]),
            call_at(ts@, i as int) ==> j == i + 4 && is_call_of(left, ts@, i as int),
        decreases ts.len() - j,
    {
        let (right, k) = match and_expr(ts, j + 1) { Ok(v) => v, Err(e) => return Err(e) };
        left = binary(BinOp::Or, left, right);
        j = k;
    }
    Ok((left, j))
}

fn and_expr(ts: &Vec<Token>, i: usize) -> (r: Result<(Expr, usize), ParseError>)
    requires
        at_token(ts@, i as int),
    ensures
        step_ok(ts@, i as int, r, true),
        lone_atom(ts@, i as int) ==> (r matches Ok((e, j)) && j == i + 1 && is_atom_of(e, ts@[i as int])),
        call_at(ts@, i as int) ==> (r matches Ok((e, j)) && j == i + 4 && is_call_of(e, ts@, i as int)),
    decreases ts.len() - i, 27nat,
{
    let (mut left, mut j) = match not_expr(ts, i) { Ok(v) => v, Err(e) => return Err(e) };
    while at_kw(ts, j, Keyword::And)
        invariant
            at_token(ts@, j as int),
            i < j,
            lone_atom(ts@, i as int) ==> j == i + 1 && is_atom_of(left, ts@[i as int]),
            call_at(ts@, i as int) ==> j == i + 4 && is_call_of(left, ts@, i as int),
        decreases ts.len() - j,
    {
        let (right, k) = match not_expr(ts, j + 1) { Ok(v) => v, Err(e) => return Err(e) };
        left = binary(BinOp::And, left, right);
        j = k;
    }
    Ok((left, j))
}

fn not_expr(ts: &Vec<Token>, i: usize) -> (r: Result<(Expr, usize), ParseError>)
    requires
        at_token(ts@, i as int),
    ensures
        step_ok(ts@, i as int, r, true),
        lone_atom(ts@, i as int) ==> (r matches Ok((e, j)) && j == i + 1 && is_atom_of(e, ts@[i as int])),
        call_at(ts@, i as int) ==> (r matches Ok((e, j)) && j == i + 4 && is_call_of(e, ts@, i as int)),
    decreases ts.len() - i, 26nat,
{
    if at_kw(ts, i, Keyword::Not) {
        let (e, j) = match not_expr(ts, i + 1) { Ok(v) => v, Err(e) => return Err(e) };
        Ok((Expr::Unary(UnaryOp::Not, Box::new(e)), j))
    } else {
        cast_expr(ts, i)
    }
}

fn cast_expr(ts: &Vec<Token>, i: usize) -> (r: Result<(Expr, usize), ParseError>)
    requires
        at_token(ts@, i as int),
    ensures
        step_ok(ts@, i as int, r, true),
        lone_atom(ts@, i as int) ==> (r matches Ok((e, j)) && j == i + 1 && is_atom_of(e, ts@[i as int])),
        call_at(ts@, i as int) ==> (r matches Ok((e, j)) && j == i + 4 && is_call_of(e, ts@, i as int)),
    decreases ts.len() - i, 25nat,
{
    let (e, j) = match comparison(ts, i) { Ok(v) => v, Err(e) => return Err(e) };
    if at_kw(ts, j, Keyword::As) {
        let (t, k) = match ty(ts, j + 1) { Ok(v) => v, Err(e) => return Err(e) };
        Ok((Expr::Cast(Box::new(e), t), k))
    } else {
        Ok((e, j))
    }
}

/// The comparison an operator token spells.
pub open spec fn comparison_of(k: TokKind) -> Option<BinOp> {
    match k {
        TokKind::Punct(Punct::EqEq) => Some(BinOp::Eq),
        TokKind::Punct(Punct::NotEq) => Some(BinOp::Ne),
        TokKind::Punct(Punct::Lt) => Some(BinOp::Lt),
        TokKind::Punct(Punct::Le) => Some(BinOp::Le),
        TokKind::Punct(Punct::Gt) => Some(BinOp::Gt),
        TokKind::Punct(Punct::Ge) => Some(BinOp::Ge),
        _ => None,
    }
}

fn comparison_op(ts: &Vec<Token>, j: usize) -> (r: Option<BinOp>)
    requires
        at_token(ts@, j as int),
    ensures
        r is Some ==> j + 1 < ts.len(),
        r == comparison_of(ts@[j as int].kind),
{
    proof { lemma_has_next(ts@, j as int); }
    match &ts[j].kind {
        TokKind::Punct(Punct::EqEq) => Some(BinOp::Eq),
        TokKind::Punct(Punct::NotEq) => Some(BinOp::Ne),
        TokKind::Punct(Punct::Lt) => Some(BinOp::Lt),
        TokKind::Punct(Punct::Le) => Some(BinOp::Le),
        TokKind::Punct(Punct::Gt) => Some(BinOp::Gt),
        TokKind::Punct(Punct::Ge) => Some(BinOp::Ge),
        _ => None,
    }
}

fn comparison(ts: &Vec<Token>, i: usize) -> (r: Result<(Expr, usize), ParseError>)
    requires
        at_token(ts@, i as int),
    ensures
        step_ok(ts@, i as int, r, true),
        lone_atom(ts@, i as int) ==> (r matches Ok((e, j)) && j == i + 1 && is_atom_of(e, ts@[i as int])),
        call_at(ts@, i as int) ==> (r matches Ok((e, j)) && j == i + 4 && is_call_of(e, ts@, i as int)),
    decreases ts.len() - i, 24nat,
{
    let (mut left, mut j) = match additive(ts, i) { Ok(v) => v, Err(e) => return Err(e) };
    loop
        invariant
            at_token(ts@, j as int),
            i < j,
            lone_atom(ts@, i as int) ==> j == i + 1 && is_atom_of(left, ts@[i as int]),
            call_at(ts@, i as int) ==> j == i + 4 && is_call_of(left, ts@, i as int),
        decreases ts.len() - j,
    {
        if let Some(op) = comparison_op(ts, j) {
            let (right, k) = match additive(ts, j + 1) { Ok(v) => v, Err(e) => return Err(e) };
            left = binary(op, left, right);
            j = k;
        } else if at_kw(ts, j, Keyword::Is) {
            // `x is ok|err|none|some`; the word after `is` is consumed
            // whatever it is, unless it is the end of the input.
            let k = j + 1;
            proof { lemma_has_next(ts@, k as int); }
            let op = match &ts[k].kind {
                TokKind::Kw(Keyword::OkKw) => BinOp::IsOk,
                TokKind::Kw(Keyword::ErrKw) => BinOp::IsErr,
                TokKind::Kw(Keyword::NoneKw) => BinOp::IsNone,
                TokKind::Kw(Keyword::SomeKw) => BinOp::IsSome,
                _ => BinOp::IsOk,
            };
            let k = if at_eof(ts, k) { k } else { k + 1 };
            left = binary(op, left, Expr::Bool(true));
            j = k;
        } else {
            break;
        }
    }
    Ok((left, j))
}

fn additive(ts: &Vec<Token>, i: usize) -> (r: Result<(Expr, usize), ParseError>)
    requires
        at_token(ts@, i as int),
    ensures
        step_ok(ts@, i as int, r, true),
        lone_atom(ts@, i as int) ==> (r matches Ok((e, j)) && j == i + 1 && is_atom_of(e, ts@[i as int])),
        call_at(ts@, i as int) ==> (r matches Ok((e, j)) && j == i + 4 && is_call_of(e, ts@, i as int)),
    decreases ts.len() - i, 23nat,
{
    let (mut left, mut j) = match multiplicative(ts, i) { Ok(v) => v, Err(e) => return Err(e) };
    loop
        invariant
            at_token(ts@, j as int),
            i < j,
            lone_atom(ts@, i as int) ==> j == i + 1 && is_atom_of(left, ts@[i as int]),
            call_at(ts@, i as int) ==> j == i + 4 && is_call_of(left, ts@, i as int),
        decreases ts.len() - j,
    {
        let op = if at_punct(ts, j, Punct::Plus) {
            BinOp::Add
        } else if at_punct(ts, j, Punct::Minus) {
            BinOp::Sub
        } else {
            break;
        };
        let (right, k) = match multiplicative(ts, j + 1) { Ok(v) => v, Err(e) => return Err(e) };
        left = binary(op, left, right);
        j = k;
    }
    Ok((left, j))
}

fn multiplicative(ts: &Vec<Token>, i: usize) -> (r: Result<(Expr, usize), ParseError>)
    requires
        at_token(ts@, i as int),
    ensures
        step_ok(ts@, i as int, r, true),
        lone_atom(ts@, i as int) ==> (r matches Ok((e, j)) && j == i + 1 && is_atom_of(e, ts@[i as int])),
        call_at(ts@, i as int) ==> (r matches Ok((e, j)) && j == i + 4 && is_call_of(e, ts@, i as int)),
    decreases ts.len() - i, 22nat,
{
    let (mut left, mut j) = match unary(ts, i) { Ok(v) => v, Err(e) => return Err(e) };
    loop
        invariant
            at_token(ts@, j as int),
            i < j,
            lone_atom(ts@, i as int) ==> j == i + 1 && is_atom_of(left, ts@[i as int]),
            call_at(ts@, i as int) ==> j == i + 4 && is_call_of(left, ts@, i as int),
        decreases ts.len() - j,
    {
        let op = if at_punct(ts, j, Punct::Star) {
            BinOp::Mul
        } else if at_punct(ts, j, Punct::Slash) {
            BinOp::Div
        } else if at_punct(ts, j, Punct::Percent) {
            BinOp::Mod
        } else {
            break;
        };
        let (right, k) = match unary(ts, j + 1) { Ok(v) => v, Err(e) => return Err(e) };
        left = binary(op, left, right);
        j = k;
    }
    Ok((left, j))
}

fn unary(ts: &Vec<Token>, i: usize) -> (r: Result<(Expr, usize), ParseError>)
    requires
        at_token(ts@, i as int),
    ensures
        step_ok(ts@, i as int, r, true),
        lone_atom(ts@, i as int) ==> (r matches Ok((e, j)) && j == i + 1 && is_atom_of(e, ts@[i as int])),
        call_at(ts@, i as int) ==> (r matches Ok((e, j)) && j == i + 4 && is_call_of(e, ts@, i as int)),
    decreases ts.len() - i, 21nat,
{
    if at_punct(ts, i, Punct::Minus) {
        let (e, j) = match unary(ts, i + 1) { Ok(v) => v, Err(e) => return Err(e) };
        Ok((Expr::Unary(UnaryOp::Neg, Box::new(e)), j))
    } else {
        postfix_operand(ts, i, true)
    }
}

/// A postfix chain. `allow_prop` says whether a trailing `?` belongs to it;
/// `await`'s operand does not take one, so `await f()?` is `(await f())?`.
fn postfix_operand(ts: &Vec<Token>, i: usize, allow_prop: bool) -> (r: Result<(Expr, usize), ParseError>)
    requires
        at_token(ts@, i as int),
    ensures
        step_ok(ts@, i as int, r, true),
        lone_atom(ts@, i as int) ==> (r matches Ok((e, j)) && j == i + 1 && is_atom_of(e, ts@[i as int])),
        call_at(ts@, i as int) ==> (r matches Ok((e, j)) && j == i + 4 && is_call_of(e, ts@, i as int)),
    decreases ts.len() - i, 20nat,
{
    let (mut e, mut j) = match primary(ts, i) { Ok(v) => v, Err(e) => return Err(e) };
    loop
        invariant
            at_token(ts@, j as int),
            i < j,
            lone_atom(ts@, i as int) ==> j == i + 1 && is_atom_of(e, ts@[i as int]),
            call_at(ts@, i as int) ==> (j == i + 1 && is_atom_of(e, ts@[i as int])) || (j == i + 4 && is_call_of(
                e,
                ts@,
                i as int,
            )),
        ensures
            at_token(ts@, j as int),
            i < j,
            lone_atom(ts@, i as int) ==> j == i + 1 && is_atom_of(e, ts@[i as int]),
            call_at(ts@, i as int) ==> j == i + 4 && is_call_of(e, ts@, i as int),
        decreases ts.len() - j,
    {
        if at_punct(ts, j, Punct::LParen) {
            proof {
                if call_at(ts@, i as int) {
                    assert(j == i + 1);
                    assert(one_arg_at(ts@, j as int));
                }
            }
            let (a, k) = match args(ts, j) { Ok(v) => v, Err(e) => return Err(e) };
            let ghost prev = e;
            e = Expr::Call(Box::new(e), a);
            proof {
                if call_at(ts@, i as int) {
                    assert(k == i + 4);
                    assert(prev matches Expr::Name(n) && n@ == ts@[i as int].text@);
                    assert(is_call_of(e, ts@, i as int));
                }
            }
            j = k;
        } else if at_punct(ts, j, Punct::Dot) {
            let (name, _, k) = match expect_ident(ts, j + 1) { Ok(v) => v, Err(e) => return Err(e) };
            e = Expr::Field(Box::new(e), name);
            j = k;
        } else if at_punct(ts, j, Punct::LBracket) {
            let (index, k) = match expr(ts, j + 1) { Ok(v) => v, Err(e) => return Err(e) };
            let k = match expect_punct(ts, k, Punct::RBracket, "']'") { Ok(v) => v, Err(e) => return Err(e) };
            e = Expr::Index(Box::new(e), Box::new(index));
            j = k;
        } else if allow_prop && at_punct(ts, j, Punct::Question) {
            e = Expr::Prop(Box::new(e), PropKind::Fallible);
            j = j + 1;
        } else {
            break;
        }
    }
    Ok((e, j))
}

fn args(ts: &Vec<Token>, i: usize) -> (r: Result<(Vec<Expr>, usize), ParseError>)
    requires
        at_token(ts@, i as int),
    ensures
        step_ok(ts@, i as int, r, true),
        one_arg_at(ts@, i as int) ==> (r matches Ok((a, j)) && j == i + 3 && a@.len() == 1 && is_atom_of(
            a@[0],
            ts@[i + 1],
        )),
    decreases ts.len() - i, 19nat,
{
    let mut j = match expect_punct(ts, i, Punct::LParen, "'('") { Ok(v) => v, Err(e) => return Err(e) };
    let mut out: Vec<Expr> = Vec::new();
    if !at_punct(ts, j, Punct::RParen) {
        loop
            invariant_except_break
                one_arg_at(ts@, i as int) ==> j == i + 1 && out@.len() == 0,
            invariant
                at_token(ts@, j as int),
                i < j,
            ensures
                at_token(ts@, j as int),
                i < j,
                one_arg_at(ts@, i as int) ==> j == i + 2 && out@.len() == 1 && is_atom_of(out@[0], ts@[i + 1]),
            decreases ts.len() - j,
        {
            let (e, k) = match expr(ts, j) { Ok(v) => v, Err(e) => return Err(e) };
            out.push(e);
            if at_punct(ts, k, Punct::Comma) {
                j = k + 1;
            } else {
                j = k;
                break;
            }
        }
    }
    let j = match expect_punct(ts, j, Punct::RParen, "')'") { Ok(v) => v, Err(e) => return Err(e) };
    Ok((out, j))
}

/// The first argument of a call-shaped literal (`err(x)`, `some(x)`,
/// `transfer(x)`), or `none` when it has none.
fn first_arg(mut a: Vec<Expr>) -> (e: Expr)
    ensures
        e == if a@.len() > 0 { a@[0] } else { Expr::NoneLit },
{
    if a.len() > 0 {
        a.remove(0)
    } else {
        Expr::NoneLit
    }
}

fn comma_list(ts: &Vec<Token>, i: usize, close: Punct, first: Expr) -> (r: Result<(Vec<Expr>, usize), ParseError>)
    requires
        at_token(ts@, i as int),
    ensures
        step_ok(ts@, i as int, r, false),
        forall|n: int| #[trigger] atoms_then(ts@, i - 1, n, close) && is_atom_of(first, ts@[i - 1]) ==> (r matches Ok((es, j))
            && j == i - 1 + 2 * n - 1 && atoms_of(es@, ts@, i - 1, n)),
    decreases ts.len() - i, 17nat,
{
    let ghost p = i - 1;
    let mut elems: Vec<Expr> = Vec::new();
    elems.push(first);
    let mut j = i;
    while at_punct(ts, j, Punct::Comma)
        invariant
            at_token(ts@, j as int),
            i <= j,
            p == i - 1,
            elems@.len() >= 1,
            forall|n: int| #[trigger] atoms_then(ts@, p, n, close) && is_atom_of(first, ts@[p]) ==> elems@.len() <= n && j == p + 2
                * elems@.len() - 1 && forall|k: int| 0 <= k < elems@.len() ==> is_atom_of(#[trigger] elems@[k], ts@[p + 2 * k]),
        decreases ts.len() - j,
    {
        let ghost m = elems@.len() as int;
        proof {
            assert forall|n: int| #[trigger] atoms_then(ts@, p, n, close) && is_atom_of(first, ts@[p]) implies m < n && lone_atom(
                ts@,
                j + 1,
            ) by {
                if m == n {
                    assert(is_punct(ts@[p + 2 * n - 1].kind, close));
                }
                assert(is_atom_token(ts@[p + 2 * m]));
                if m + 1 < n {
                    assert(is_punct(ts@[p + 2 * m + 1].kind, Punct::Comma));
                }
            }
        }
        let (e, k) = match expr(ts, j + 1) { Ok(v) => v, Err(e) => return Err(e) };
        let ghost before = elems@;
        elems.push(e);
        proof {
            assert forall|n: int| #[trigger] atoms_then(ts@, p, n, close) && is_atom_of(first, ts@[p]) implies elems@.len() <= n && k
                == p + 2 * elems@.len() - 1 && forall|q: int| 0 <= q < elems@.len() ==> is_atom_of(#[trigger] elems@[q], ts@[p + 2 * q]) by {
                assert forall|q: int| 0 <= q < elems@.len() implies is_atom_of(#[trigger] elems@[q], ts@[p + 2 * q]) by {
                    if q < m {
                        assert(elems@[q] == before[q]);
                    }
                }
            }
        }
        j = k;
    }
    proof {
        assert forall|n: int| #[trigger] atoms_then(ts@, p, n, close) && is_atom_of(first, ts@[p]) implies elems@.len() == n by {
            let m = elems@.len() as int;
            if m < n {
                assert(is_punct(ts@[p + 2 * (m - 1) + 1].kind, Punct::Comma));
            }
        }
    }
    Ok((elems, j))
}

/// A token that is an expression on its own: a literal, `true`, `false`,
/// `none`, or a name.
pub open spec fn is_atom_token(t: Token) -> bool {
    match t.kind {
        TokKind::Int(_) | TokKind::Float(_) | TokKind::Char(_) | TokKind::Str(_) | TokKind::RawStr(_)
        | TokKind::Ident(_) => true,
        TokKind::Kw(k) => k == Keyword::True || k == Keyword::False || k == Keyword::NoneKw,
        _ => false,
    }
}

/// A token that ends an expression: a closing bracket, a comma, or the end.
pub open spec fn closes_expr(k: TokKind) -> bool {
    k is Eof || k == TokKind::Punct(Punct::RParen) || k == TokKind::Punct(Punct::RBrace) || k == TokKind::Punct(
        Punct::RBracket,
    ) || k == TokKind::Punct(Punct::Comma)
}

/// An atom at `i` that the next token closes: the whole expression there.
pub open spec fn lone_atom(ts: Seq<Token>, i: int) -> bool {
    0 <= i && i + 1 < ts.len() && is_atom_token(ts[i]) && closes_expr(ts[i + 1].kind)
}

/// `(x)` at `i`: one atom argument in parentheses.
pub open spec fn one_arg_at(ts: Seq<Token>, i: int) -> bool {
    0 <= i && i + 2 < ts.len() && is_punct(ts[i].kind, Punct::LParen) && lone_atom(ts, i + 1) && is_punct(
        ts[i + 2].kind,
        Punct::RParen,
    )
}

/// From `p` on: `n` atoms separated by commas, then `close`.
pub open spec fn atoms_then(ts: Seq<Token>, p: int, n: int, close: Punct) -> bool {
    &&& n >= 1 && 0 <= p && p + 2 * n - 1 < ts.len()
    &&& forall|k: int| 0 <= k < n ==> is_atom_token(#[trigger] ts[p + 2 * k])
    &&& forall|k: int| 0 <= k < n - 1 ==> is_punct(#[trigger] ts[p + 2 * k + 1].kind, Punct::Comma)
    &&& is_punct(ts[p + 2 * n - 1].kind, close)
    &&& (close == Punct::RBracket || close == Punct::RBrace)
}

/// Such a run starts with an atom that the next token closes.
proof fn lemma_atoms_start(ts: Seq<Token>, p: int, close: Punct)
    ensures
        forall|n: int| #[trigger] atoms_then(ts, p, n, close) ==> lone_atom(ts, p) && !is_punct(ts[p].kind, close)
            && !is_punct(ts[p + 1].kind, Punct::Colon),
{
    assert forall|n: int| #[trigger] atoms_then(ts, p, n, close) implies lone_atom(ts, p) && !is_punct(ts[p].kind, close)
        && !is_punct(ts[p + 1].kind, Punct::Colon) by {
        assert(is_atom_token(ts[p + 2 * 0]));
        if n > 1 {
            assert(is_punct(ts[p + 2 * 0 + 1].kind, Punct::Comma));
        }
    }
}

/// `es` are those atoms.
pub open spec fn atoms_of(es: Seq<Expr>, ts: Seq<Token>, p: int, n: int) -> bool {
    es.len() == n && forall|k: int| 0 <= k < n ==> is_atom_of(#[trigger] es[k], ts[p + 2 * k])
}

/// A call of a name with one atom argument at `i`, `f(x)`, that the next
/// token closes.
pub open spec fn call_at(ts: Seq<Token>, i: int) -> bool {
    &&& 0 <= i && i + 4 < ts.len()
    &&& ts[i].kind is Ident
    &&& is_punct(ts[i + 1].kind, Punct::LParen)
    &&& lone_atom(ts, i + 2)
    &&& is_punct(ts[i + 3].kind, Punct::RParen)
    &&& closes_expr(ts[i + 4].kind)
}

/// `e` is that call.
pub open spec fn is_call_of(e: Expr, ts: Seq<Token>, i: int) -> bool {
    e matches Expr::Call(c, a) && (*c matches Expr::Name(n) && n@ == ts[i].text@) && a@.len() == 1 && is_atom_of(
        a@[0],
        ts[i + 2],
    )
}

/// `e` is the expression the atom token `t` stands for (a name is the
/// token's text).
pub open spec fn is_atom_of(e: Expr, t: Token) -> bool {
    match t.kind {
        TokKind::Int(v) => e == Expr::Int(v),
        TokKind::Float(x) => e matches Expr::Float(y) && y@ == x@,
        TokKind::Char(c) => e == Expr::Char(c),
        TokKind::Str(x) => e matches Expr::Str(y) && y@ == x@,
        TokKind::RawStr(x) => e matches Expr::RawStr(y) && y@ == x@,
        TokKind::Kw(k) => (k == Keyword::True && e == Expr::Bool(true)) || (k == Keyword::False && e == Expr::Bool(
            false,
        )) || (k == Keyword::NoneKw && e == Expr::NoneLit),
        TokKind::Ident(_) => e matches Expr::Name(n) && n@ == t.text@,
        _ => false,
    }
}

fn primary(ts: &Vec<Token>, i: usize) -> (r: Result<(Expr, usize), ParseError>)
    requires
        at_token(ts@, i as int),
    ensures
        step_ok(ts@, i as int, r, true),
        is_atom_token(ts@[i as int]) ==> (r matches Ok((e, j)) && j == i + 1 && is_atom_of(e, ts@[i as int])),
        forall|n: int| is_punct(ts@[i as int].kind, Punct::LBracket) && #[trigger] atoms_then(ts@, i + 1, n, Punct::RBracket) ==> (
        r matches Ok((e, j)) && j == i + 2 * n + 1 && (e matches Expr::ListLit(es) && atoms_of(es@, ts@, i + 1, n))),
        forall|n: int| is_punct(ts@[i as int].kind, Punct::LBrace) && #[trigger] atoms_then(ts@, i + 1, n, Punct::RBrace) ==> (
        r matches Ok((e, j)) && j == i + 2 * n + 1 && (e matches Expr::SetLit(es) && atoms_of(es@, ts@, i + 1, n))),
    decreases ts.len() - i, 18nat,
{
    proof { lemma_has_next(ts@, i as int); }
    match &ts[i].kind {
        TokKind::Int(v) => Ok((Expr::Int(*v), i + 1)),
        TokKind::Float(t) => Ok((Expr::Float(t.clone()), i + 1)),
        TokKind::Char(c) => Ok((Expr::Char(*c), i + 1)),
        TokKind::Str(t) => Ok((Expr::Str(t.clone()), i + 1)),
        TokKind::RawStr(t) => Ok((Expr::RawStr(t.clone()), i + 1)),
        TokKind::Kw(Keyword::True) => Ok((Expr::Bool(true), i + 1)),
        TokKind::Kw(Keyword::False) => Ok((Expr::Bool(false), i + 1)),
        TokKind::Kw(Keyword::NoneKw) => Ok((Expr::NoneLit, i + 1)),
        TokKind::Ident(_) => {
            let (name, _, j) = match expect_ident(ts, i) { Ok(v) => v, Err(e) => return Err(e) };
            Ok((Expr::Name(name), j))
        }
        TokKind::Punct(Punct::LBracket) => {
            let mut j = i + 1;
            let mut elems: Vec<Expr> = Vec::new();
            proof {
                lemma_atoms_start(ts@, i + 1, Punct::RBracket);
            }
            if !at_punct(ts, j, Punct::RBracket) {
                let (first, k) = match expr(ts, j) { Ok(v) => v, Err(e) => return Err(e) };
                proof {
                    assert forall|n: int| #[trigger] atoms_then(ts@, i + 1, n, Punct::RBracket) implies atoms_then(
                        ts@,
                        k - 1,
                        n,
                        Punct::RBracket,
                    ) && is_atom_of(first, ts@[k - 1]) by {
                        assert(k == i + 2);
                    }
                }
                let (es, k) = match comma_list(ts, k, Punct::RBracket, first) { Ok(v) => v, Err(e) => return Err(e) };
                elems = es;
                j = k;
            }
            proof {
                assert forall|n: int| #[trigger] atoms_then(ts@, i + 1, n, Punct::RBracket) implies j == i + 2 * n
                    && atoms_of(elems@, ts@, i + 1, n) && is_punct(ts@[j as int].kind, Punct::RBracket) by {
                    assert(is_punct(ts@[i + 1 + 2 * n - 1].kind, Punct::RBracket));
                }
            }
            let j = match expect_punct(ts, j, Punct::RBracket, "']'") { Ok(v) => v, Err(e) => return Err(e) };
            Ok((Expr::ListLit(elems), j))
        }
        TokKind::Punct(Punct::LBrace) => {
            // `{}` is an empty Map or Set; the expected type decides which,
            // so it is written as an empty Map literal that both accept.
            let j = i + 1;
            if at_punct(ts, j, Punct::RBrace) {
                return Ok((Expr::MapLit(Vec::new()), j + 1));
            }
            proof {
                lemma_atoms_start(ts@, i + 1, Punct::RBrace);
            }
            let (first, k) = match expr(ts, j) { Ok(v) => v, Err(e) => return Err(e) };
            if at_punct(ts, k, Punct::Colon) {
                proof {
                    assert forall|n: int| !#[trigger] atoms_then(ts@, i + 1, n, Punct::RBrace) by {
                        if atoms_then(ts@, i + 1, n, Punct::RBrace) {
                            assert(is_atom_token(ts@[i + 1 + 2 * 0]));
                            if n > 1 {
                                assert(is_punct(ts@[i + 1 + 2 * 0 + 1].kind, Punct::Comma));
                            }
                            assert(lone_atom(ts@, i + 1));
                        }
                    }
                }
                let (first_value, k) = match expr(ts, k + 1) { Ok(v) => v, Err(e) => return Err(e) };
                let mut entries: Vec<(Expr, Expr)> = Vec::new();
                entries.push((first, first_value));
                let mut k = k;
                while at_punct(ts, k, Punct::Comma)
                    invariant
                        at_token(ts@, k as int),
                        i < k,
                        !is_atom_token(ts@[i as int]),
                        !is_punct(ts@[i as int].kind, Punct::LBracket),
                        forall|n: int| !#[trigger] atoms_then(ts@, i + 1, n, Punct::RBrace),
                    decreases ts.len() - k,
                {
                    let (key, k2) = match expr(ts, k + 1) { Ok(v) => v, Err(e) => return Err(e) };
                    let k2 = match expect_punct(ts, k2, Punct::Colon, "':'") { Ok(v) => v, Err(e) => return Err(e) };
                    let (value, k3) = match expr(ts, k2) { Ok(v) => v, Err(e) => return Err(e) };
                    entries.push((key, value));
                    k = k3;
                }
                let k = match expect_punct(ts, k, Punct::RBrace, "'}'") { Ok(v) => v, Err(e) => return Err(e) };
                Ok((Expr::MapLit(entries), k))
            } else {
                proof {
                    assert forall|n: int| #[trigger] atoms_then(ts@, i + 1, n, Punct::RBrace) implies atoms_then(
                        ts@,
                        k - 1,
                        n,
                        Punct::RBrace,
                    ) && is_atom_of(first, ts@[k - 1]) by {
                        assert(k == i + 2);
                    }
                }
                let (elems, k) = match comma_list(ts, k, Punct::RBrace, first) { Ok(v) => v, Err(e) => return Err(e) };
                proof {
                    assert forall|n: int| #[trigger] atoms_then(ts@, i + 1, n, Punct::RBrace) implies k == i + 2 * n
                        && atoms_of(elems@, ts@, i + 1, n) && is_punct(ts@[k as int].kind, Punct::RBrace) by {
                        assert(is_punct(ts@[i + 1 + 2 * n - 1].kind, Punct::RBrace));
                    }
                }
                let k = match expect_punct(ts, k, Punct::RBrace, "'}'") { Ok(v) => v, Err(e) => return Err(e) };
                Ok((Expr::SetLit(elems), k))
            }
        }
        TokKind::Punct(Punct::LParen) => {
            let (e, j) = match expr(ts, i + 1) { Ok(v) => v, Err(e) => return Err(e) };
            let j = match expect_punct(ts, j, Punct::RParen, "')'") { Ok(v) => v, Err(e) => return Err(e) };
            Ok((e, j))
        }
        TokKind::Kw(Keyword::OkKw) => {
            let j = match expect_punct(ts, i + 1, Punct::LParen, "'('") { Ok(v) => v, Err(e) => return Err(e) };
            if at_punct(ts, j, Punct::RParen) {
                Ok((Expr::OkOf(None), j + 1))
            } else {
                let (e, k) = match expr(ts, j) { Ok(v) => v, Err(e) => return Err(e) };
                let k = match expect_punct(ts, k, Punct::RParen, "')'") { Ok(v) => v, Err(e) => return Err(e) };
                Ok((Expr::OkOf(Some(Box::new(e))), k))
            }
        }
        TokKind::Kw(Keyword::ErrKw) => {
            let (a, j) = match args(ts, i + 1) { Ok(v) => v, Err(e) => return Err(e) };
            Ok((Expr::ErrOf(Box::new(first_arg(a))), j))
        }
        TokKind::Kw(Keyword::SomeKw) => {
            let (a, j) = match args(ts, i + 1) { Ok(v) => v, Err(e) => return Err(e) };
            Ok((Expr::SomeOf(Box::new(first_arg(a))), j))
        }
        TokKind::Kw(Keyword::Send) => {
            let j = match expect_punct(ts, i + 1, Punct::LParen, "'('") { Ok(v) => v, Err(e) => return Err(e) };
            let (ch, j) = match expr(ts, j) { Ok(v) => v, Err(e) => return Err(e) };
            let j = match expect_punct(ts, j, Punct::Comma, "','") { Ok(v) => v, Err(e) => return Err(e) };
            let (value, j) = match expr(ts, j) { Ok(v) => v, Err(e) => return Err(e) };
            let j = match expect_punct(ts, j, Punct::RParen, "')'") { Ok(v) => v, Err(e) => return Err(e) };
            Ok((Expr::Send(Box::new(ch), Box::new(value)), j))
        }
        TokKind::Kw(Keyword::Transfer) => {
            let (a, j) = match args(ts, i + 1) { Ok(v) => v, Err(e) => return Err(e) };
            Ok((Expr::Transfer(Box::new(first_arg(a))), j))
        }
        TokKind::Kw(Keyword::Await) => {
            let (e, j) = match postfix_operand(ts, i + 1, false) { Ok(v) => v, Err(e) => return Err(e) };
            Ok((Expr::Await(Box::new(e)), j))
        }
        TokKind::Kw(Keyword::Match) => {
            let (subject, j) = match expr(ts, i + 1) { Ok(v) => v, Err(e) => return Err(e) };
            let mut j = match expect_punct(ts, j, Punct::LBrace, "'{'") { Ok(v) => v, Err(e) => return Err(e) };
            let mut arms: Vec<(Pattern, Box<Expr>)> = Vec::new();
            while !at_punct(ts, j, Punct::RBrace)
                invariant
                    at_token(ts@, j as int),
                    i < j,
                    !is_atom_token(ts@[i as int]),
                    !is_punct(ts@[i as int].kind, Punct::LBracket),
                    !is_punct(ts@[i as int].kind, Punct::LBrace),
                decreases ts.len() - j,
            {
                let (pat, k) = match pattern(ts, j) { Ok(v) => v, Err(e) => return Err(e) };
                let k = match expect_punct(ts, k, Punct::Arrow, "'->'") { Ok(v) => v, Err(e) => return Err(e) };
                let (e, k) = match expr(ts, k) { Ok(v) => v, Err(e) => return Err(e) };
                arms.push((pat, Box::new(e)));
                j = k;
            }
            Ok((Expr::Match(Box::new(subject), arms), j + 1))
        }
        TokKind::Kw(Keyword::If) => if_expr(ts, i),
        TokKind::Kw(Keyword::Loop) => {
            let (b, j) = match block(ts, i + 1) { Ok(v) => v, Err(e) => return Err(e) };
            Ok((Expr::Loop(b), j))
        }
        TokKind::Kw(Keyword::For) => {
            let (name, _, j) = match expect_ident(ts, i + 1) { Ok(v) => v, Err(e) => return Err(e) };
            let j = match expect_kw(ts, j, Keyword::In, "'in'") { Ok(v) => v, Err(e) => return Err(e) };
            let (iter, j) = match expr(ts, j) { Ok(v) => v, Err(e) => return Err(e) };
            let (b, j) = match block(ts, j) { Ok(v) => v, Err(e) => return Err(e) };
            Ok((Expr::For(name, Box::new(iter), b), j))
        }
        _ => {
            let mut m = String::new();
            push_str(&mut m, "unexpected ");
            let shown = tok_show(&ts[i].kind);
            push_str(&mut m, shown.as_str());
            push_str(&mut m, " in expression");
            Err(err_at(ts, i, m))
        }
    }
}

fn if_expr(ts: &Vec<Token>, i: usize) -> (r: Result<(Expr, usize), ParseError>)
    requires
        at_token(ts@, i as int),
    ensures
        step_ok(ts@, i as int, r, true),
    decreases ts.len() - i, 16nat,
{
    let j = match expect_kw(ts, i, Keyword::If, "'if'") { Ok(v) => v, Err(e) => return Err(e) };
    let (cond, j) = match expr(ts, j) { Ok(v) => v, Err(e) => return Err(e) };
    let (then_block, j) = match block(ts, j) { Ok(v) => v, Err(e) => return Err(e) };
    let mut elif: Vec<(Box<Expr>, Block)> = Vec::new();
    let mut else_block: Option<Block> = None;
    let mut j = j;
    while at_kw(ts, j, Keyword::Elif)
        invariant
            at_token(ts@, j as int),
            i < j,
        decreases ts.len() - j,
    {
        let (c, k) = match expr(ts, j + 1) { Ok(v) => v, Err(e) => return Err(e) };
        let (b, k) = match block(ts, k) { Ok(v) => v, Err(e) => return Err(e) };
        elif.push((Box::new(c), b));
        j = k;
    }
    if at_kw(ts, j, Keyword::Else) {
        let (b, k) = match block(ts, j + 1) { Ok(v) => v, Err(e) => return Err(e) };
        else_block = Some(b);
        j = k;
    }
    Ok((Expr::If(IfExpr { cond: Box::new(cond), then_block, elif, else_block }), j))
}

fn pattern(ts: &Vec<Token>, i: usize) -> (r: Result<(Pattern, usize), ParseError>)
    requires
        at_token(ts@, i as int),
    ensures
        step_ok(ts@, i as int, r, true),
{
    proof { lemma_has_next(ts@, i as int); }
    match &ts[i].kind {
        TokKind::Punct(Punct::Underscore) => {
            assert(ts@[i as int].kind is Punct);
            assert(!(ts@[i as int].kind is Eof));
            assert(i + 1 < ts.len());
            Ok((Pattern::Wildcard, i + 1))
        }
        TokKind::Kw(Keyword::NoneKw) => Ok((Pattern::NoneLit, i + 1)),
        TokKind::Kw(Keyword::OkKw) => {
            let (names, j) = match pattern_names(ts, i + 1) { Ok(v) => v, Err(e) => return Err(e) };
            Ok((Pattern::Variant(String::from_str("ok"), names), j))
        }
        TokKind::Kw(Keyword::ErrKw) => {
            let (names, j) = match pattern_names(ts, i + 1) { Ok(v) => v, Err(e) => return Err(e) };
            Ok((Pattern::Variant(String::from_str("err"), names), j))
        }
        TokKind::Kw(Keyword::SomeKw) => {
            let (names, j) = match pattern_names(ts, i + 1) { Ok(v) => v, Err(e) => return Err(e) };
            Ok((Pattern::Variant(String::from_str("some"), names), j))
        }
        TokKind::Ident(_) => {
            let (name, _, j) = match expect_ident(ts, i) { Ok(v) => v, Err(e) => return Err(e) };
            if at_punct(ts, j, Punct::LParen) {
                let (names, k) = match pattern_names(ts, j) { Ok(v) => v, Err(e) => return Err(e) };
                Ok((Pattern::Variant(name, names), k))
            } else {
                Ok((Pattern::Name(name), j))
            }
        }
        _ => {
            let mut m = String::new();
            push_str(&mut m, "invalid match pattern, found ");
            let shown = tok_show(&ts[i].kind);
            push_str(&mut m, shown.as_str());
            Err(err_at(ts, i, m))
        }
    }
}

fn pattern_names(ts: &Vec<Token>, i: usize) -> (r: Result<(Vec<String>, usize), ParseError>)
    requires
        at_token(ts@, i as int),
    ensures
        step_ok(ts@, i as int, r, true),
{
    let mut j = match expect_punct(ts, i, Punct::LParen, "'('") { Ok(v) => v, Err(e) => return Err(e) };
    let mut names: Vec<String> = Vec::new();
    if !at_punct(ts, j, Punct::RParen) {
        loop
            invariant
                at_token(ts@, j as int),
                i < j,
            decreases ts.len() - j,
        {
            let (n, _, k) = match expect_ident(ts, j) { Ok(v) => v, Err(e) => return Err(e) };
            names.push(n);
            if at_punct(ts, k, Punct::Comma) {
                j = k + 1;
            } else {
                j = k;
                break;
            }
        }
    }
    let j = match expect_punct(ts, j, Punct::RParen, "')'") { Ok(v) => v, Err(e) => return Err(e) };
    Ok((names, j))
}

} // verus!
