//! The formatter: a comment-preserving pretty-printer.
//!
//! It walks the parsed program and emits a canonical layout, interleaving
//! the comments the token stream drops. Comments are placed by position:
//! before each declaration or statement the printer flushes every comment
//! that starts before it, on its own line at that indentation; a comment on
//! the line where a statement starts (or ends) stays trailing.
use vstd::prelude::*;
use crate::ast::{
    Assign, AssignOp, AssignTarget, BinOp, Block, Contract, Decl, EnumDecl, Expr, FuncDecl, IfExpr, Item,
    Param, Pattern, Program, RecordDecl, Stmt, StmtKind, Type, TypeParam, UnaryOp, Variant,
};
use crate::chars::trim_end;
use crate::lexer::lex_with_comments;
use crate::parser::parse;
use crate::text::{chars_of, concat3, decimal, push_char, push_decimal, push_str};
use crate::token::{Comment, LexError, Span, Token, well_formed_tokens};

verus! {

/// Formats `source`: the canonical rendering, or the lexer's or parser's
/// error as `message at file:line:col`. Nothing is produced for a file that
/// does not parse; a blank file formats to nothing.
pub fn format_source(source: &str, file: &str) -> (r: Result<String, String>)
    requires
        source@.len() < usize::MAX,
    ensures
        r matches Err(m) ==> exists|msg: Seq<char>, s: Span| s.file@ == file@ && m@ == at_text(msg, s),
        crate::lexer::blank_text(source@) ==> (r matches Ok(out) && out@.len() == 0),
        crate::parser::stray_plain_start(source@) ==> r is Err,
{
    let lexed = lex_with_comments(source.to_string(), file.to_string());
    proof {
        if crate::parser::stray_plain_start(source@) {
            if lexed is Ok {
                crate::parser::lemma_stray_plain_start(lexed->Ok_0.0@, source@);
            }
        }
    }
    let ghost g = lexed;
    let r = format_lexed(lexed);
    let ghost gr = r;
    proof {
        if let Err(m) = gr {
            if let Ok((ts, _)) = g {
                let (msg, k) = choose|msg: Seq<char>, k: int| 0 <= k < ts@.len() && m@ == at_text(msg, ts@[k].span);
                assert(ts@[k].span.file@ == file@);
            }
        }
    }
    r
}

/// Formats what the lexer gave: its error as `message at file:line:col`,
/// otherwise what `format_parsed` gives for the parse of its tokens.
pub fn format_lexed(lexed: Result<(Vec<Token>, Vec<Comment>), LexError>) -> (r: Result<String, String>)
    requires
        lexed matches Ok((ts, _)) ==> well_formed_tokens(ts@),
    ensures
        match lexed {
            Err(e) => r matches Err(m) && m@ == at_text(e.message@, e.span),
            Ok((ts, cs)) => {
                &&& r matches Err(m) ==> exists|msg: Seq<char>, k: int| 0 <= k < ts@.len() && m@ == at_text(msg, ts@[k].span)
                &&& ts@.len() == 1 && cs@.len() == 0 ==> (r matches Ok(out) && out@.len() == 0)
                &&& crate::parser::stray_top(ts@[0].kind) ==> r is Err
                &&& crate::parser::simple_funcs_from(ts@, 0) ==> (r matches Ok(out) && in_order(out@, 0, simple_heads(ts@)))
            },
        },
{
    match lexed {
        Err(e) => {
            let m = at(e.message.as_str(), &e.span);
            Err(m)
        }
        Ok((tokens, comments)) => {
            let ghost ts = tokens@;
            let parsed = parse(tokens);
            let ghost g = parsed;
            let r = format_parsed(parsed, comments);
            proof {
                if crate::parser::simple_funcs_from(ts, 0) {
                    if let Ok(p) = g {
                        lemma_simple_heads(ts, p.items@);
                    }
                }
                if let Err(e) = g {
                    let k = choose|k: int| 0 <= k < ts.len() && ts[k].span == e.span;
                    assert(r matches Err(m) && m@ == at_text(e.message@, ts[k].span));
                }
            }
            r
        }
    }
}

/// Formats what the parser gave: its error as `message at file:line:col`,
/// otherwise the program's rendering with the comments placed, in which
/// each declaration's header stands in order; an empty program without
/// comments renders as nothing.
pub fn format_parsed(parsed: Result<Program, crate::parser::ParseError>, comments: Vec<Comment>) -> (r: Result<String, String>)
    ensures
        match parsed {
            Err(e) => r matches Err(m) && m@ == at_text(e.message@, e.span),
            Ok(p) => r matches Ok(out) && (p.items@.len() == 0 && comments@.len() == 0 ==> out@.len() == 0) && in_order(
                out@,
                0,
                lead_texts(p.items@),
            ) && (comments@.len() == 0 && all_flat_funcs(p.items@) ==> out@ == items_text(
                p.items@,
                p.items@.len() as int,
            )),
        },
{
    match parsed {
        Err(e) => Err(at(e.message.as_str(), &e.span)),
        Ok(program) => {
            let p = Printer::new(comments);
            Ok(p.program(&program))
        }
    }
}

/// `message at file:line:col`.
pub open spec fn at_text(message: Seq<char>, span: Span) -> Seq<char> {
    message + " at "@ + span.file@ + ":"@ + decimal(span.start.0 as nat) + ":"@ + decimal(span.start.1 as nat)
}

/// An error message located at the start of `span`.
pub fn at(message: &str, span: &Span) -> (r: String)
    ensures
        r@ == at_text(message@, *span),
{
    let mut s = concat3(message, " at ", span.file.as_str());
    push_str(&mut s, ":");
    push_decimal(&mut s, span.start.0 as u64);
    push_str(&mut s, ":");
    push_decimal(&mut s, span.start.1 as u64);
    s
}

// Operator precedence, lowest to highest.
pub const P_IMPLIES: u8 = 1;
pub const P_OR: u8 = 2;
pub const P_AND: u8 = 3;
pub const P_NOT: u8 = 4;
pub const P_CAST: u8 = 5;
pub const P_CMP: u8 = 6;
pub const P_ADD: u8 = 7;
pub const P_MUL: u8 = 8;
pub const P_UNARY: u8 = 9;
pub const P_POSTFIX: u8 = 10;
pub const P_PRIMARY: u8 = 11;

/// Whether position `a` comes strictly before `b`.
pub open spec fn before_spec(a: (usize, usize), b: (usize, usize)) -> bool {
    a.0 < b.0 || (a.0 == b.0 && a.1 < b.1)
}

pub fn before(a: &(usize, usize), b: &(usize, usize)) -> (r: bool)
    ensures
        r == before_spec(*a, *b),
{
    a.0 < b.0 || (a.0 == b.0 && a.1 < b.1)
}

/// `n` levels of four-space indentation.
pub open spec fn indent_text(n: nat) -> Seq<char> {
    Seq::new(4 * n, |i: int| ' ')
}

pub fn indent_str(indent: usize) -> (s: String)
    ensures
        s@ == indent_text(indent as nat),
{
    let mut s = String::new();
    let mut i: usize = 0;
    while i < indent
        invariant
            i <= indent,
            s@ == indent_text(i as nat),
        decreases indent - i,
    {
        push_str(&mut s, "    ");
        proof {
            reveal_strlit("    ");
            assert(s@ =~= indent_text((i + 1) as nat));
        }
        i += 1;
    }
    s
}

/// One level deeper (saturating at the largest level).
fn deeper(indent: usize) -> (r: usize)
    ensures
        r == if indent < usize::MAX { indent + 1 } else { indent as int },
{
    if indent < usize::MAX {
        indent + 1
    } else {
        indent
    }
}

/// The keyword an `is` test is written with.
pub open spec fn is_kw_spec(op: BinOp) -> Option<Seq<char>> {
    match op {
        BinOp::IsOk => Some("ok"@),
        BinOp::IsErr => Some("err"@),
        BinOp::IsNone => Some("none"@),
        BinOp::IsSome => Some("some"@),
        _ => None,
    }
}

pub fn is_kw(op: &BinOp) -> (r: Option<&'static str>)
    ensures
        match r {
            Some(s) => is_kw_spec(*op) == Some(s@),
            None => is_kw_spec(*op) is None,
        },
{
    match op {
        BinOp::IsOk => Some("ok"),
        BinOp::IsErr => Some("err"),
        BinOp::IsNone => Some("none"),
        BinOp::IsSome => Some("some"),
        _ => None,
    }
}

/// How a binary operator is written.
pub open spec fn binop_text(op: BinOp) -> Seq<char> {
    match op {
        BinOp::Add => "+"@,
        BinOp::Sub => "-"@,
        BinOp::Mul => "*"@,
        BinOp::Div => "/"@,
        BinOp::Mod => "%"@,
        BinOp::Eq => "=="@,
        BinOp::Ne => "!="@,
        BinOp::Lt => "<"@,
        BinOp::Le => "<="@,
        BinOp::Gt => ">"@,
        BinOp::Ge => ">="@,
        BinOp::And => "and"@,
        BinOp::Or => "or"@,
        BinOp::Implies => "implies"@,
        _ => "is"@,
    }
}

pub fn binop_str(op: &BinOp) -> (s: String)
    ensures
        s@ == binop_text(*op),
{
    let t = match op {
        BinOp::Add => "+",
        BinOp::Sub => "-",
        BinOp::Mul => "*",
        BinOp::Div => "/",
        BinOp::Mod => "%",
        BinOp::Eq => "==",
        BinOp::Ne => "!=",
        BinOp::Lt => "<",
        BinOp::Le => "<=",
        BinOp::Gt => ">",
        BinOp::Ge => ">=",
        BinOp::And => "and",
        BinOp::Or => "or",
        BinOp::Implies => "implies",
        BinOp::IsOk | BinOp::IsErr | BinOp::IsNone | BinOp::IsSome => "is",
    };
    t.to_string()
}

/// How tightly a binary operator binds.
pub open spec fn binop_prec_spec(op: BinOp) -> u8 {
    match op {
        BinOp::Implies => P_IMPLIES,
        BinOp::Or => P_OR,
        BinOp::And => P_AND,
        BinOp::Add | BinOp::Sub => P_ADD,
        BinOp::Mul | BinOp::Div | BinOp::Mod => P_MUL,
        _ => P_CMP,
    }
}

pub fn binop_prec(op: &BinOp) -> (p: u8)
    ensures
        p == binop_prec_spec(*op),
        1 <= p <= 8,
{
    match op {
        BinOp::Implies => P_IMPLIES,
        BinOp::Or => P_OR,
        BinOp::And => P_AND,
        BinOp::Eq | BinOp::Ne | BinOp::Lt | BinOp::Le | BinOp::Gt | BinOp::Ge => P_CMP,
        BinOp::IsOk | BinOp::IsErr | BinOp::IsNone | BinOp::IsSome => P_CMP,
        BinOp::Add | BinOp::Sub => P_ADD,
        BinOp::Mul | BinOp::Div | BinOp::Mod => P_MUL,
    }
}

/// How tightly an expression binds: an operator's level, or primary.
pub open spec fn prec_spec(e: Expr) -> u8 {
    match e {
        Expr::Binary(op, _, _) => binop_prec_spec(op),
        Expr::Unary(UnaryOp::Neg, _) => P_UNARY,
        Expr::Unary(UnaryOp::Not, _) => P_NOT,
        Expr::Cast(_, _) => P_CAST,
        Expr::Call(_, _) | Expr::Field(_, _) | Expr::Index(_, _) | Expr::Prop(_, _) => P_POSTFIX,
        _ => P_PRIMARY,
    }
}

pub fn prec_of(e: &Expr) -> (p: u8)
    ensures
        p == prec_spec(*e),
{
    match e {
        Expr::Binary(op, _, _) => {
            if is_kw(op).is_some() {
                P_CMP
            } else {
                binop_prec(op)
            }
        }
        Expr::Unary(UnaryOp::Neg, _) => P_UNARY,
        Expr::Unary(UnaryOp::Not, _) => P_NOT,
        Expr::Cast(_, _) => P_CAST,
        Expr::Call(_, _) | Expr::Field(_, _) | Expr::Index(_, _) | Expr::Prop(_, _) => P_POSTFIX,
        _ => P_PRIMARY,
    }
}

/// How a character is written inside a string or char literal.
pub open spec fn lit_char(c: char, quote: char) -> Seq<char> {
    if c == '\n' {
        seq!['\\', 'n']
    } else if c == '\t' {
        seq!['\\', 't']
    } else if c == '\r' {
        seq!['\\', 'r']
    } else if c == '\\' {
        seq!['\\', '\\']
    } else if c == '"' {
        seq!['\\', '"']
    } else if c == '\'' && quote == '\'' {
        seq!['\\', '\'']
    } else {
        seq![c]
    }
}

pub open spec fn lit_body(s: Seq<char>) -> Seq<char>
    decreases s.len(),
{
    if s.len() == 0 {
        Seq::empty()
    } else {
        lit_body(s.drop_last()) + lit_char(s.last(), '"')
    }
}

fn push_lit_char(out: &mut String, c: char, quote: char)
    ensures
        final(out)@ == old(out)@ + lit_char(c, quote),
{
    if c == '\n' {
        push_char(out, '\\');
        push_char(out, 'n');
    } else if c == '\t' {
        push_char(out, '\\');
        push_char(out, 't');
    } else if c == '\r' {
        push_char(out, '\\');
        push_char(out, 'r');
    } else if c == '\\' {
        push_char(out, '\\');
        push_char(out, '\\');
    } else if c == '"' {
        push_char(out, '\\');
        push_char(out, '"');
    } else if c == '\'' && quote == '\'' {
        push_char(out, '\\');
        push_char(out, '\'');
    } else {
        push_char(out, c);
    }
    assert(final(out)@ =~= old(out)@ + lit_char(c, quote));
}

/// A char literal: the character between single quotes, escaped.
pub fn char_lit(c: char) -> (s: String)
    ensures
        s@ == seq!['\''] + lit_char(c, '\'') + seq!['\''],
{
    let mut s = String::new();
    push_char(&mut s, '\'');
    push_lit_char(&mut s, c, '\'');
    push_char(&mut s, '\'');
    assert(s@ =~= seq!['\''] + lit_char(c, '\'') + seq!['\'']);
    s
}

/// A string literal: the text between double quotes, escaped.
pub fn str_lit(s: &str) -> (out: String)
    ensures
        out@ == seq!['"'] + lit_body(s@) + seq!['"'],
{
    let cs = chars_of(s);
    let mut out = String::new();
    push_char(&mut out, '"');
    let mut i: usize = 0;
    while i < cs.len()
        invariant
            i <= cs.len(),
            cs@ == s@,
            out@ == seq!['"'] + lit_body(cs@.take(i as int)),
        decreases cs.len() - i,
    {
        proof {
            assert(cs@.take(i + 1).drop_last() == cs@.take(i as int));
        }
        push_lit_char(&mut out, cs[i], '"');
        i += 1;
    }
    push_char(&mut out, '"');
    assert(cs@.take(cs.len() as int) == cs@);
    out
}

/// Where an item starts and ends.
pub fn item_bounds(item: &Item) -> (r: ((usize, usize), (usize, usize)))
    ensures
        r == match *item {
            Item::Func(f) => (f.span.start, f.body.span.end),
            Item::Task(t) => (t.span.start, t.body.span.end),
            Item::Chan(c) => (c.span.start, c.span.end),
            Item::Extern(e) => (e.span.start, e.span.end),
            Item::Record(r) => (r.span.start, r.span.end),
            Item::Enum(e) => (e.span.start, e.span.end),
        },
{
    match item {
        Item::Func(f) => (f.span.start, f.body.span.end),
        Item::Task(t) => (t.span.start, t.body.span.end),
        Item::Chan(c) => (c.span.start, c.span.end),
        Item::Extern(e) => (e.span.start, e.span.end),
        Item::Record(r) => (r.span.start, r.span.end),
        Item::Enum(e) => (e.span.start, e.span.end),
    }
}

/// An expression with no `if`, `loop` or `for` inside: it renders without
/// blocks (a `match` puts its arms on lines of their own).
pub open spec fn flat_expr(e: Expr) -> bool
    decreases e,
{
    match e {
        Expr::If(_) | Expr::Loop(_) | Expr::For(_, _, _) => false,
        Expr::Call(f, args) => flat_expr(*f) && {
            proof {
                assert(decreases_to!(args => args@));
            }
            flat_exprs(args@)
        },
        Expr::Field(b, _) => flat_expr(*b),
        Expr::Index(b, i) => flat_expr(*b) && flat_expr(*i),
        Expr::Prop(b, _) => flat_expr(*b),
        Expr::ListLit(xs) => {
            proof {
                assert(decreases_to!(xs => xs@));
            }
            flat_exprs(xs@)
        },
        Expr::SetLit(xs) => {
            proof {
                assert(decreases_to!(xs => xs@));
            }
            flat_exprs(xs@)
        },
        Expr::MapLit(ps) => {
            proof {
                assert(decreases_to!(ps => ps@));
            }
            flat_pairs(ps@)
        },
        Expr::Binary(_, l, r) => flat_expr(*l) && flat_expr(*r),
        Expr::Unary(_, x) => flat_expr(*x),
        Expr::Cast(x, _) => flat_expr(*x),
        Expr::Await(x) => flat_expr(*x),
        Expr::Send(c, v) => flat_expr(*c) && flat_expr(*v),
        Expr::Transfer(x) => flat_expr(*x),
        Expr::OkOf(inner) => match inner {
            Some(x) => flat_expr(*x),
            None => true,
        },
        Expr::ErrOf(x) => flat_expr(*x),
        Expr::SomeOf(x) => flat_expr(*x),
        Expr::Match(subject, arms) => flat_expr(*subject) && {
            proof {
                assert(decreases_to!(arms => arms@));
            }
            flat_arms(arms@)
        },
        _ => true,
    }
}

pub open spec fn flat_exprs(es: Seq<Expr>) -> bool
    decreases es,
{
    if es.len() == 0 {
        true
    } else {
        proof {
            assert(decreases_to!(es => es.subrange(0, es.len() - 1)));
            assert(decreases_to!(es => es[es.len() - 1]));
        }
        flat_exprs(es.drop_last()) && flat_expr(es.last())
    }
}

pub open spec fn flat_pairs(ps: Seq<(Expr, Expr)>) -> bool
    decreases ps,
{
    if ps.len() == 0 {
        true
    } else {
        proof {
            assert(decreases_to!(ps => ps.subrange(0, ps.len() - 1)));
            assert(decreases_to!(ps => ps[ps.len() - 1]));
            assert(decreases_to!(ps[ps.len() - 1] => ps[ps.len() - 1].0));
            assert(decreases_to!(ps[ps.len() - 1] => ps[ps.len() - 1].1));
        }
        flat_pairs(ps.drop_last()) && flat_expr(ps.last().0) && flat_expr(ps.last().1)
    }
}

pub open spec fn flat_arms(arms: Seq<(Pattern, Box<Expr>)>) -> bool
    decreases arms,
{
    if arms.len() == 0 {
        true
    } else {
        proof {
            assert(decreases_to!(arms => arms.subrange(0, arms.len() - 1)));
            assert(decreases_to!(arms => arms[arms.len() - 1]));
            assert(decreases_to!(arms[arms.len() - 1] => arms[arms.len() - 1].1));
        }
        flat_arms(arms.drop_last()) && flat_expr(*arms.last().1)
    }
}

/// Each element of a flat list is flat.
proof fn lemma_flat_exprs_each(es: Seq<Expr>, i: int)
    requires
        flat_exprs(es),
        0 <= i < es.len(),
    ensures
        flat_expr(es[i]),
    decreases es.len(),
{
    if i < es.len() - 1 {
        lemma_flat_exprs_each(es.drop_last(), i);
    }
}

/// Each entry of a flat map literal is flat.
proof fn lemma_flat_pairs_each(ps: Seq<(Expr, Expr)>, i: int)
    requires
        flat_pairs(ps),
        0 <= i < ps.len(),
    ensures
        flat_expr(ps[i].0) && flat_expr(ps[i].1),
    decreases ps.len(),
{
    if i < ps.len() - 1 {
        lemma_flat_pairs_each(ps.drop_last(), i);
    }
}

/// Each arm of a flat `match` is flat.
proof fn lemma_flat_arms_each(arms: Seq<(Pattern, Box<Expr>)>, i: int)
    requires
        flat_arms(arms),
        0 <= i < arms.len(),
    ensures
        flat_expr(*arms[i].1),
    decreases arms.len(),
{
    if i < arms.len() - 1 {
        lemma_flat_arms_each(arms.drop_last(), i);
    }
}

/// One level deeper, as the printer indents (saturating at the largest
/// level).
pub open spec fn deeper_spec(indent: usize) -> usize {
    if indent < usize::MAX {
        (indent + 1) as usize
    } else {
        indent
    }
}

/// How an expression is written where it must bind at least as tightly as
/// `min`: in parentheses when it binds more loosely.
pub open spec fn wrapped_text(e: Expr, indent: usize, min: int) -> Seq<char>
    decreases e, 1nat,
{
    if (prec_spec(e) as int) < min {
        seq!['('] + expr_text(e, indent) + seq![')']
    } else {
        expr_text(e, indent)
    }
}

/// How a flat expression is written at indentation `indent`: literals in
/// their canonical spelling, operators spaced and parenthesised by
/// precedence (`implies` groups to the right, the others to the left),
/// elements separated by `, `, and `match` arms one per line, one level
/// deeper.
pub open spec fn expr_text(e: Expr, indent: usize) -> Seq<char>
    decreases e, 0nat,
{
    match e {
        Expr::Int(v) => decimal(v as nat),
        Expr::Float(t) => t@,
        Expr::Char(c) => seq!['\''] + lit_char(c, '\'') + seq!['\''],
        Expr::Str(t) => seq!['"'] + lit_body(t@) + seq!['"'],
        Expr::RawStr(t) => "r\""@ + t@ + seq!['"'],
        Expr::Bool(b) => if b {
            "true"@
        } else {
            "false"@
        },
        Expr::NoneLit => "none"@,
        Expr::Name(n) => n@,
        Expr::Call(f, args) => {
            proof {
                assert(decreases_to!(args => args@));
            }
            wrapped_text(*f, indent, P_POSTFIX as int) + seq!['('] + list_text(args@, indent) + seq![')']
        },
        Expr::Field(b, n) => wrapped_text(*b, indent, P_POSTFIX as int) + seq!['.'] + n@,
        Expr::Index(b, i) => wrapped_text(*b, indent, P_POSTFIX as int) + seq!['['] + wrapped_text(*i, indent, 0)
            + seq![']'],
        Expr::Prop(b, _) => wrapped_text(*b, indent, P_POSTFIX as int) + seq!['?'],
        Expr::ListLit(xs) => {
            proof {
                assert(decreases_to!(xs => xs@));
            }
            seq!['['] + list_text(xs@, indent) + seq![']']
        },
        Expr::MapLit(ps) => {
            proof {
                assert(decreases_to!(ps => ps@));
            }
            seq!['{'] + pairs_text(ps@, indent) + seq!['}']
        },
        Expr::SetLit(xs) => {
            proof {
                assert(decreases_to!(xs => xs@));
            }
            seq!['{'] + list_text(xs@, indent) + seq!['}']
        },
        Expr::Binary(op, l, r) => match is_kw_spec(op) {
            Some(kw) => wrapped_text(*l, indent, P_CMP as int) + " is "@ + kw,
            None => {
                let prec = binop_prec_spec(op) as int;
                let lmin = if op == BinOp::Implies { prec + 1 } else { prec };
                let rmin = if op == BinOp::Implies { prec } else { prec + 1 };
                wrapped_text(*l, indent, lmin) + seq![' '] + binop_text(op) + seq![' '] + wrapped_text(*r, indent, rmin)
            },
        },
        Expr::Unary(UnaryOp::Neg, x) => seq!['-'] + wrapped_text(*x, indent, P_UNARY as int),
        Expr::Unary(UnaryOp::Not, x) => "not "@ + wrapped_text(*x, indent, P_NOT as int),
        Expr::Cast(x, ty) => wrapped_text(*x, indent, P_CAST as int) + " as "@ + type_text(ty),
        Expr::Await(x) => "await "@ + wrapped_text(*x, indent, 0),
        Expr::Send(c, v) => "send("@ + wrapped_text(*c, indent, 0) + ", "@ + wrapped_text(*v, indent, 0) + seq![')'],
        Expr::Recv(ch) => "recv("@ + ch@ + seq![')'],
        Expr::Transfer(x) => "transfer("@ + wrapped_text(*x, indent, 0) + seq![')'],
        Expr::OkOf(inner) => "ok("@ + match inner {
            Some(x) => wrapped_text(*x, indent, 0),
            None => Seq::empty(),
        } + seq![')'],
        Expr::ErrOf(x) => "err("@ + wrapped_text(*x, indent, 0) + seq![')'],
        Expr::SomeOf(x) => "some("@ + wrapped_text(*x, indent, 0) + seq![')'],
        Expr::Match(subject, arms) => {
            proof {
                assert(decreases_to!(arms => arms@));
            }
            "match "@ + wrapped_text(*subject, indent, 0) + " {\n"@ + arms_text(arms@, deeper_spec(indent))
                + indent_text(indent as nat) + seq!['}']
        },
        _ => Seq::empty(),
    }
}

/// `s` starts with `t`.
pub open spec fn starts_with_seq(s: Seq<char>, t: Seq<char>) -> bool {
    t.len() <= s.len() && s.subrange(0, t.len() as int) == t
}

/// Formatting keeps the grouping of a binary expression, so that reading
/// the text back groups it the same way: operators other than `implies`
/// group to the left, so a right operand that binds no tighter than the
/// operator, and a left operand that binds more loosely, are written in
/// parentheses; `implies` groups to the right, the other way round.
pub proof fn law_binary_operands_keep_grouping(op: BinOp, l: Expr, r: Expr, indent: usize)
    requires
        is_kw_spec(op) is None,
    ensures
        op != BinOp::Implies && prec_spec(r) <= binop_prec_spec(op) ==> ends_with_seq(
            expr_text(Expr::Binary(op, Box::new(l), Box::new(r)), indent),
            seq!['('] + expr_text(r, indent) + seq![')'],
        ),
        op != BinOp::Implies && prec_spec(l) < binop_prec_spec(op) ==> starts_with_seq(
            expr_text(Expr::Binary(op, Box::new(l), Box::new(r)), indent),
            seq!['('] + expr_text(l, indent) + seq![')'],
        ),
        op == BinOp::Implies && prec_spec(l) <= binop_prec_spec(op) ==> starts_with_seq(
            expr_text(Expr::Binary(op, Box::new(l), Box::new(r)), indent),
            seq!['('] + expr_text(l, indent) + seq![')'],
        ),
        op == BinOp::Implies && prec_spec(r) < binop_prec_spec(op) ==> ends_with_seq(
            expr_text(Expr::Binary(op, Box::new(l), Box::new(r)), indent),
            seq!['('] + expr_text(r, indent) + seq![')'],
        ),
{
    let e = Expr::Binary(op, Box::new(l), Box::new(r));
    let t = expr_text(e, indent);
    let prec = binop_prec_spec(op) as int;
    let lmin = if op == BinOp::Implies { prec + 1 } else { prec };
    let rmin = if op == BinOp::Implies { prec } else { prec + 1 };
    let lt = wrapped_text(l, indent, lmin);
    let rt = wrapped_text(r, indent, rmin);
    let mid = seq![' '] + binop_text(op) + seq![' '];
    assert(t == lt + mid + rt);
    assert(t =~= lt + (mid + rt));
    let pr = seq!['('] + expr_text(r, indent) + seq![')'];
    let pl = seq!['('] + expr_text(l, indent) + seq![')'];
    if (prec_spec(r) as int) < rmin {
        assert(rt == pr);
        assert(t.subrange(t.len() - pr.len(), t.len() as int) =~= pr);
    }
    if (prec_spec(l) as int) < lmin {
        assert(lt == pl);
        assert(t.subrange(0, pl.len() as int) =~= pl);
    }
}

/// Formatting keeps the grouping of unary, cast and postfix expressions: an
/// operand that binds more loosely than the operator applied to it is
/// written in parentheses (`-(a + b)`, `(a + b) as Int`, `(a + b).len()`).
pub proof fn law_operands_of_tighter_operators_keep_parentheses(x: Expr, indent: usize, name: String, ty: Type)
    ensures
        prec_spec(x) < P_UNARY ==> starts_with_seq(
            expr_text(Expr::Unary(UnaryOp::Neg, Box::new(x)), indent),
            seq!['-', '('] + expr_text(x, indent) + seq![')'],
        ),
        prec_spec(x) < P_CAST ==> starts_with_seq(
            expr_text(Expr::Cast(Box::new(x), ty), indent),
            seq!['('] + expr_text(x, indent) + seq![')'],
        ),
        prec_spec(x) < P_POSTFIX ==> starts_with_seq(
            expr_text(Expr::Field(Box::new(x), name), indent),
            seq!['('] + expr_text(x, indent) + seq![')'],
        ),
{
    let px = seq!['('] + expr_text(x, indent) + seq![')'];
    if prec_spec(x) < P_UNARY {
        let t = expr_text(Expr::Unary(UnaryOp::Neg, Box::new(x)), indent);
        assert(t == seq!['-'] + px);
        assert(t.subrange(0, (seq!['-', '('] + expr_text(x, indent) + seq![')']).len() as int) =~= seq!['-', '(']
            + expr_text(x, indent) + seq![')']);
    }
    if prec_spec(x) < P_CAST {
        let t = expr_text(Expr::Cast(Box::new(x), ty), indent);
        assert(t == px + " as "@ + type_text(ty));
        assert(t.subrange(0, px.len() as int) =~= px);
    }
    if prec_spec(x) < P_POSTFIX {
        let t = expr_text(Expr::Field(Box::new(x), name), indent);
        assert(t == px + seq!['.'] + name@);
        assert(t.subrange(0, px.len() as int) =~= px);
    }
}

/// Expressions separated by `, `.
pub open spec fn list_text(es: Seq<Expr>, indent: usize) -> Seq<char>
    decreases es, 0nat,
{
    if es.len() == 0 {
        Seq::empty()
    } else {
        proof {
            assert(decreases_to!(es => es.subrange(0, es.len() - 1)));
            assert(decreases_to!(es => es[es.len() - 1]));
        }
        list_text(es.drop_last(), indent) + (if es.len() > 1 { ", "@ } else { Seq::empty() }) + wrapped_text(
            es.last(),
            indent,
            0,
        )
    }
}

/// Map entries `key: value`, separated by `, `.
pub open spec fn pairs_text(ps: Seq<(Expr, Expr)>, indent: usize) -> Seq<char>
    decreases ps, 0nat,
{
    if ps.len() == 0 {
        Seq::empty()
    } else {
        proof {
            assert(decreases_to!(ps => ps.subrange(0, ps.len() - 1)));
            assert(decreases_to!(ps => ps[ps.len() - 1]));
            assert(decreases_to!(ps[ps.len() - 1] => ps[ps.len() - 1].0));
            assert(decreases_to!(ps[ps.len() - 1] => ps[ps.len() - 1].1));
        }
        pairs_text(ps.drop_last(), indent) + (if ps.len() > 1 { ", "@ } else { Seq::empty() }) + wrapped_text(
            ps.last().0,
            indent,
            0,
        ) + ": "@ + wrapped_text(ps.last().1, indent, 0)
    }
}

/// `match` arms, each on its own line at `indent`: `pattern -> body`.
pub open spec fn arms_text(arms: Seq<(Pattern, Box<Expr>)>, indent: usize) -> Seq<char>
    decreases arms, 0nat,
{
    if arms.len() == 0 {
        Seq::empty()
    } else {
        proof {
            assert(decreases_to!(arms => arms.subrange(0, arms.len() - 1)));
            assert(decreases_to!(arms => arms[arms.len() - 1]));
            assert(decreases_to!(arms[arms.len() - 1] => arms[arms.len() - 1].1));
        }
        arms_text(arms.drop_last(), indent) + indent_text(indent as nat) + pattern_text(arms.last().0) + " -> "@
            + wrapped_text(*arms.last().1, indent, 0) + seq!['\n']
    }
}

/// A one-line comment as the printer places it on a line of its own: the
/// indentation and the text without trailing whitespace, or just the line
/// break where nothing is left.
pub open spec fn comment_line_text(text: Seq<char>, indent: usize) -> Seq<char> {
    if trim_end(text).len() == 0 {
        seq!['\n']
    } else {
        indent_text(indent as nat) + trim_end(text) + seq!['\n']
    }
}

/// A comment starting at `cs` trails a construct from `start` to `end`: it
/// starts on the construct's first line, at or after its start, or on its
/// last line, at or after its end.
pub open spec fn trails(cs: (usize, usize), start: (usize, usize), end: (usize, usize)) -> bool {
    (cs.0 == start.0 && !before_spec(cs, start)) || (cs.0 == end.0 && !before_spec(cs, end))
}

/// `s` ends with `t`.
pub open spec fn ends_with_seq(s: Seq<char>, t: Seq<char>) -> bool {
    t.len() <= s.len() && s.subrange(s.len() - t.len(), s.len() as int) == t
}

/// The blank line kept before a construct that starts two or more lines
/// after the last emitted line.
pub open spec fn gap_text(last_line: usize, line: usize) -> Seq<char> {
    if last_line > 0 && line >= last_line + 2 {
        seq!['\n']
    } else {
        Seq::empty()
    }
}

/// A declaration's type parameters in brackets, or nothing.
pub open spec fn type_params_text(ps: Seq<TypeParam>) -> Seq<char> {
    if ps.len() == 0 {
        Seq::<char>::empty()
    } else {
        "["@ + join_with(ps.map_values(|p: TypeParam| type_param_text(p)), ", "@) + "]"@
    }
}

/// A parameter list in parentheses.
pub open spec fn params_text(ps: Seq<Param>) -> Seq<char> {
    "("@ + join_with(ps.map_values(|p: Param| param_text(p)), ", "@) + ")"@
}

/// A function's header up to its contracts or body.
pub open spec fn func_head_text(f: FuncDecl) -> Seq<char> {
    let export = if f.exported { "@export "@ } else { Seq::<char>::empty() };
    let asy = if f.is_async { "async "@ } else { Seq::<char>::empty() };
    export + asy + "func "@ + f.name@ + type_params_text(f.type_params@) + params_text(f.params@) + ret_text(f.ret)
}

/// A declared return type, after an arrow, or nothing.
pub open spec fn ret_text(r: Option<Type>) -> Seq<char> {
    match r {
        Some(t) => " -> "@ + type_text(t),
        None => Seq::<char>::empty(),
    }
}

/// The source line a top-level declaration ends on.
pub open spec fn item_end_line(item: Item) -> usize {
    match item {
        Item::Func(f) => f.body.span.end.0,
        Item::Task(t) => t.body.span.end.0,
        Item::Chan(c) => c.span.end.0,
        Item::Extern(e) => e.span.end.0,
        Item::Record(r) => r.span.end.0,
        Item::Enum(e) => e.span.end.0,
    }
}

/// The line a top-level declaration starts on.
pub open spec fn item_start_line(item: Item) -> usize {
    match item {
        Item::Func(f) => f.span.start.0,
        Item::Task(t) => t.span.start.0,
        Item::Chan(c) => c.span.start.0,
        Item::Extern(e) => e.span.start.0,
        Item::Record(r) => r.span.start.0,
        Item::Enum(e) => e.span.start.0,
    }
}

/// How a declaration's rendering begins: a function's header, `task name {`,
/// a whole channel declaration, `extern func name` with its type parameters
/// and parameters, a record's header, or `enum name {`.
pub open spec fn item_lead_text(item: Item) -> Seq<char> {
    match item {
        Item::Func(f) => func_head_text(f),
        Item::Task(t) => "task "@ + t.name@ + " {\n"@,
        Item::Chan(c) => "chan "@ + c.name@ + ": Chan["@ + type_text(c.payload) + "]"@,
        Item::Extern(e) => "extern func "@ + e.name@ + type_params_text(e.type_params@) + params_text(e.params@),
        Item::Record(r) => record_head_text(r),
        Item::Enum(e) => "enum "@ + e.name@ + " {\n"@,
    }
}

/// A record's header: its marker, keyword and name.
pub open spec fn record_head_text(r: RecordDecl) -> Seq<char> {
    (if r.cstruct { "@cstruct record "@ } else { "record "@ }) + r.name@
}

/// A record's field lines, one level deep: `name: Type`.
pub open spec fn fields_text(fs: Seq<crate::ast::Field>) -> Seq<char>
    decreases fs.len(),
{
    if fs.len() == 0 {
        Seq::empty()
    } else {
        fields_text(fs.drop_last()) + indent_text(1) + fs.last().name@ + ": "@ + type_text(fs.last().ty) + seq!['\n']
    }
}

/// How a variant is written: its name and its fields in parentheses.
pub open spec fn variant_text(v: Variant) -> Seq<char> {
    v.name@ + "("@ + join_with(v.fields@.map_values(|f: crate::ast::Field| field_text(f)), ", "@) + ")"@
}

/// An enum's variant lines, one level deep.
pub open spec fn variants_text(vs: Seq<Variant>) -> Seq<char>
    decreases vs.len(),
{
    if vs.len() == 0 {
        Seq::empty()
    } else {
        variants_text(vs.drop_last()) + indent_text(1) + variant_text(vs.last()) + seq!['\n']
    }
}

/// A binding's keyword and name.
pub open spec fn decl_head_text(d: Decl) -> Seq<char> {
    (if d.mutable { "mut "@ } else { "let "@ }) + d.name@
}

/// A binding whose initializer, if any, renders without blocks.
pub open spec fn decl_flat(d: Decl) -> bool {
    d.recv || match d.init {
        Some(i) => flat_expr(*i),
        None => true,
    }
}

/// How a binding is written: `let x: T = e`, or `let x <- recv(ch)`.
pub open spec fn decl_text(d: Decl, indent: usize) -> Seq<char> {
    let chan = match d.chan {
        Some(c) => c@,
        None => Seq::<char>::empty(),
    };
    let ty = match d.ty {
        Some(t) => ": "@ + type_text(t),
        None => Seq::<char>::empty(),
    };
    let init = match d.init {
        Some(i) => " = "@ + wrapped_text(*i, indent, 0),
        None => Seq::<char>::empty(),
    };
    if d.recv {
        decl_head_text(d) + " <- recv("@ + chan + ")"@
    } else {
        decl_head_text(d) + ty + init
    }
}

/// The spaced operator of an assignment.
pub open spec fn assign_op_text(op: AssignOp) -> Seq<char> {
    match op {
        AssignOp::Plain => " = "@,
        AssignOp::Add => " += "@,
        AssignOp::Sub => " -= "@,
        AssignOp::Mul => " *= "@,
        AssignOp::Div => " /= "@,
    }
}

/// An assignment whose target and value render without blocks.
pub open spec fn assign_flat(a: Assign) -> bool {
    flat_expr(*a.value) && match a.target {
        AssignTarget::Name(_) => true,
        AssignTarget::Field(b, _) => flat_expr(*b),
    }
}

/// How an assignment is written.
pub open spec fn assign_text(a: Assign, indent: usize) -> Seq<char> {
    let target = match a.target {
        AssignTarget::Name(n) => n@,
        AssignTarget::Field(b, f) => wrapped_text(*b, indent, P_POSTFIX as int) + "."@ + f@,
    };
    target + assign_op_text(a.op) + wrapped_text(*a.value, indent, 0)
}

/// How a statement that renders without blocks is written (no indentation,
/// no line break), or `None` where it holds a block.
pub open spec fn stmt_flat_text(s: Stmt, indent: usize) -> Option<Seq<char>> {
    match s.kind {
        StmtKind::Decl(d) => if decl_flat(d) {
            Some(decl_text(d, indent))
        } else {
            None
        },
        StmtKind::Assign(a) => if assign_flat(a) {
            Some(assign_text(a, indent))
        } else {
            None
        },
        StmtKind::Expr(e) => if flat_expr(e) {
            Some(wrapped_text(e, indent, 0))
        } else {
            None
        },
        StmtKind::Break => Some("break"@),
        StmtKind::Continue => Some("continue"@),
    }
}

/// Every statement renders without blocks.
pub open spec fn flat_stmts(ss: Seq<Stmt>, indent: usize) -> bool {
    forall|k: int| 0 <= k < ss.len() ==> stmt_flat_text(#[trigger] ss[k], indent) is Some
}

/// The line of statement `k` of a block whose opening stands on line `l0`:
/// the blank line kept after the previous construct, the indentation, the
/// statement, and the line break.
pub open spec fn stmt_line_text(ss: Seq<Stmt>, k: int, indent: usize, l0: usize) -> Seq<char> {
    let last = if k == 0 {
        l0
    } else {
        ss[k - 1].span.end.0
    };
    gap_text(last, ss[k].span.start.0) + indent_text(indent as nat) + stmt_flat_text(ss[k], indent)->0 + seq!['\n']
}

/// The lines of the first `n` statements of a block opened on line `l0`.
pub open spec fn stmts_text(ss: Seq<Stmt>, n: int, indent: usize, l0: usize) -> Seq<char>
    decreases n,
{
    if n <= 0 {
        Seq::empty()
    } else {
        stmts_text(ss, n - 1, indent, l0) + stmt_line_text(ss, n - 1, indent, l0)
    }
}

/// How a block of statements without blocks is written when no comment
/// falls inside it.
pub open spec fn flat_block_text(b: Block, indent: usize) -> Seq<char> {
    "{\n"@ + stmts_text(b.stmts@, b.stmts@.len() as int, deeper_spec(indent), b.span.start.0) + indent_text(
        indent as nat,
    ) + "}"@
}

/// A function without contracts whose body's statements render without
/// blocks.
pub open spec fn flat_func_item(it: Item) -> bool {
    it matches Item::Func(f) && f.contracts@.len() == 0 && flat_stmts(f.body.stmts@, 1)
}

/// How such a function is written.
pub open spec fn flat_item_text(it: Item) -> Seq<char> {
    match it {
        Item::Func(f) => func_head_text(f) + " "@ + flat_block_text(f.body, 0),
        _ => Seq::empty(),
    }
}

/// Every declaration is such a function.
pub open spec fn all_flat_funcs(items: Seq<Item>) -> bool {
    forall|k: int| 0 <= k < items.len() ==> flat_func_item(#[trigger] items[k])
}

/// The first `n` of a program's functions, as the printer writes them
/// with no comments: one per line block, a blank line kept where the
/// source had a gap.
pub open spec fn items_text(items: Seq<Item>, n: int) -> Seq<char>
    decreases n,
{
    if n <= 0 {
        Seq::empty()
    } else {
        let last = if n == 1 {
            0usize
        } else {
            item_end_line(items[n - 2])
        };
        items_text(items, n - 1) + gap_text(last, item_start_line(items[n - 1])) + flat_item_text(items[n - 1])
            + seq!['\n']
    }
}

/// The source line an `if` ends on: that of its last block.
pub open spec fn if_end_line(ifx: IfExpr) -> usize {
    match ifx.else_block {
        Some(b) => b.span.end.0,
        None => if ifx.elif@.len() > 0 {
            ifx.elif@.last().1.span.end.0
        } else {
            ifx.then_block.span.end.0
        },
    }
}

/// `t` stands at position `q` of `s`.
pub open spec fn occurs_at(s: Seq<char>, q: int, t: Seq<char>) -> bool {
    0 <= q && q + t.len() <= s.len() && s.subrange(q, q + t.len()) == t
}

/// The texts `ts` stand in `s` at the positions `ps`, from `from` on, one
/// after another without overlapping.
pub open spec fn in_order_at(s: Seq<char>, from: int, ts: Seq<Seq<char>>, ps: Seq<int>) -> bool {
    &&& ps.len() == ts.len()
    &&& forall|k: int| 0 <= k < ts.len() ==> occurs_at(s, #[trigger] ps[k], ts[k]) && from <= ps[k]
    &&& forall|k: int| 0 < k < ts.len() ==> ps[k - 1] + ts[k - 1].len() <= #[trigger] ps[k]
}

/// The texts `ts` stand in `s` in order, from `from` on.
pub open spec fn in_order(s: Seq<char>, from: int, ts: Seq<Seq<char>>) -> bool {
    exists|ps: Seq<int>| in_order_at(s, from, ts, ps)
}

/// The headers `func NAME()` of a run of simple functions, in order.
pub open spec fn simple_heads(ts: Seq<Token>) -> Seq<Seq<char>> {
    crate::parser::func_starts(ts, 0).map_values(|st: int| "func "@ + ts[st + 1].text@ + "()"@)
}

/// The declarations parsed from such a run begin with those headers.
proof fn lemma_simple_heads(ts: Seq<Token>, items: Seq<Item>)
    requires
        items.len() == crate::parser::func_starts(ts, 0).len(),
        forall|k: int| 0 <= k < items.len() ==> (#[trigger] items[k] matches Item::Func(f)
            && crate::parser::simple_func_of(f, ts, crate::parser::func_starts(ts, 0)[k])),
    ensures
        lead_texts(items) == simple_heads(ts),
{
    reveal_strlit("(");
    reveal_strlit(")");
    reveal_strlit("()");
    assert forall|k: int| 0 <= k < items.len() implies #[trigger] lead_texts(items)[k] == simple_heads(ts)[k] by {
        let f = items[k]->Func_0;
        assert(items[k] matches Item::Func(g) && g == f);
        assert(f.params@.map_values(|p: Param| param_text(p)) =~= Seq::<Seq<char>>::empty());
        assert(join_with(Seq::<Seq<char>>::empty(), ", "@) == Seq::<char>::empty());
        assert(params_text(f.params@) =~= "()"@);
        assert(type_params_text(f.type_params@) =~= Seq::<char>::empty());
        assert(ret_text(f.ret) =~= Seq::<char>::empty());
        assert(func_head_text(f) =~= "func "@ + f.name@ + "()"@);
    }
    assert(lead_texts(items) =~= simple_heads(ts));
}

/// How each declaration's rendering begins, in order.
pub open spec fn lead_texts(items: Seq<Item>) -> Seq<Seq<char>> {
    items.map_values(|it: Item| item_lead_text(it))
}

/// Texts standing in a text still stand there once it is extended.
proof fn lemma_in_order_grow(s: Seq<char>, s2: Seq<char>, from: int, ts: Seq<Seq<char>>, ps: Seq<int>)
    requires
        in_order_at(s, from, ts, ps),
        s.is_prefix_of(s2),
    ensures
        in_order_at(s2, from, ts, ps),
{
    assert forall|k: int| 0 <= k < ts.len() implies occurs_at(s2, #[trigger] ps[k], ts[k]) && from <= ps[k] by {
        assert(occurs_at(s, ps[k], ts[k]));
        assert(s2.subrange(ps[k], ps[k] + ts[k].len()) =~= s.subrange(ps[k], ps[k] + ts[k].len()));
    }
}

/// The pretty-printer's state: the output so far, the comments and how many
/// have been placed, and the last source line emitted.
struct Printer {
    out: String,
    comments: Vec<Comment>,
    ci: usize,
    last_line: usize,
}

/// A printing step only appends, and places comments in order, each once.
spec fn grows(before: &Printer, after: &Printer) -> bool {
    &&& before.out@.is_prefix_of(after.out@)
    &&& after.comments@ == before.comments@
    &&& before.ci <= after.ci <= after.comments@.len()
}

impl Printer {
    fn new(comments: Vec<Comment>) -> (p: Printer)
        ensures
            p.out@.len() == 0,
            p.comments@ == comments@,
            p.ci == 0,
            p.last_line == 0,
    {
        Printer { out: String::new(), comments: comments, ci: 0, last_line: 0 }
    }

    fn put(&mut self, t: &str)
        requires
            old(self).ci <= old(self).comments@.len(),
        ensures
            final(self).out@ == old(self).out@ + t@,
            final(self).comments@ == old(self).comments@,
            final(self).ci == old(self).ci,
            final(self).last_line == old(self).last_line,
            grows(old(self), final(self)),
    {
        push_str(&mut self.out, t);
    }

    fn put_char(&mut self, c: char)
        requires
            old(self).ci <= old(self).comments@.len(),
        ensures
            final(self).out@ == old(self).out@.push(c),
            final(self).comments@ == old(self).comments@,
            final(self).ci == old(self).ci,
            final(self).last_line == old(self).last_line,
            grows(old(self), final(self)),
    {
        push_char(&mut self.out, c);
    }

    /// Prints the program, then any comments left at the end.
    fn program(self, program: &Program) -> (s: String)
        requires
            self.ci <= self.comments@.len(),
        ensures
            self.out@.is_prefix_of(s@),
            program.items@.len() == 0 && self.ci == self.comments@.len() ==> s@ == self.out@,
            in_order(s@, self.out@.len() as int, lead_texts(program.items@)),
            self.out@.len() == 0 && self.last_line == 0 && self.ci == self.comments@.len() && all_flat_funcs(
                program.items@,
            ) ==> s@ == items_text(program.items@, program.items@.len() as int),
    {
        let ghost leads = lead_texts(program.items@);
        let ghost start = self.out@.len() as int;
        let ghost mut ps: Seq<int> = Seq::empty();
        let mut p = self;
        let mut i: usize = 0;
        while i < program.items.len()
            invariant
                i <= program.items.len(),
                grows(&self, &p),
                program.items@.len() == 0 ==> p == self,
                leads == lead_texts(program.items@),
                start == self.out@.len(),
                in_order_at(p.out@, start, leads.take(i as int), ps),
                ps.len() == i,
                i > 0 ==> ps[i - 1] + leads[i - 1].len() <= p.out@.len(),
                self.out@.len() == 0 && self.last_line == 0 && self.ci == self.comments@.len() && all_flat_funcs(
                    program.items@,
                ) ==> p.out@ == items_text(program.items@, i as int) && p.ci == p.comments@.len() && p.last_line == (if i
                    == 0 {
                    0usize
                } else {
                    item_end_line(program.items@[i - 1])
                }),
            decreases program.items.len() - i,
        {
            let ghost before = p.out@;
            p.emit_item(&program.items[i]);
            proof {
                let x = choose|x: Seq<char>| before.is_prefix_of(x) && (x + item_lead_text(program.items@[i as int])).is_prefix_of(
                    p.out@,
                );
                let t = item_lead_text(program.items@[i as int]);
                assert(leads[i as int] == t);
                assert(p.out@.subrange(x.len() as int, (x.len() + t.len()) as int) =~= t) by {
                    assert forall|k: int| 0 <= k < t.len() implies p.out@[x.len() + k] == t[k] by {
                        assert((x + t)[x.len() + k] == t[k]);
                    }
                }
                lemma_in_order_grow(before, p.out@, start, leads.take(i as int), ps);
                if self.out@.len() == 0 && self.last_line == 0 && self.ci == self.comments@.len() && all_flat_funcs(
                    program.items@,
                ) {
                    assert(flat_func_item(program.items@[i as int]));
                    assert(p.out@ =~= items_text(program.items@, i + 1));
                }
                ps = ps.push(x.len() as int);
                assert(leads.take(i + 1) =~= leads.take(i as int).push(t));
                assert(in_order_at(p.out@, start, leads.take(i + 1), ps));
            }
            i += 1;
        }
        let ghost last = p.out@;
        p.flush_before(&(usize::MAX, usize::MAX), 0);
        proof {
            assert(leads.take(program.items@.len() as int) == leads);
            lemma_in_order_grow(last, p.out@, start, leads, ps);
        }
        p.out
    }

    /// Keeps at most one blank line: one is emitted when the next construct
    /// starts two or more lines after the last emitted line.
    fn blank_if_gap(&mut self, line: usize)
        requires
            old(self).ci <= old(self).comments@.len(),
        ensures
            grows(old(self), final(self)),
            final(self).last_line == old(self).last_line,
            final(self).out@ == if old(self).last_line > 0 && line >= old(self).last_line + 2 {
                old(self).out@.push('\n')
            } else {
                old(self).out@
            },
    {
        if self.last_line > 0 && line >= 2 && self.last_line <= line - 2 {
            self.put_char('\n');
        }
    }

    // ---- comment placement ----

    /// Emits, each on its own line, the comments that start before `pos`.
    fn flush_before(&mut self, pos: &(usize, usize), indent: usize)
        requires
            old(self).ci <= old(self).comments@.len(),
        ensures
            grows(old(self), final(self)),
            final(self).ci == old(self).comments@.len() || !before_spec(
                final(self).comments@[final(self).ci as int].span.start,
                *pos,
            ),
            old(self).ci == old(self).comments@.len() ==> final(self).out@ == old(self).out@ && final(self).last_line
                == old(self).last_line,
    {
        while self.ci < self.comments.len() && before(&self.comments[self.ci].span.start, pos)
            invariant
                grows(old(self), self),
                old(self).ci == old(self).comments@.len() ==> self.out@ == old(self).out@ && self.ci == old(self).ci
                    && self.last_line == old(self).last_line,
            decreases self.comments.len() - self.ci,
        {
            let c = self.comments[self.ci].clone();
            self.ci += 1;
            self.blank_if_gap(c.span.start.0);
            self.emit_comment(&c, indent);
        }
    }

    fn emit_comment(&mut self, c: &Comment, indent: usize)
        requires
            old(self).ci <= old(self).comments@.len(),
        ensures
            grows(old(self), final(self)),
            final(self).ci == old(self).ci,
            final(self).last_line == c.span.end.0,
            final(self).out@.len() > old(self).out@.len() && final(self).out@.last() == '\n',
            !c.text@.contains('\n') ==> final(self).out@ == old(self).out@ + comment_line_text(c.text@, indent),
    {
        let pad = indent_str(indent);
        let text = chars_of(c.text.as_str());
        let ghost no_nl = !c.text@.contains('\n');
        let mut end = text.len();
        proof {
            assert(text@.take(end as int) == text@);
        }
        while end > 0 && crate::chars::is_space(text[end - 1])
            invariant
                end <= text.len(),
                trim_end(text@.take(end as int)) == trim_end(text@),
            decreases end,
        {
            proof {
                assert(text@.take(end as int).last() == text@[end - 1]);
                assert(text@.take(end as int).drop_last() == text@.take(end - 1));
            }
            end -= 1;
        }
        proof {
            if end > 0 {
                assert(text@.take(end as int).last() == text@[end - 1]);
            }
            assert(trim_end(text@.take(end as int)) == text@.take(end as int));
        }
        // one output line per source line (a trailing '\r' dropped)
        let mut line_start: usize = 0;
        let mut first = true;
        while line_start < end
            invariant
                line_start <= end <= text.len(),
                grows(old(self), self),
                self.ci == old(self).ci,
                self.last_line == old(self).last_line,
                first ==> self.out@ == old(self).out@,
                line_start == 0 ==> first,
                no_nl == !text@.contains('\n'),
                text@.take(end as int) == trim_end(text@),
                end > 0 ==> !crate::chars::spec_is_space(text@[end - 1]),
                no_nl ==> (line_start == 0 && first) || (line_start == end && !first && self.out@ == old(self).out@
                    + pad@ + text@.take(end as int)),
            decreases end - line_start,
        {
            let mut j = line_start;
            while j < end && text[j] != '\n'
                invariant
                    line_start <= j <= end,
                    end <= text.len(),
                decreases end - j,
            {
                j += 1;
            }
            proof {
                if no_nl && j < end {
                    assert(text@.contains(text@[j as int]));
                }
            }
            let mut stop = j;
            if stop > line_start && text[stop - 1] == '\r' {
                stop -= 1;
            }
            if !first {
                self.put_char('\n');
            }
            first = false;
            self.put(pad.as_str());
            let ghost mid = self.out@;
            let mut k = line_start;
            while k < stop
                invariant
                    line_start <= k <= stop <= end,
                    end <= text.len(),
                    grows(old(self), self),
                    self.ci == old(self).ci,
                    self.last_line == old(self).last_line,
                    self.out@ == mid + text@.subrange(line_start as int, k as int),
                decreases stop - k,
            {
                self.put_char(text[k]);
                proof {
                    assert(text@.subrange(line_start as int, k + 1) == text@.subrange(line_start as int, k as int).push(
                        text@[k as int],
                    ));
                }
                k += 1;
            }
            proof {
                if no_nl {
                    assert(line_start == 0 && j == end && stop == end);
                    assert(text@.subrange(0, end as int) == text@.take(end as int));
                }
            }
            line_start = if j < end { j + 1 } else { j };
        }
        self.put_char('\n');
        self.last_line = c.span.end.0;
        proof {
            reveal_strlit("\n");
            if no_nl {
                if end == 0 {
                    assert(trim_end(c.text@).len() == 0);
                    assert(self.out@ =~= old(self).out@ + comment_line_text(c.text@, indent));
                } else {
                    assert(trim_end(c.text@).len() > 0);
                    assert(self.out@ =~= old(self).out@ + comment_line_text(c.text@, indent));
                }
            }
        }
    }

    /// Emits the comments that start on the construct's first or last line,
    /// inline, after two spaces (one between several).
    fn flush_trailing(&mut self, start: &(usize, usize), end: &(usize, usize))
        requires
            old(self).ci <= old(self).comments@.len(),
        ensures
            grows(old(self), final(self)),
            final(self).last_line == old(self).last_line,
            forall|k: int| old(self).ci <= k < final(self).ci ==> trails(
                (#[trigger] final(self).comments@[k]).span.start,
                *start,
                *end,
            ),
            final(self).ci == final(self).comments@.len() || !trails(
                final(self).comments@[final(self).ci as int].span.start,
                *start,
                *end,
            ),
            final(self).ci == old(self).ci ==> final(self).out@ == old(self).out@,
            final(self).ci > old(self).ci ==> (old(self).out@ + "  "@).is_prefix_of(final(self).out@),
    {
        let mut first = true;
        proof {
            reveal_strlit("  ");
        }
        while self.ci < self.comments.len()
            invariant
                grows(old(self), self),
                self.last_line == old(self).last_line,
                forall|k: int| old(self).ci <= k < self.ci ==> trails((#[trigger] self.comments@[k]).span.start, *start, *end),
                first <==> self.ci == old(self).ci,
                first ==> self.out@ == old(self).out@,
                !first ==> (old(self).out@ + "  "@).is_prefix_of(self.out@),
            ensures
                grows(old(self), self),
                self.last_line == old(self).last_line,
                forall|k: int| old(self).ci <= k < self.ci ==> trails((#[trigger] self.comments@[k]).span.start, *start, *end),
                first <==> self.ci == old(self).ci,
                first ==> self.out@ == old(self).out@,
                !first ==> (old(self).out@ + "  "@).is_prefix_of(self.out@),
                self.ci == self.comments@.len() || !trails(self.comments@[self.ci as int].span.start, *start, *end),
            decreases self.comments.len() - self.ci,
        {
            let cs = self.comments[self.ci].span.start;
            let on_start = cs.0 == start.0 && !before(&cs, start);
            let on_end = cs.0 == end.0 && !before(&cs, end);
            if !(on_start || on_end) {
                break;
            }
            let c = self.comments[self.ci].clone();
            self.ci += 1;
            let ghost ci_now = self.ci;
            let ghost before = self.out@;
            if first {
                self.put("  ");
                first = false;
            } else {
                self.put_char(' ');
                proof {
                    assert((old(self).out@ + "  "@).is_prefix_of(before));
                    assert(before.is_prefix_of(self.out@));
                }
            }
            let text = chars_of(c.text.as_str());
            let mut e = text.len();
            while e > 0 && crate::chars::is_space(text[e - 1])
                invariant
                    e <= text.len(),
                    self.ci == ci_now,
                    grows(old(self), self),
                    self.last_line == old(self).last_line,
                    forall|k: int| old(self).ci <= k < self.ci ==> trails((#[trigger] self.comments@[k]).span.start, *start, *end),
                    !first && self.ci > old(self).ci,
                    (old(self).out@ + "  "@).is_prefix_of(self.out@),
                decreases e,
            {
                e -= 1;
            }
            let mut k: usize = 0;
            while k < e
                invariant
                    k <= e <= text.len(),
                    grows(old(self), self),
                    self.ci == ci_now,
                    self.last_line == old(self).last_line,
                    forall|k: int| old(self).ci <= k < self.ci ==> trails((#[trigger] self.comments@[k]).span.start, *start, *end),
                    !first && self.ci > old(self).ci,
                    (old(self).out@ + "  "@).is_prefix_of(self.out@),
                decreases e - k,
            {
                self.put_char(text[k]);
                k += 1;
            }
        }
    }

    // ---- top-level ----

    fn emit_item(&mut self, item: &Item)
        requires
            old(self).ci <= old(self).comments@.len(),
        ensures
            grows(old(self), final(self)),
            final(self).last_line == item_end_line(*item),
            final(self).out@.len() > old(self).out@.len() && final(self).out@.last() == '\n',
            old(self).ci == old(self).comments@.len() ==> (old(self).out@ + gap_text(
                old(self).last_line,
                item_start_line(*item),
            ) + item_lead_text(*item)).is_prefix_of(final(self).out@),
            old(self).ci == old(self).comments@.len() && item is Chan ==> final(self).out@ == old(self).out@ + gap_text(
                old(self).last_line,
                item_start_line(*item),
            ) + item_lead_text(*item) + seq!['\n'],
            exists|x: Seq<char>| old(self).out@.is_prefix_of(x) && (x + item_lead_text(*item)).is_prefix_of(
                final(self).out@,
            ),
            old(self).ci == old(self).comments@.len() && flat_func_item(*item) ==> final(self).out@ == old(self).out@
                + gap_text(old(self).last_line, item_start_line(*item)) + flat_item_text(*item) + seq!['\n'],
    {
        let (start, end) = item_bounds(item);
        self.flush_before(&start, 0);
        self.blank_if_gap(start.0);
        let ghost lead = self.out@;
        match item {
            Item::Func(f) => self.emit_func(f),
            Item::Task(t) => self.emit_task(t),
            Item::Chan(c) => self.emit_chan(c),
            Item::Extern(e) => self.emit_extern(e),
            Item::Record(r) => self.emit_record(r),
            Item::Enum(e) => self.emit_enum(e),
        }
        let ghost body = self.out@;
        self.flush_trailing(&start, &end);
        self.put_char('\n');
        self.last_line = end.0;
        proof {
            let lt = item_lead_text(*item);
            if let Item::Record(r) = item {
                {
                    if r.fields@.len() == 0 {
                        assert(body =~= lead + lt + " {}"@);
                    } else {
                        assert((lead + lt + " {\n"@).is_prefix_of(body));
                    }
                    assert((lead + lt).is_prefix_of(body));
                }
            }
            assert((lead + lt).is_prefix_of(body));
            assert(body.is_prefix_of(self.out@));
            assert((lead + lt).is_prefix_of(self.out@));
            assert(old(self).out@.is_prefix_of(lead));
            if old(self).ci == old(self).comments@.len() {
                assert(lead == old(self).out@ + gap_text(old(self).last_line, item_start_line(*item)));
                assert((lead + item_lead_text(*item)).is_prefix_of(body));
                if item is Chan {
                    assert(body == lead + item_lead_text(*item));
                    assert(self.out@ =~= lead + item_lead_text(*item) + seq!['\n']);
                }
                if flat_func_item(*item) {
                    assert(body == lead + flat_item_text(*item));
                    assert(self.out@ =~= lead + flat_item_text(*item) + seq!['\n']);
                }
            }
        }
    }

    fn emit_task(&mut self, t: &crate::ast::TaskDecl)
        requires
            old(self).ci <= old(self).comments@.len(),
        ensures
            grows(old(self), final(self)),
            (old(self).out@ + item_lead_text(Item::Task(*t))).is_prefix_of(final(self).out@),
    {
        proof {
            reveal_strlit("task ");
            reveal_strlit(" {\n");
            reveal_strlit("{\n");
            reveal_strlit(" ");
        }
        self.put("task ");
        self.put(t.name.as_str());
        self.put(" ");
        let ghost spaced = self.out@;
        self.emit_block(&t.body, 0);
        assert(spaced + "{\n"@ =~= old(self).out@ + item_lead_text(Item::Task(*t)));
    }

    fn emit_chan(&mut self, c: &crate::ast::ChanDecl)
        requires
            old(self).ci <= old(self).comments@.len(),
        ensures
            grows(old(self), final(self)),
            final(self).ci == old(self).ci,
            final(self).out@ == old(self).out@ + item_lead_text(Item::Chan(*c)),
    {
        proof {
            reveal_strlit("chan ");
            reveal_strlit(": Chan[");
            reveal_strlit("]");
        }
        self.put("chan ");
        self.put(c.name.as_str());
        self.put(": Chan[");
        let t = type_str(&c.payload);
        self.put(t.as_str());
        self.put("]");
        assert(self.out@ =~= old(self).out@ + item_lead_text(Item::Chan(*c)));
    }

    fn emit_extern(&mut self, e: &crate::ast::ExternDecl)
        requires
            old(self).ci <= old(self).comments@.len(),
        ensures
            grows(old(self), final(self)),
            (old(self).out@ + item_lead_text(Item::Extern(*e))).is_prefix_of(final(self).out@),
    {
        proof {
            reveal_strlit("extern func ");
        }
        self.put("extern func ");
        self.put(e.name.as_str());
        let tp = type_params_str(&e.type_params);
        self.put(tp.as_str());
        let ps = params_str(&e.params);
        self.put(ps.as_str());
        let ghost sig = self.out@;
        assert(sig =~= old(self).out@ + item_lead_text(Item::Extern(*e)));
        match &e.ret {
            Some(ret) => {
                self.put(" -> ");
                if e.transfer_ret {
                    self.put("transfer ");
                }
                let t = type_str(ret);
                self.put(t.as_str());
                match &e.release {
                    Some(sym) => {
                        self.put(" release ");
                        self.put(sym.as_str());
                    }
                    None => {}
                }
            }
            None => {}
        }
    }

    /// A function's header, up to its contracts or body.
    #[verifier::rlimit(80)]
    fn emit_func_head(&mut self, f: &FuncDecl)
        requires
            old(self).ci <= old(self).comments@.len(),
        ensures
            grows(old(self), final(self)),
            final(self).ci == old(self).ci,
            final(self).last_line == old(self).last_line,
            final(self).out@ == old(self).out@ + func_head_text(*f),
    {
        proof {
            reveal_strlit("@export ");
            reveal_strlit("async ");
        }
        if f.exported {
            self.put("@export ");
        }
        let ghost e1 = self.out@;
        assert(e1 == old(self).out@ + (if f.exported { "@export "@ } else { Seq::<char>::empty() }));
        if f.is_async {
            self.put("async ");
        }
        let ghost lead = self.out@;
        assert(lead == e1 + (if f.is_async { "async "@ } else { Seq::<char>::empty() }));
        self.put("func ");
        self.put(f.name.as_str());
        let tp = type_params_str(&f.type_params);
        self.put(tp.as_str());
        let ps = params_str(&f.params);
        self.put(ps.as_str());
        let ghost sig = self.out@;
        assert(sig == lead + "func "@ + f.name@ + type_params_text(f.type_params@) + params_text(f.params@));
        match &f.ret {
            Some(ret) => {
                self.put(" -> ");
                let t = type_str(ret);
                self.put(t.as_str());
                proof {
                    reveal_strlit(" -> ");
                }
            }
            None => {}
        }
        assert(self.out@ =~= sig + ret_text(f.ret));
        assert(self.out@ =~= old(self).out@ + func_head_text(*f));
    }

    fn emit_func(&mut self, f: &FuncDecl)
        requires
            old(self).ci <= old(self).comments@.len(),
        ensures
            grows(old(self), final(self)),
            (old(self).out@ + func_head_text(*f)).is_prefix_of(final(self).out@),
            final(self).out@.last() == '}',
            final(self).last_line == f.body.span.end.0,
            f.contracts@.len() == 0 ==> (old(self).out@ + func_head_text(*f) + " {\n"@).is_prefix_of(final(self).out@),
            f.contracts@.len() == 0 && f.body.stmts@.len() == 0 && old(self).ci == old(self).comments@.len()
                ==> final(self).out@ == old(self).out@ + func_head_text(*f) + " {\n}"@,
            f.contracts@.len() == 0 && flat_stmts(f.body.stmts@, 1) && old(self).ci == old(self).comments@.len()
                ==> final(self).out@ == old(self).out@ + func_head_text(*f) + " "@ + flat_block_text(f.body, 0),
    {
        proof {
            reveal_strlit("@export ");
            reveal_strlit("async ");
            reveal_strlit("func ");
            reveal_strlit(" -> ");
            reveal_strlit(" {\n");
            reveal_strlit(" {\n}");
            reveal_strlit("{\n");
            reveal_strlit("}");
        }
        self.emit_func_head(f);
        let ghost head = self.out@;
        if f.contracts.len() == 0 {
            self.put_char(' ');
            let ghost spaced = self.out@;
            self.emit_block(&f.body, 0);
            proof {
                assert((spaced + "{\n"@) =~= old(self).out@ + func_head_text(*f) + " {\n"@);
                assert(indent_text(0) =~= Seq::<char>::empty());
                if f.body.stmts@.len() == 0 && old(self).ci == old(self).comments@.len() {
                    assert(self.out@ =~= old(self).out@ + func_head_text(*f) + " {\n}"@);
                }
                reveal_strlit(" ");
                assert(deeper_spec(0) == 1);
                if flat_stmts(f.body.stmts@, 1) && old(self).ci == old(self).comments@.len() {
                    assert(self.out@ =~= old(self).out@ + func_head_text(*f) + " "@ + flat_block_text(f.body, 0));
                }
                assert(head.is_prefix_of(self.out@));
                assert(self.out@.last() == self.out@.subrange(self.out@.len() - 1, self.out@.len() as int)[0]);
            }
        } else {
            self.put_char('\n');
            let mut i: usize = 0;
            while i < f.contracts.len()
                invariant
                    i <= f.contracts.len(),
                    grows(old(self), self),
                    head.is_prefix_of(self.out@),
                decreases f.contracts.len() - i,
            {
                let (kw, e) = match &f.contracts[i] {
                    Contract::Pre(e) => ("pre", e),
                    Contract::Post(e) => ("post", e),
                    Contract::Invariant(e) => ("invariant", e),
                };
                let pad = indent_str(1);
                self.put(pad.as_str());
                self.put(kw);
                self.put_char(' ');
                self.emit_expr(e, 1, 0);
                self.put_char('\n');
                i += 1;
            }
            self.emit_block(&f.body, 0);
            proof {
                assert(indent_text(0) =~= Seq::<char>::empty());
                assert(self.out@.last() == self.out@.subrange(self.out@.len() - 1, self.out@.len() as int)[0]);
            }
        }
    }

    fn emit_record(&mut self, r: &RecordDecl)
        requires
            old(self).ci <= old(self).comments@.len(),
        ensures
            grows(old(self), final(self)),
            r.fields@.len() == 0 ==> final(self).out@ == old(self).out@ + record_head_text(*r) + " {}"@
                && final(self).last_line == r.span.start.0,
            r.fields@.len() > 0 ==> (old(self).out@ + record_head_text(*r) + " {\n"@).is_prefix_of(final(self).out@)
                && final(self).out@.last() == '}',
            old(self).ci == old(self).comments@.len() && r.fields@.len() > 0 ==> final(self).out@ == old(self).out@
                + record_head_text(*r) + " {\n"@ + fields_text(r.fields@) + "}"@,
    {
        proof {
            reveal_strlit("@cstruct record ");
            reveal_strlit("record ");
            reveal_strlit(" {}");
            reveal_strlit(" {\n");
            reveal_strlit(": ");
            reveal_strlit("}");
        }
        self.last_line = r.span.start.0;
        if r.cstruct {
            self.put("@cstruct record ");
        } else {
            self.put("record ");
        }
        self.put(r.name.as_str());
        if r.fields.len() == 0 {
            self.put(" {}");
            assert(self.out@ =~= old(self).out@ + record_head_text(*r) + " {}"@);
            return;
        }
        self.put(" {\n");
        let ghost opened = self.out@;
        assert(opened =~= old(self).out@ + record_head_text(*r) + " {\n"@);
        let mut i: usize = 0;
        while i < r.fields.len()
            invariant
                i <= r.fields.len(),
                grows(old(self), self),
                opened.is_prefix_of(self.out@),
                old(self).ci == old(self).comments@.len() ==> self.ci == old(self).ci && self.out@ == opened + fields_text(
                    r.fields@.take(i as int),
                ),
            decreases r.fields.len() - i,
        {
            let f = &r.fields[i];
            self.flush_before(&f.span.start, 1);
            let pad = indent_str(1);
            self.put(pad.as_str());
            self.put(f.name.as_str());
            self.put(": ");
            let t = type_str(&f.ty);
            self.put(t.as_str());
            self.put_char('\n');
            proof {
                assert(r.fields@.take(i + 1).drop_last() == r.fields@.take(i as int));
                assert(r.fields@.take(i + 1).last() == r.fields@[i as int]);
                if old(self).ci == old(self).comments@.len() {
                    assert(self.out@ =~= opened + fields_text(r.fields@.take(i + 1)));
                }
            }
            i += 1;
        }
        self.flush_before(&r.span.end, 1);
        self.put_char('}');
        proof {
            assert(r.fields@.take(r.fields@.len() as int) == r.fields@);
            if old(self).ci == old(self).comments@.len() {
                assert(self.out@ =~= old(self).out@ + record_head_text(*r) + " {\n"@ + fields_text(r.fields@) + "}"@);
            }
        }
    }

    fn emit_enum(&mut self, e: &EnumDecl)
        requires
            old(self).ci <= old(self).comments@.len(),
        ensures
            grows(old(self), final(self)),
            (old(self).out@ + "enum "@ + e.name@ + " {\n"@).is_prefix_of(final(self).out@),
            final(self).out@.last() == '}',
            old(self).ci == old(self).comments@.len() ==> final(self).out@ == old(self).out@ + "enum "@ + e.name@
                + " {\n"@ + variants_text(e.variants@) + "}"@,
    {
        proof {
            reveal_strlit("enum ");
            reveal_strlit(" {\n");
            reveal_strlit("}");
        }
        self.last_line = e.span.start.0;
        self.put("enum ");
        self.put(e.name.as_str());
        self.put(" {\n");
        let ghost opened = self.out@;
        assert(opened =~= old(self).out@ + "enum "@ + e.name@ + " {\n"@);
        let mut i: usize = 0;
        while i < e.variants.len()
            invariant
                i <= e.variants.len(),
                grows(old(self), self),
                opened.is_prefix_of(self.out@),
                old(self).ci == old(self).comments@.len() ==> self.ci == old(self).ci && self.out@ == opened
                    + variants_text(e.variants@.take(i as int)),
            decreases e.variants.len() - i,
        {
            let v = &e.variants[i];
            self.flush_before(&v.span.start, 1);
            let pad = indent_str(1);
            self.put(pad.as_str());
            let vs = variant_str(v);
            self.put(vs.as_str());
            self.put_char('\n');
            proof {
                assert(e.variants@.take(i + 1).drop_last() == e.variants@.take(i as int));
                assert(e.variants@.take(i + 1).last() == e.variants@[i as int]);
                if old(self).ci == old(self).comments@.len() {
                    assert(self.out@ =~= opened + variants_text(e.variants@.take(i + 1)));
                }
            }
            i += 1;
        }
        self.flush_before(&e.span.end, 1);
        self.put_char('}');
        proof {
            assert(e.variants@.take(e.variants@.len() as int) == e.variants@);
            if old(self).ci == old(self).comments@.len() {
                assert(self.out@ =~= old(self).out@ + "enum "@ + e.name@ + " {\n"@ + variants_text(e.variants@) + "}"@);
            }
        }
    }

    // ---- blocks and statements ----

    fn emit_block(&mut self, block: &Block, indent: usize)
        requires
            old(self).ci <= old(self).comments@.len(),
        ensures
            grows(old(self), final(self)),
            final(self).last_line == block.span.end.0,
            (old(self).out@ + "{\n"@).is_prefix_of(final(self).out@),
            ends_with_seq(final(self).out@, indent_text(indent as nat) + "}"@),
            block.stmts@.len() == 0 && old(self).ci == old(self).comments@.len() ==> final(self).out@ == old(self).out@
                + "{\n"@ + indent_text(indent as nat) + "}"@,
            old(self).ci == old(self).comments@.len() && flat_stmts(block.stmts@, deeper_spec(indent)) ==> final(self).out@
                == old(self).out@ + flat_block_text(*block, indent),
        decreases block, 5nat,
    {
        proof {
            reveal_strlit("{\n");
            reveal_strlit("}");
        }
        self.last_line = block.span.start.0;
        self.put("{\n");
        let ghost opened = self.out@;
        let inner = deeper(indent);
        let mut i: usize = 0;
        while i < block.stmts.len()
            invariant
                i <= block.stmts.len(),
                grows(old(self), self),
                opened == old(self).out@ + "{\n"@,
                opened.is_prefix_of(self.out@),
                block.stmts@.len() == 0 ==> self.out@ == opened && self.ci == old(self).ci,
                inner == deeper_spec(indent),
                old(self).ci == old(self).comments@.len() ==> self.ci == old(self).ci,
                old(self).ci == old(self).comments@.len() && flat_stmts(block.stmts@, inner) ==> self.out@ == opened
                    + stmts_text(block.stmts@, i as int, inner, block.span.start.0) && self.last_line == (if i == 0 {
                    block.span.start.0
                } else {
                    block.stmts@[i - 1].span.end.0
                }),
            decreases block.stmts.len() - i,
        {
            let ghost before = self.out@;
            self.emit_stmt(&block.stmts[i], inner);
            proof {
                assert(opened.is_prefix_of(self.out@));
                if old(self).ci == old(self).comments@.len() && flat_stmts(block.stmts@, inner) {
                    assert(stmt_flat_text(block.stmts@[i as int], inner) is Some);
                    assert(self.out@ =~= opened + stmts_text(block.stmts@, i + 1, inner, block.span.start.0));
                }
            }
            i += 1;
        }
        self.flush_before(&block.span.end, inner);
        let ghost flushed = self.out@;
        let pad = indent_str(indent);
        self.put(pad.as_str());
        self.put_char('}');
        self.last_line = block.span.end.0;
        proof {
            assert(self.out@ =~= flushed + (indent_text(indent as nat) + "}"@));
            assert(self.out@.subrange(self.out@.len() - (indent_text(indent as nat) + "}"@).len(), self.out@.len() as int)
                =~= indent_text(indent as nat) + "}"@);
            assert(opened.is_prefix_of(flushed));
            if old(self).ci == old(self).comments@.len() && flat_stmts(block.stmts@, inner) {
                assert(self.out@ =~= old(self).out@ + flat_block_text(*block, indent));
            }
        }
    }

    fn emit_stmt(&mut self, stmt: &Stmt, indent: usize)
        requires
            old(self).ci <= old(self).comments@.len(),
        ensures
            grows(old(self), final(self)),
            final(self).last_line == stmt.span.end.0,
            final(self).out@.len() > old(self).out@.len() && final(self).out@.last() == '\n',
            old(self).ci == old(self).comments@.len() ==> (stmt_flat_text(*stmt, indent) matches Some(t)
                ==> final(self).out@ == old(self).out@ + gap_text(old(self).last_line, stmt.span.start.0)
                + indent_text(indent as nat) + t + seq!['\n']),
        decreases stmt, 4nat,
    {
        proof {
            reveal_strlit("break");
            reveal_strlit("continue");
        }
        self.flush_before(&stmt.span.start, indent);
        self.blank_if_gap(stmt.span.start.0);
        let pad = indent_str(indent);
        self.put(pad.as_str());
        let ghost lead = self.out@;
        match &stmt.kind {
            StmtKind::Decl(d) => self.emit_decl(d, indent),
            StmtKind::Assign(a) => self.emit_assign(a, indent),
            StmtKind::Expr(e) => self.emit_expr(e, indent, 0),
            StmtKind::Break => self.put("break"),
            StmtKind::Continue => self.put("continue"),
        }
        let ghost body = self.out@;
        self.flush_trailing(&stmt.span.start, &stmt.span.end);
        self.put_char('\n');
        self.last_line = stmt.span.end.0;
        proof {
            if old(self).ci == old(self).comments@.len() {
                assert(lead =~= old(self).out@ + gap_text(old(self).last_line, stmt.span.start.0) + indent_text(
                    indent as nat,
                ));
                if stmt_flat_text(*stmt, indent) is Some {
                    assert(body =~= lead + stmt_flat_text(*stmt, indent)->0);
                    assert(self.out@ =~= old(self).out@ + gap_text(old(self).last_line, stmt.span.start.0)
                        + indent_text(indent as nat) + stmt_flat_text(*stmt, indent)->0 + seq!['\n']);
                }
            }
        }
    }

    fn emit_decl(&mut self, d: &Decl, indent: usize)
        requires
            old(self).ci <= old(self).comments@.len(),
        ensures
            grows(old(self), final(self)),
            (old(self).out@ + decl_head_text(*d)).is_prefix_of(final(self).out@),
            decl_flat(*d) ==> final(self).out@ == old(self).out@ + decl_text(*d, indent),
        decreases d, 3nat,
    {
        proof {
            reveal_strlit("mut ");
            reveal_strlit("let ");
            reveal_strlit(" <- recv(");
            reveal_strlit(")");
            reveal_strlit(": ");
            reveal_strlit(" = ");
        }
        if d.mutable {
            self.put("mut ");
        } else {
            self.put("let ");
        }
        self.put(d.name.as_str());
        let ghost head = self.out@;
        assert(head =~= old(self).out@ + decl_head_text(*d));
        if d.recv {
            self.put(" <- recv(");
            match &d.chan {
                Some(c) => self.put(c.as_str()),
                None => {}
            }
            self.put_char(')');
            assert(self.out@ =~= old(self).out@ + decl_text(*d, indent));
            return;
        }
        match &d.ty {
            Some(ty) => {
                self.put(": ");
                let t = type_str(ty);
                self.put(t.as_str());
            }
            None => {}
        }
        let ghost typed = self.out@;
        match &d.init {
            Some(init) => {
                self.put(" = ");
                self.emit_expr(init, indent, 0);
            }
            None => {}
        }
        proof {
            assert(head.is_prefix_of(typed));
            if decl_flat(*d) {
                assert(self.out@ =~= old(self).out@ + decl_text(*d, indent));
            }
        }
    }

    fn emit_assign(&mut self, a: &Assign, indent: usize)
        requires
            old(self).ci <= old(self).comments@.len(),
        ensures
            grows(old(self), final(self)),
            a.target matches AssignTarget::Name(n) ==> (old(self).out@ + n@ + assign_op_text(a.op)).is_prefix_of(
                final(self).out@,
            ),
            assign_flat(*a) ==> final(self).out@ == old(self).out@ + assign_text(*a, indent),
        decreases a, 3nat,
    {
        proof {
            reveal_strlit(" = ");
            reveal_strlit(" += ");
            reveal_strlit(" -= ");
            reveal_strlit(" *= ");
            reveal_strlit(" /= ");
            reveal_strlit(".");
        }
        match &a.target {
            AssignTarget::Name(n) => self.put(n.as_str()),
            AssignTarget::Field(base, name) => {
                self.emit_expr(base, indent, P_POSTFIX);
                self.put_char('.');
                self.put(name.as_str());
            }
        }
        let op = match a.op {
            AssignOp::Plain => " = ",
            AssignOp::Add => " += ",
            AssignOp::Sub => " -= ",
            AssignOp::Mul => " *= ",
            AssignOp::Div => " /= ",
        };
        self.put(op);
        self.emit_expr(&a.value, indent, 0);
        proof {
            if assign_flat(*a) {
                assert(self.out@ =~= old(self).out@ + assign_text(*a, indent));
            }
        }
    }

    // ---- expressions ----

    /// Prints `e`, in parentheses when it binds more loosely than `min`.
    fn emit_expr(&mut self, e: &Expr, indent: usize, min: u8)
        requires
            old(self).ci <= old(self).comments@.len(),
        ensures
            grows(old(self), final(self)),
            prec_spec(*e) < min ==> final(self).out@.len() > old(self).out@.len() && final(self).out@[old(self).out@.len() as int] == '(',
            flat_expr(*e) ==> final(self).out@ == old(self).out@ + wrapped_text(*e, indent, min as int),
        decreases e, 2nat,
    {
        if prec_of(e) < min {
            self.put_char('(');
            let ghost mid = self.out@;
            self.emit_expr_inner(e, indent);
            self.put_char(')');
            proof {
                assert(mid[old(self).out@.len() as int] == '(');
                assert(self.out@[old(self).out@.len() as int] == mid[old(self).out@.len() as int]);
            }
        } else {
            self.emit_expr_inner(e, indent);
        }
    }

    fn emit_list(&mut self, xs: &Vec<Expr>, indent: usize, Ghost(parent): Ghost<Expr>)
        requires
            old(self).ci <= old(self).comments@.len(),
            forall|j: int| 0 <= j < xs.len() ==> decreases_to!(parent => #[trigger] xs@[j]),
        ensures
            grows(old(self), final(self)),
            flat_exprs(xs@) ==> final(self).out@ == old(self).out@ + list_text(xs@, indent),
        decreases parent, 0nat,
    {
        let ghost es = xs@;
        let mut i: usize = 0;
        while i < xs.len()
            invariant
                i <= xs.len(),
                es == xs@,
                forall|j: int| 0 <= j < xs.len() ==> decreases_to!(parent => #[trigger] xs@[j]),
                grows(old(self), self),
                flat_exprs(es) ==> self.out@ == old(self).out@ + list_text(es.take(i as int), indent),
            decreases xs.len() - i,
        {
            proof {
                assert(decreases_to!(parent => xs@[i as int]));
                assert(es.take(i + 1).drop_last() == es.take(i as int));
                assert(es.take(i + 1).last() == es[i as int]);
                if flat_exprs(es) {
                    lemma_flat_exprs_each(es, i as int);
                }
                reveal_strlit(", ");
            }
            let ghost before = self.out@;
            if i > 0 {
                self.put(", ");
            }
            self.emit_expr(&xs[i], indent, 0);
            proof {
                if flat_exprs(es) {
                    assert(self.out@ =~= old(self).out@ + list_text(es.take(i + 1), indent));
                }
            }
            i += 1;
        }
        proof {
            assert(es.take(es.len() as int) == es);
        }
    }

    #[verifier::rlimit(40)]
    fn emit_expr_inner(&mut self, e: &Expr, indent: usize)
        requires
            old(self).ci <= old(self).comments@.len(),
        ensures
            grows(old(self), final(self)),
            flat_expr(*e) ==> final(self).out@ == old(self).out@ + expr_text(*e, indent),
            e matches Expr::If(ifx) ==> {
                &&& (old(self).out@ + "if "@).is_prefix_of(final(self).out@)
                &&& flat_expr(*ifx.cond) ==> (old(self).out@ + "if "@ + wrapped_text(*ifx.cond, indent, 0) + " {\n"@).is_prefix_of(
                    final(self).out@,
                )
                &&& ends_with_seq(final(self).out@, indent_text(indent as nat) + "}"@)
            },
            e matches Expr::Loop(b) ==> {
                &&& (old(self).out@ + "loop {\n"@).is_prefix_of(final(self).out@)
                &&& ends_with_seq(final(self).out@, indent_text(indent as nat) + "}"@)
                &&& b.stmts@.len() == 0 && old(self).ci == old(self).comments@.len() ==> final(self).out@ == old(self).out@
                    + "loop {\n"@ + indent_text(indent as nat) + "}"@
            },
            e matches Expr::For(x, it, b) ==> {
                &&& flat_expr(**it) ==> (old(self).out@ + "for "@ + x@ + " in "@ + wrapped_text(**it, indent, 0) + " {\n"@).is_prefix_of(
                    final(self).out@,
                )
                &&& ends_with_seq(final(self).out@, indent_text(indent as nat) + "}"@)
            },
        decreases e, 1nat,
    {
        let ghost start = self.out@;
        match e {
            Expr::Int(v) => {
                push_decimal_to(self, *v);
                proof {
                    if flat_expr(*e) {
                        assert(self.out@ =~= start + expr_text(*e, indent));
                    }
                }
            }
            Expr::Float(text) => {
                self.put(text.as_str());
                proof {
                    if flat_expr(*e) {
                        assert(self.out@ =~= start + expr_text(*e, indent));
                    }
                }
            }
            Expr::Char(c) => {
                let s = char_lit(*c);
                self.put(s.as_str());
                proof {
                    if flat_expr(*e) {
                        assert(self.out@ =~= start + expr_text(*e, indent));
                    }
                }
            }
            Expr::Str(s) => {
                let t = str_lit(s.as_str());
                self.put(t.as_str());
                proof {
                    if flat_expr(*e) {
                        assert(self.out@ =~= start + expr_text(*e, indent));
                    }
                }
            }
            Expr::RawStr(s) => {
                self.put("r\"");
                self.put(s.as_str());
                self.put_char('"');
                proof {
                    if flat_expr(*e) {
                        assert(self.out@ =~= start + expr_text(*e, indent));
                    }
                }
            }
            Expr::Bool(b) => {
                self.put(if *b { "true" } else { "false" });
                proof {
                    if flat_expr(*e) {
                        assert(self.out@ =~= start + expr_text(*e, indent));
                    }
                }
            }
            Expr::NoneLit => {
                self.put("none");
                proof {
                    if flat_expr(*e) {
                        assert(self.out@ =~= start + expr_text(*e, indent));
                    }
                }
            }
            Expr::Name(n) => {
                self.put(n.as_str());
                proof {
                    if flat_expr(*e) {
                        assert(self.out@ =~= start + expr_text(*e, indent));
                    }
                }
            }
            Expr::Call(f, args) => {
                self.emit_expr(f, indent, P_POSTFIX);
                self.put_char('(');
                proof {
                    assert forall|j: int| 0 <= j < args.len() implies decreases_to!(*e => #[trigger] args@[j]) by {
                        assert(decreases_to!(*e => (*e)->Call_1));
                        assert(decreases_to!(*args => args[j]));
                    }
                }
                self.emit_list(args, indent, Ghost(*e));
                self.put_char(')');
                proof {
                    if flat_expr(*e) {
                        assert(self.out@ =~= start + expr_text(*e, indent));
                    }
                }
            }
            Expr::Field(base, name) => {
                self.emit_expr(base, indent, P_POSTFIX);
                self.put_char('.');
                self.put(name.as_str());
                proof {
                    if flat_expr(*e) {
                        assert(self.out@ =~= start + expr_text(*e, indent));
                    }
                }
            }
            Expr::Index(base, idx) => {
                self.emit_expr(base, indent, P_POSTFIX);
                self.put_char('[');
                self.emit_expr(idx, indent, 0);
                self.put_char(']');
                proof {
                    if flat_expr(*e) {
                        assert(self.out@ =~= start + expr_text(*e, indent));
                    }
                }
            }
            Expr::Prop(base, _) => {
                self.emit_expr(base, indent, P_POSTFIX);
                self.put_char('?');
                proof {
                    if flat_expr(*e) {
                        assert(self.out@ =~= start + expr_text(*e, indent));
                    }
                }
            }
            Expr::ListLit(xs) => {
                self.put_char('[');
                proof {
                    assert forall|j: int| 0 <= j < xs.len() implies decreases_to!(*e => #[trigger] xs@[j]) by {
                        assert(decreases_to!(*e => (*e)->ListLit_0));
                        assert(decreases_to!(*xs => xs[j]));
                    }
                }
                self.emit_list(xs, indent, Ghost(*e));
                self.put_char(']');
                proof {
                    if flat_expr(*e) {
                        assert(self.out@ =~= start + expr_text(*e, indent));
                    }
                }
            }
            Expr::MapLit(_) => self.emit_map_lit(e, indent),
            Expr::SetLit(xs) => {
                self.put_char('{');
                proof {
                    assert forall|j: int| 0 <= j < xs.len() implies decreases_to!(*e => #[trigger] xs@[j]) by {
                        assert(decreases_to!(*e => (*e)->SetLit_0));
                        assert(decreases_to!(*xs => xs[j]));
                    }
                }
                self.emit_list(xs, indent, Ghost(*e));
                self.put_char('}');
                proof {
                    if flat_expr(*e) {
                        assert(self.out@ =~= start + expr_text(*e, indent));
                    }
                }
            }
            Expr::Binary(_, _, _) => self.emit_binary(e, indent),
            Expr::Unary(UnaryOp::Neg, x) => {
                self.put_char('-');
                self.emit_expr(x, indent, P_UNARY);
                proof {
                    if flat_expr(*e) {
                        assert(self.out@ =~= start + expr_text(*e, indent));
                    }
                }
            }
            Expr::Unary(UnaryOp::Not, x) => {
                self.put("not ");
                self.emit_expr(x, indent, P_NOT);
                proof {
                    if flat_expr(*e) {
                        assert(self.out@ =~= start + expr_text(*e, indent));
                    }
                }
            }
            Expr::Cast(x, ty) => {
                self.emit_expr(x, indent, P_CAST);
                self.put(" as ");
                let t = type_str(ty);
                self.put(t.as_str());
                proof {
                    if flat_expr(*e) {
                        assert(self.out@ =~= start + expr_text(*e, indent));
                    }
                }
            }
            Expr::Await(x) => {
                self.put("await ");
                self.emit_expr(x, indent, 0);
                proof {
                    if flat_expr(*e) {
                        assert(self.out@ =~= start + expr_text(*e, indent));
                    }
                }
            }
            Expr::Send(ch, val) => {
                self.put("send(");
                self.emit_expr(ch, indent, 0);
                self.put(", ");
                self.emit_expr(val, indent, 0);
                self.put_char(')');
                proof {
                    if flat_expr(*e) {
                        assert(self.out@ =~= start + expr_text(*e, indent));
                    }
                }
            }
            Expr::Recv(ch) => {
                self.put("recv(");
                self.put(ch.as_str());
                self.put_char(')');
                proof {
                    if flat_expr(*e) {
                        assert(self.out@ =~= start + expr_text(*e, indent));
                    }
                }
            }
            Expr::Transfer(x) => {
                self.put("transfer(");
                self.emit_expr(x, indent, 0);
                self.put_char(')');
                proof {
                    if flat_expr(*e) {
                        assert(self.out@ =~= start + expr_text(*e, indent));
                    }
                }
            }
            Expr::OkOf(inner) => {
                self.put("ok(");
                match inner {
                    Some(x) => self.emit_expr(x, indent, 0),
                    None => {}
                }
                self.put_char(')');
                proof {
                    if flat_expr(*e) {
                        assert(self.out@ =~= start + expr_text(*e, indent));
                    }
                }
            }
            Expr::ErrOf(x) => {
                self.put("err(");
                self.emit_expr(x, indent, 0);
                self.put_char(')');
                proof {
                    if flat_expr(*e) {
                        assert(self.out@ =~= start + expr_text(*e, indent));
                    }
                }
            }
            Expr::SomeOf(x) => {
                self.put("some(");
                self.emit_expr(x, indent, 0);
                self.put_char(')');
                proof {
                    if flat_expr(*e) {
                        assert(self.out@ =~= start + expr_text(*e, indent));
                    }
                }
            }
            Expr::If(ifx) => {
                proof {
                    assert(decreases_to!(*e => (*e)->If_0));
                }
                self.emit_if(ifx, indent, Ghost(*e));
            }
            Expr::Match(_, _) => self.emit_match(e, indent),
            Expr::Loop(block) => {
                self.put("loop ");
                let ghost mid = self.out@;
                self.emit_block(block, indent);
                proof {
                    reveal_strlit("loop ");
                    reveal_strlit("loop {\n");
                    reveal_strlit("{\n");
                    assert(mid + "{\n"@ =~= start + "loop {\n"@);
                    if block.stmts@.len() == 0 && old(self).ci == old(self).comments@.len() {
                        assert(self.out@ =~= start + "loop {\n"@ + indent_text(indent as nat) + "}"@);
                    }
                }
            }
            Expr::For(name, iter, block) => {
                self.put("for ");
                self.put(name.as_str());
                self.put(" in ");
                self.emit_expr(iter, indent, 0);
                self.put_char(' ');
                let ghost mid = self.out@;
                self.emit_block(block, indent);
                proof {
                    reveal_strlit(" {\n");
                    reveal_strlit("{\n");
                    if flat_expr(**iter) {
                        assert(mid + "{\n"@ =~= start + "for "@ + name@ + " in "@ + wrapped_text(**iter, indent, 0) + " {\n"@);
                    }
                }
            }
        }
    }

    fn emit_map_lit(&mut self, e: &Expr, indent: usize)
        requires
            old(self).ci <= old(self).comments@.len(),
            e is MapLit,
        ensures
            grows(old(self), final(self)),
            flat_expr(*e) ==> final(self).out@ == old(self).out@ + expr_text(*e, indent),
        decreases e, 0nat,
    {
        let ghost start = self.out@;
        match e {
            Expr::MapLit(entries) => {
                self.put_char('{');
                let ghost ps = entries@;
                let ghost open = self.out@;
                let mut i: usize = 0;
                while i < entries.len()
                    invariant
                        i <= entries.len(),
                        *e == Expr::MapLit(*entries),
                        ps == entries@,
                        grows(old(self), self),
                        flat_pairs(ps) ==> self.out@ == open + pairs_text(ps.take(i as int), indent),
                    decreases entries.len() - i,
                {
                    proof {
                        assert(decreases_to!(*e => (*e)->MapLit_0));
                        assert(decreases_to!(*entries => entries[i as int]));
                        assert(decreases_to!(entries[i as int] => entries[i as int].0));
                        assert(decreases_to!(entries[i as int] => entries[i as int].1));
                        assert(ps.take(i + 1).drop_last() == ps.take(i as int));
                        assert(ps.take(i + 1).last() == ps[i as int]);
                        if flat_pairs(ps) {
                            lemma_flat_pairs_each(ps, i as int);
                        }
                    }
                    if i > 0 {
                        self.put(", ");
                    }
                    self.emit_expr(&entries[i].0, indent, 0);
                    self.put(": ");
                    self.emit_expr(&entries[i].1, indent, 0);
                    proof {
                        if flat_pairs(ps) {
                            assert(self.out@ =~= open + pairs_text(ps.take(i + 1), indent));
                        }
                    }
                    i += 1;
                }
                proof {
                    assert(ps.take(ps.len() as int) == ps);
                }
                self.put_char('}');
                proof {
                    if flat_expr(*e) {
                        assert(self.out@ =~= start + expr_text(*e, indent));
                    }
                }
            }
            _ => {}
        }
    }

    fn emit_binary(&mut self, e: &Expr, indent: usize)
        requires
            old(self).ci <= old(self).comments@.len(),
            e is Binary,
        ensures
            grows(old(self), final(self)),
            flat_expr(*e) ==> final(self).out@ == old(self).out@ + expr_text(*e, indent),
        decreases e, 0nat,
    {
        let ghost start = self.out@;
        match e {
            Expr::Binary(op, l, r) => {
                match is_kw(op) {
                    Some(kw) => {
                        self.emit_expr(l, indent, P_CMP);
                        self.put(" is ");
                        self.put(kw);
                    }
                    None => {
                        let prec = binop_prec(op);
                        let (lmin, rmin) = if *op == BinOp::Implies {
                            (prec + 1, prec)
                        } else {
                            (prec, prec + 1)
                        };
                        self.emit_expr(l, indent, lmin);
                        self.put_char(' ');
                        let s = binop_str(op);
                        self.put(s.as_str());
                        self.put_char(' ');
                        self.emit_expr(r, indent, rmin);
                    }
                }
                proof {
                    if flat_expr(*e) {
                        assert(self.out@ =~= start + expr_text(*e, indent));
                    }
                }
            }
            _ => {}
        }
    }

    fn emit_match(&mut self, e: &Expr, indent: usize)
        requires
            old(self).ci <= old(self).comments@.len(),
            e is Match,
        ensures
            grows(old(self), final(self)),
            flat_expr(*e) ==> final(self).out@ == old(self).out@ + expr_text(*e, indent),
        decreases e, 0nat,
    {
        let ghost start = self.out@;
        match e {
            Expr::Match(subject, arms) => {
                self.put("match ");
                self.emit_expr(subject, indent, 0);
                self.put(" {\n");
                let inner = deeper(indent);
                let ghost xs = arms@;
                let ghost open = self.out@;
                let mut i: usize = 0;
                while i < arms.len()
                    invariant
                        i <= arms.len(),
                        *e == Expr::Match(*subject, *arms),
                        xs == arms@,
                        inner == deeper_spec(indent),
                        grows(old(self), self),
                        flat_arms(xs) ==> self.out@ == open + arms_text(xs.take(i as int), inner),
                    decreases arms.len() - i,
                {
                    proof {
                        assert(decreases_to!(*e => (*e)->Match_1));
                        assert(decreases_to!(*arms => arms[i as int]));
                        assert(decreases_to!(arms[i as int] => arms[i as int].1));
                        assert(xs.take(i + 1).drop_last() == xs.take(i as int));
                        assert(xs.take(i + 1).last() == xs[i as int]);
                        if flat_arms(xs) {
                            lemma_flat_arms_each(xs, i as int);
                        }
                    }
                    let pad = indent_str(inner);
                    self.put(pad.as_str());
                    let p = pattern_str(&arms[i].0);
                    self.put(p.as_str());
                    self.put(" -> ");
                    self.emit_expr(&arms[i].1, inner, 0);
                    self.put_char('\n');
                    proof {
                        if flat_arms(xs) {
                            assert(self.out@ =~= open + arms_text(xs.take(i + 1), inner));
                        }
                    }
                    i += 1;
                }
                proof {
                    assert(xs.take(xs.len() as int) == xs);
                }
                let pad = indent_str(indent);
                self.put(pad.as_str());
                self.put_char('}');
                proof {
                    if flat_expr(*e) {
                        assert(self.out@ =~= start + expr_text(*e, indent));
                    }
                }
            }
            _ => {}
        }
    }

    fn emit_if(&mut self, ifx: &IfExpr, indent: usize, Ghost(parent): Ghost<Expr>)
        requires
            old(self).ci <= old(self).comments@.len(),
            decreases_to!(parent => *ifx),
        ensures
            grows(old(self), final(self)),
            (old(self).out@ + "if "@).is_prefix_of(final(self).out@),
            flat_expr(*ifx.cond) ==> (old(self).out@ + "if "@ + wrapped_text(*ifx.cond, indent, 0) + " {\n"@).is_prefix_of(
                final(self).out@,
            ),
            ends_with_seq(final(self).out@, indent_text(indent as nat) + "}"@),
            final(self).last_line == if_end_line(*ifx),
        decreases parent, 0nat,
    {
        proof {
            assert(decreases_to!(*ifx => ifx.cond));
            assert(decreases_to!(*ifx => ifx.then_block));
            reveal_strlit("if ");
            reveal_strlit(" {\n");
            reveal_strlit("{\n");
        }
        self.put("if ");
        let ghost opened = self.out@;
        self.emit_expr(&ifx.cond, indent, 0);
        self.put_char(' ');
        let ghost spaced = self.out@;
        self.emit_block(&ifx.then_block, indent);
        proof {
            if flat_expr(*ifx.cond) {
                assert(spaced + "{\n"@ =~= old(self).out@ + "if "@ + wrapped_text(*ifx.cond, indent, 0) + " {\n"@);
            }
        }
        let ghost head = self.out@;
        let mut i: usize = 0;
        while i < ifx.elif.len()
            invariant
                i <= ifx.elif.len(),
                decreases_to!(parent => *ifx),
                grows(old(self), self),
                head.is_prefix_of(self.out@),
                opened.is_prefix_of(head),
                opened == old(self).out@ + "if "@,
                flat_expr(*ifx.cond) ==> (old(self).out@ + "if "@ + wrapped_text(*ifx.cond, indent, 0) + " {\n"@).is_prefix_of(
                    head,
                ),
                ends_with_seq(self.out@, indent_text(indent as nat) + "}"@),
                self.last_line == if i == 0 {
                    ifx.then_block.span.end.0
                } else {
                    ifx.elif@[i - 1].1.span.end.0
                },
            decreases ifx.elif.len() - i,
        {
            proof {
                assert(decreases_to!(*ifx => ifx.elif));
                assert(decreases_to!(ifx.elif => ifx.elif[i as int]));
                assert(decreases_to!(ifx.elif[i as int] => ifx.elif[i as int].0));
                assert(decreases_to!(ifx.elif[i as int] => ifx.elif[i as int].1));
            }
            self.put(" elif ");
            self.emit_expr(&ifx.elif[i].0, indent, 0);
            self.put_char(' ');
            self.emit_block(&ifx.elif[i].1, indent);
            i += 1;
        }
        match &ifx.else_block {
            Some(block) => {
                proof {
                    assert(decreases_to!(*ifx => ifx.else_block));
                }
                self.put(" else ");
                self.emit_block(block, indent);
            }
            None => {}
        }
    }
}

/// A function's header as the formatter writes it.
pub fn func_signature(f: &FuncDecl) -> (s: String)
    ensures
        s@ == func_head_text(*f),
{
    let mut p = Printer::new(Vec::new());
    p.emit_func_head(f);
    p.out
}

fn push_decimal_to(p: &mut Printer, v: u64)
    requires
        old(p).ci <= old(p).comments@.len(),
    ensures
        grows(old(p), final(p)),
        final(p).out@ == old(p).out@ + decimal(v as nat),
{
    push_decimal(&mut p.out, v);
}

// ---- signatures and types ----

/// Texts joined with a separator.
pub open spec fn join_with(parts: Seq<Seq<char>>, sep: Seq<char>) -> Seq<char>
    decreases parts.len(),
{
    if parts.len() == 0 {
        Seq::empty()
    } else if parts.len() == 1 {
        parts[0]
    } else {
        join_with(parts.drop_last(), sep) + sep + parts.last()
    }
}

proof fn lemma_join_step(parts: Seq<Seq<char>>, sep: Seq<char>, i: int)
    requires
        0 <= i < parts.len(),
    ensures
        join_with(parts.take(i + 1), sep) == if i == 0 {
            parts[0]
        } else {
            join_with(parts.take(i), sep) + sep + parts[i]
        },
{
    assert(parts.take(i + 1).drop_last() == parts.take(i));
    assert(parts.take(i + 1).last() == parts[i]);
    if i == 0 {
        assert(parts.take(1)[0] == parts[0]);
    }
}

/// How a type is written: `Name`, `Name[A, B]`, or `A | B`.
pub open spec fn type_text(t: Type) -> Seq<char>
    decreases t,
{
    match t {
        Type::Named(n, args) => if args.len() == 0 {
            n@
        } else {
            proof {
                assert(decreases_to!(args => args@));
            }
            n@ + "["@ + types_text(args@, ", "@) + "]"@
        },
        Type::NamedPlain(n) => n@,
        Type::Union(ms) => {
            proof {
                assert(decreases_to!(ms => ms@));
            }
            types_text(ms@, " | "@)
        },
    }
}

pub open spec fn types_text(ts: Seq<Type>, sep: Seq<char>) -> Seq<char>
    decreases ts,
{
    if ts.len() == 0 {
        Seq::empty()
    } else if ts.len() == 1 {
        proof {
            assert(decreases_to!(ts => ts[0]));
        }
        type_text(ts[0])
    } else {
        proof {
            assert(decreases_to!(ts => ts.subrange(0, ts.len() - 1)));
            assert(decreases_to!(ts => ts[ts.len() - 1]));
        }
        types_text(ts.drop_last(), sep) + sep + type_text(ts.last())
    }
}

/// `[T, U: Ordered]`, or nothing without type parameters.
pub open spec fn type_param_text(p: TypeParam) -> Seq<char> {
    match p.constraint {
        Some(c) => p.name@ + ": "@ + c@,
        None => p.name@,
    }
}

pub fn type_params_str(params: &Vec<TypeParam>) -> (s: String)
    ensures
        s@ == if params@.len() == 0 {
            Seq::<char>::empty()
        } else {
            "["@ + join_with(params@.map_values(|p: TypeParam| type_param_text(p)), ", "@) + "]"@
        },
{
    let mut s = String::new();
    if params.len() == 0 {
        return s;
    }
    let ghost parts = params@.map_values(|p: TypeParam| type_param_text(p));
    push_str(&mut s, "[");
    let ghost start = s@;
    let mut i: usize = 0;
    while i < params.len()
        invariant
            i <= params.len(),
            parts == params@.map_values(|p: TypeParam| type_param_text(p)),
            s@ == start + join_with(parts.take(i as int), ", "@),
        decreases params.len() - i,
    {
        proof {
            lemma_join_step(parts, ", "@, i as int);
        }
        if i > 0 {
            push_str(&mut s, ", ");
        }
        push_str(&mut s, params[i].name.as_str());
        match &params[i].constraint {
            Some(c) => {
                push_str(&mut s, ": ");
                push_str(&mut s, c.as_str());
            }
            None => {}
        }
        proof {
            assert(parts[i as int] == type_param_text(params@[i as int]));
        }
        i += 1;
    }
    proof {
        assert(parts.take(params.len() as int) == parts);
    }
    push_str(&mut s, "]");
    s
}

/// How a parameter is written: its modifiers, name and type.
pub open spec fn param_text(p: Param) -> Seq<char> {
    (if p.mutable { "mut "@ } else { Seq::empty() }) + (if p.transfer { "transfer "@ } else { Seq::empty() }) + p.name@
        + ": "@ + type_text(p.ty)
}

/// `(mut a: Int, transfer b: Bytes)`.
pub fn params_str(params: &Vec<Param>) -> (s: String)
    ensures
        s@ == "("@ + join_with(params@.map_values(|p: Param| param_text(p)), ", "@) + ")"@,
{
    let ghost parts = params@.map_values(|p: Param| param_text(p));
    let mut s = String::new();
    push_str(&mut s, "(");
    let ghost start = s@;
    let mut i: usize = 0;
    while i < params.len()
        invariant
            i <= params.len(),
            parts == params@.map_values(|p: Param| param_text(p)),
            s@ == start + join_with(parts.take(i as int), ", "@),
        decreases params.len() - i,
    {
        proof {
            lemma_join_step(parts, ", "@, i as int);
        }
        if i > 0 {
            push_str(&mut s, ", ");
        }
        let p = &params[i];
        let ghost before = s@;
        if p.mutable {
            push_str(&mut s, "mut ");
        }
        if p.transfer {
            push_str(&mut s, "transfer ");
        }
        push_str(&mut s, p.name.as_str());
        push_str(&mut s, ": ");
        let t = type_str(&p.ty);
        push_str(&mut s, t.as_str());
        proof {
            assert(parts[i as int] == param_text(params@[i as int]));
            assert(s@ =~= before + param_text(*p));
        }
        i += 1;
    }
    proof {
        assert(parts.take(params.len() as int) == parts);
    }
    push_str(&mut s, ")");
    s
}

/// How a variant field is written.
pub open spec fn field_text(f: crate::ast::Field) -> Seq<char> {
    f.name@ + ": "@ + type_text(f.ty)
}

/// `Name(field: Type, ...)`.
pub fn variant_str(v: &Variant) -> (s: String)
    ensures
        s@ == v.name@ + "("@ + join_with(v.fields@.map_values(|f: crate::ast::Field| field_text(f)), ", "@) + ")"@,
{
    let ghost parts = v.fields@.map_values(|f: crate::ast::Field| field_text(f));
    let mut s = String::new();
    push_str(&mut s, v.name.as_str());
    push_str(&mut s, "(");
    let ghost start = s@;
    let mut i: usize = 0;
    while i < v.fields.len()
        invariant
            i <= v.fields.len(),
            parts == v.fields@.map_values(|f: crate::ast::Field| field_text(f)),
            s@ == start + join_with(parts.take(i as int), ", "@),
        decreases v.fields.len() - i,
    {
        proof {
            lemma_join_step(parts, ", "@, i as int);
        }
        if i > 0 {
            push_str(&mut s, ", ");
        }
        let ghost before = s@;
        push_str(&mut s, v.fields[i].name.as_str());
        push_str(&mut s, ": ");
        let t = type_str(&v.fields[i].ty);
        push_str(&mut s, t.as_str());
        proof {
            assert(parts[i as int] == field_text(v.fields@[i as int]));
            assert(s@ =~= before + field_text(v.fields@[i as int]));
        }
        i += 1;
    }
    proof {
        assert(parts.take(v.fields.len() as int) == parts);
    }
    push_str(&mut s, ")");
    s
}

/// How a match pattern is written.
pub open spec fn pattern_text(p: Pattern) -> Seq<char> {
    match p {
        Pattern::Wildcard => "_"@,
        Pattern::NoneLit => "none"@,
        Pattern::Name(n) => n@,
        Pattern::Variant(name, names) => name@ + "("@ + join_with(names@.map_values(|n: String| n@), ", "@) + ")"@,
    }
}

pub fn pattern_str(p: &Pattern) -> (s: String)
    ensures
        s@ == pattern_text(*p),
{
    match p {
        Pattern::Wildcard => "_".to_string(),
        Pattern::NoneLit => "none".to_string(),
        Pattern::Name(n) => n.clone(),
        Pattern::Variant(name, names) => {
            let ghost parts = names@.map_values(|n: String| n@);
            let mut s = String::new();
            push_str(&mut s, name.as_str());
            push_str(&mut s, "(");
            let ghost start = s@;
            let mut i: usize = 0;
            while i < names.len()
                invariant
                    i <= names.len(),
                    parts == names@.map_values(|n: String| n@),
                    s@ == start + join_with(parts.take(i as int), ", "@),
                decreases names.len() - i,
            {
                proof {
                    lemma_join_step(parts, ", "@, i as int);
                }
                if i > 0 {
                    push_str(&mut s, ", ");
                }
                push_str(&mut s, names[i].as_str());
                i += 1;
            }
            proof {
                assert(parts.take(names.len() as int) == parts);
            }
            push_str(&mut s, ")");
            s
        }
    }
}

/// How a type is written: `Name`, `Name[A, B]`, or `A | B`.
pub fn type_str(t: &Type) -> (s: String)
    ensures
        s@ == type_text(*t),
    decreases t,
{
    let mut s = String::new();
    match t {
        Type::Named(name, args) => {
            push_str(&mut s, name.as_str());
            if args.len() > 0 {
                push_str(&mut s, "[");
                let ghost start = s@;
                let mut i: usize = 0;
                while i < args.len()
                    invariant
                        i <= args.len(),
                        *t == Type::Named(*name, *args),
                        s@ == start + types_text(args@.take(i as int), ", "@),
                    decreases args.len() - i,
                {
                    proof {
                        assert(decreases_to!(*t => (*t)->Named_1));
                        assert(decreases_to!(*args => args[i as int]));
                        assert(args@.take(i + 1).drop_last() == args@.take(i as int));
                        assert(args@.take(i + 1).last() == args@[i as int]);
                        if i == 0 {
                            assert(args@.take(1)[0] == args@[0]);
                        }
                    }
                    if i > 0 {
                        push_str(&mut s, ", ");
                    }
                    let a = type_str(&args[i]);
                    push_str(&mut s, a.as_str());
                    i += 1;
                }
                proof {
                    assert(args@.take(args.len() as int) == args@);
                }
                push_str(&mut s, "]");
            }
        }
        Type::NamedPlain(name) => push_str(&mut s, name.as_str()),
        Type::Union(members) => {
            let ghost start = s@;
            let mut i: usize = 0;
            while i < members.len()
                invariant
                    i <= members.len(),
                    *t == Type::Union(*members),
                    s@ == start + types_text(members@.take(i as int), " | "@),
                decreases members.len() - i,
            {
                proof {
                    assert(decreases_to!(*t => (*t)->Union_0));
                    assert(decreases_to!(*members => members[i as int]));
                    assert(members@.take(i + 1).drop_last() == members@.take(i as int));
                    assert(members@.take(i + 1).last() == members@[i as int]);
                    if i == 0 {
                        assert(members@.take(1)[0] == members@[0]);
                    }
                }
                if i > 0 {
                    push_str(&mut s, " | ");
                }
                let a = type_str(&members[i]);
                push_str(&mut s, a.as_str());
                i += 1;
            }
            proof {
                assert(members@.take(members.len() as int) == members@);
            }
        }
    }
    s
}

} // verus!
