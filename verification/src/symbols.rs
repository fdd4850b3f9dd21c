//! What the language server says about a document's declarations: the
//! identifier under a position, a declaration's hover text and place, and
//! the completion items (the language's vocabulary and the document's own
//! symbols).
use vstd::prelude::*;
use crate::ast::{DocClaim, DocComment, Item, Program, Variant};
use crate::chars::{is_ident_char, spec_is_ident_char};
use crate::format::{func_head_text, func_signature, join_with, variant_str, variant_text};
use crate::lexer::word_end;
use crate::lsp::{line_text, nth_line};
use crate::resolve::{error_type_names, stdlib_error_types};
use crate::rpc::join_strs;
use crate::text::{chars_of, push_char, push_str};
use crate::token::DocTag;

verus! {

/// The start of the run of identifier characters that reaches position `i`
/// from the left.
pub open spec fn word_start(s: Seq<char>, i: int) -> int
    decreases i,
{
    if 0 < i <= s.len() && spec_is_ident_char(s[i - 1]) {
        word_start(s, i - 1)
    } else {
        i
    }
}

/// The identifier under character `c` of line `line` (both 0-based): its
/// first and past-the-end columns, or none where no identifier character
/// stands there.
pub open spec fn word_span(text: Seq<char>, line: int, c: int) -> Option<(int, int)> {
    let lt = nth_line(text, line);
    if 0 <= c < lt.len() && spec_is_ident_char(lt[c]) {
        Some((word_start(lt, c), word_end(lt, c)))
    } else {
        None
    }
}

proof fn lemma_word_start(s: Seq<char>, i: int)
    requires
        0 <= i <= s.len(),
    ensures
        0 <= word_start(s, i) <= i,
    decreases i,
{
    if 0 < i && spec_is_ident_char(s[i - 1]) {
        lemma_word_start(s, i - 1);
    }
}

/// The identifier under a position of `text`, with its columns.
pub fn word_at(text: &str, line: usize, c: usize) -> (r: Option<(String, usize, usize)>)
    ensures
        match word_span(text@, line as int, c as int) {
            None => r is None,
            Some((a, b)) => r matches Some((w, x, y)) && x == a && y == b && w@ == nth_line(text@, line as int).subrange(
                a,
                b,
            ),
        },
{
    let cs = chars_of(text);
    let lt = line_text(&cs, line);
    if !(c < lt.len() && is_ident_char(lt[c])) {
        return None;
    }
    let mut a = c;
    while a > 0 && is_ident_char(lt[a - 1])
        invariant
            a <= c < lt.len(),
            word_start(lt@, a as int) == word_start(lt@, c as int),
        decreases a,
    {
        a -= 1;
    }
    let mut b = c;
    proof {
        crate::lexer::lemma_word_end(lt@, c as int);
    }
    while b < lt.len() && is_ident_char(lt[b])
        invariant
            c <= b <= lt.len(),
            word_end(lt@, b as int) == word_end(lt@, c as int),
        decreases lt.len() - b,
    {
        b += 1;
    }
    let mut w = String::new();
    let mut k = a;
    while k < b
        invariant
            a <= k <= b <= lt.len(),
            w@ == lt@.subrange(a as int, k as int),
        decreases b - k,
    {
        push_char(&mut w, lt[k]);
        proof {
            assert(lt@.subrange(a as int, k + 1) == lt@.subrange(a as int, k as int).push(lt@[k as int]));
        }
        k += 1;
    }
    Some((w, a, b))
}

/// How a doc-comment tag is written.
pub open spec fn doc_tag_text(t: DocTag) -> Seq<char> {
    match t {
        DocTag::Intent => "intent"@,
        DocTag::Requires => "requires"@,
        DocTag::Ensures => "ensures"@,
        DocTag::Effects => "effects"@,
        DocTag::Trusted => "trusted"@,
    }
}

fn doc_tag_str(t: &DocTag) -> (s: &'static str)
    ensures
        s@ == doc_tag_text(*t),
{
    match t {
        DocTag::Intent => "intent",
        DocTag::Requires => "requires",
        DocTag::Ensures => "ensures",
        DocTag::Effects => "effects",
        DocTag::Trusted => "trusted",
    }
}

/// One doc claim as a line: `@tag text`.
pub open spec fn claim_line(c: DocClaim) -> Seq<char> {
    "@"@ + doc_tag_text(c.tag) + " "@ + c.text@
}

/// A doc comment's claims, one per line.
pub open spec fn claims_text(d: DocComment) -> Seq<char> {
    join_with(d.claims@.map_values(|c: DocClaim| claim_line(c)), "\n"@)
}

pub fn claims_str(d: &DocComment) -> (s: String)
    ensures
        s@ == claims_text(*d),
{
    let mut lines: Vec<String> = Vec::new();
    let mut i: usize = 0;
    while i < d.claims.len()
        invariant
            i <= d.claims.len(),
            lines@.len() == i,
            forall|k: int| 0 <= k < i ==> (#[trigger] lines@[k])@ == claim_line(d.claims@[k]),
        decreases d.claims.len() - i,
    {
        let c = &d.claims[i];
        let mut line = String::new();
        push_str(&mut line, "@");
        push_str(&mut line, doc_tag_str(&c.tag));
        push_str(&mut line, " ");
        push_str(&mut line, c.text.as_str());
        lines.push(line);
        i += 1;
    }
    proof {
        assert(lines@.map_values(|l: String| l@) =~= d.claims@.map_values(|c: DocClaim| claim_line(c)));
    }
    join_strs(&lines, "\n")
}

/// A doc comment's claims under a blank line, or nothing.
pub open spec fn doc_part(doc: Option<DocComment>) -> Seq<char> {
    match doc {
        Some(d) => "\n\n"@ + claims_text(d),
        None => Seq::<char>::empty(),
    }
}

/// A fenced code block.
pub open spec fn code_block(s: Seq<char>) -> Seq<char> {
    "```xz\n"@ + s + "\n```"@
}

/// The name an item declares.
pub open spec fn item_name(it: Item) -> Seq<char> {
    match it {
        Item::Func(f) => f.name@,
        Item::Task(t) => t.name@,
        Item::Chan(c) => c.name@,
        Item::Extern(e) => e.name@,
        Item::Record(r) => r.name@,
        Item::Enum(en) => en.name@,
    }
}

/// A one-line summary of an item: a function's header, otherwise its
/// keyword and name.
pub open spec fn item_label(it: Item) -> Seq<char> {
    match it {
        Item::Func(f) => func_head_text(f),
        Item::Task(t) => "task "@ + t.name@,
        Item::Chan(c) => "chan "@ + c.name@,
        Item::Extern(e) => "extern func "@ + e.name@,
        Item::Record(r) => "record "@ + r.name@,
        Item::Enum(en) => "enum "@ + en.name@,
    }
}

/// The doc comment of a function or task.
pub open spec fn item_doc(it: Item) -> Option<DocComment> {
    match it {
        Item::Func(f) => f.doc,
        Item::Task(t) => t.doc,
        _ => None,
    }
}

/// Where an item's declaration starts and ends (a function: its name).
pub open spec fn item_place(it: Item) -> ((usize, usize), (usize, usize)) {
    match it {
        Item::Func(f) => (f.span.start, f.span.end),
        Item::Task(t) => (t.span.start, t.span.end),
        Item::Chan(c) => (c.span.start, c.span.end),
        Item::Extern(e) => (e.span.start, e.span.end),
        Item::Record(r) => (r.span.start, r.span.end),
        Item::Enum(en) => (en.span.start, en.span.end),
    }
}

/// The first variant named `w`.
pub open spec fn variant_named(vs: Seq<Variant>, w: Seq<char>) -> Option<Variant>
    decreases vs.len(),
{
    if vs.len() == 0 {
        None
    } else if vs[0].name@ == w {
        Some(vs[0])
    } else {
        variant_named(vs.drop_first(), w)
    }
}

/// What hovering `w` shows for one item: the item's summary and doc claims
/// where it is named `w`, a variant's form where an enum has a variant so
/// named.
pub open spec fn item_hover(it: Item, w: Seq<char>) -> Option<Seq<char>> {
    if item_name(it) == w {
        Some(code_block(item_label(it)) + doc_part(item_doc(it)))
    } else {
        match it {
            Item::Enum(en) => match variant_named(en.variants@, w) {
                Some(v) => Some(code_block(variant_text(v))),
                None => None,
            },
            _ => None,
        }
    }
}

/// Where `w` is declared by one item.
pub open spec fn item_decl(it: Item, w: Seq<char>) -> Option<((usize, usize), (usize, usize))> {
    if item_name(it) == w {
        Some(item_place(it))
    } else {
        match it {
            Item::Enum(en) => match variant_named(en.variants@, w) {
                Some(v) => Some((v.span.start, v.span.end)),
                None => None,
            },
            _ => None,
        }
    }
}

/// The hover text of the first item that declares `w`.
pub open spec fn hover_of(items: Seq<Item>, w: Seq<char>) -> Option<Seq<char>>
    decreases items.len(),
{
    if items.len() == 0 {
        None
    } else {
        match item_hover(items[0], w) {
            Some(h) => Some(h),
            None => hover_of(items.drop_first(), w),
        }
    }
}

/// The place of the first declaration of `w`.
pub open spec fn decl_of(items: Seq<Item>, w: Seq<char>) -> Option<((usize, usize), (usize, usize))>
    decreases items.len(),
{
    if items.len() == 0 {
        None
    } else {
        match item_decl(items[0], w) {
            Some(p) => Some(p),
            None => decl_of(items.drop_first(), w),
        }
    }
}

fn item_name_str(it: &Item) -> (s: &String)
    ensures
        s@ == item_name(*it),
{
    match it {
        Item::Func(f) => &f.name,
        Item::Task(t) => &t.name,
        Item::Chan(c) => &c.name,
        Item::Extern(e) => &e.name,
        Item::Record(r) => &r.name,
        Item::Enum(en) => &en.name,
    }
}

fn item_label_str(it: &Item) -> (s: String)
    ensures
        s@ == item_label(*it),
{
    proof {
        reveal_strlit("");
        assert(""@ =~= Seq::<char>::empty());
    }
    match it {
        Item::Func(f) => func_signature(f),
        Item::Task(t) => {
            proof {
                reveal_strlit("");
            }
            crate::text::concat3("task ", t.name.as_str(), "")
        },
        Item::Chan(c) => crate::text::concat3("chan ", c.name.as_str(), ""),
        Item::Extern(e) => crate::text::concat3("extern func ", e.name.as_str(), ""),
        Item::Record(r) => crate::text::concat3("record ", r.name.as_str(), ""),
        Item::Enum(en) => crate::text::concat3("enum ", en.name.as_str(), ""),
    }
}

fn code_block_str(s: &str) -> (r: String)
    ensures
        r@ == code_block(s@),
{
    crate::text::concat3("```xz\n", s, "\n```")
}

fn find_variant(vs: &Vec<Variant>, w: &str) -> (r: Option<usize>)
    ensures
        match variant_named(vs@, w@) {
            Some(v) => r matches Some(k) && k < vs@.len() && vs@[k as int] == v,
            None => r is None,
        },
{
    let mut i: usize = 0;
    proof {
        assert(vs@.skip(0) == vs@);
    }
    while i < vs.len()
        invariant
            i <= vs.len(),
            variant_named(vs@, w@) == variant_named(vs@.skip(i as int), w@),
        decreases vs.len() - i,
    {
        proof {
            assert(vs@.skip(i as int)[0] == vs@[i as int]);
            assert(vs@.skip(i as int).drop_first() == vs@.skip(i + 1));
        }
        if crate::text::str_eq(vs[i].name.as_str(), w) {
            return Some(i);
        }
        i += 1;
    }
    None
}

fn item_hover_str(it: &Item, w: &str) -> (r: Option<String>)
    ensures
        match item_hover(*it, w@) {
            Some(h) => r matches Some(s) && s@ == h,
            None => r is None,
        },
{
    if crate::text::str_eq(item_name_str(it).as_str(), w) {
        let label = item_label_str(it);
        let mut s = code_block_str(label.as_str());
        let doc = match it {
            Item::Func(f) => &f.doc,
            Item::Task(t) => &t.doc,
            _ => &None,
        };
        match doc {
            Some(d) => {
                push_str(&mut s, "\n\n");
                let c = claims_str(d);
                push_str(&mut s, c.as_str());
            }
            None => {}
        }
        return Some(s);
    }
    match it {
        Item::Enum(en) => match find_variant(&en.variants, w) {
            Some(k) => {
                let v = variant_str(&en.variants[k]);
                Some(code_block_str(v.as_str()))
            }
            None => None,
        },
        _ => None,
    }
}

fn item_decl_at(it: &Item, w: &str) -> (r: Option<((usize, usize), (usize, usize))>)
    ensures
        r == item_decl(*it, w@),
{
    if crate::text::str_eq(item_name_str(it).as_str(), w) {
        return Some(match it {
            Item::Func(f) => (f.span.start, f.span.end),
            Item::Task(t) => (t.span.start, t.span.end),
            Item::Chan(c) => (c.span.start, c.span.end),
            Item::Extern(e) => (e.span.start, e.span.end),
            Item::Record(r) => (r.span.start, r.span.end),
            Item::Enum(en) => (en.span.start, en.span.end),
        });
    }
    match it {
        Item::Enum(en) => match find_variant(&en.variants, w) {
            Some(k) => Some((en.variants[k].span.start, en.variants[k].span.end)),
            None => None,
        },
        _ => None,
    }
}

/// The hover text for `w` in `program`: a code block with the first
/// declaration's summary, and its doc claims.
pub fn hover_markdown(program: &Program, w: &str) -> (r: Option<String>)
    ensures
        match hover_of(program.items@, w@) {
            Some(h) => r matches Some(s) && s@ == h,
            None => r is None,
        },
{
    let items = &program.items;
    let mut i: usize = 0;
    proof {
        assert(items@.skip(0) == items@);
    }
    while i < items.len()
        invariant
            i <= items.len(),
            items@ == program.items@,
            hover_of(items@, w@) == hover_of(items@.skip(i as int), w@),
        decreases items.len() - i,
    {
        proof {
            assert(items@.skip(i as int)[0] == items@[i as int]);
            assert(items@.skip(i as int).drop_first() == items@.skip(i + 1));
        }
        proof {
            assert(hover_of(items@.skip(i as int), w@) == match item_hover(items@[i as int], w@) {
                Some(h) => Some(h),
                None => hover_of(items@.skip(i + 1), w@),
            });
        }
        match item_hover_str(&items[i], w) {
            Some(s) => {
                proof {
                    assert(item_hover(items@[i as int], w@) == Some(s@));
                    assert(hover_of(items@.skip(i as int), w@) == Some(s@));
                }
                return Some(s);
            }
            None => {}
        }
        i += 1;
    }
    None
}

/// Where `w` is declared in `program`: the first declaration's start and
/// end (1-based).
pub fn declaration_of(program: &Program, w: &str) -> (r: Option<((usize, usize), (usize, usize))>)
    ensures
        r == decl_of(program.items@, w@),
{
    let items = &program.items;
    let mut i: usize = 0;
    proof {
        assert(items@.skip(0) == items@);
    }
    while i < items.len()
        invariant
            i <= items.len(),
            items@ == program.items@,
            decl_of(items@, w@) == decl_of(items@.skip(i as int), w@),
        decreases items.len() - i,
    {
        proof {
            assert(items@.skip(i as int)[0] == items@[i as int]);
            assert(items@.skip(i as int).drop_first() == items@.skip(i + 1));
        }
        proof {
            assert(decl_of(items@.skip(i as int), w@) == match item_decl(items@[i as int], w@) {
                Some(p) => Some(p),
                None => decl_of(items@.skip(i + 1), w@),
            });
        }
        match item_decl_at(&items[i], w) {
            Some(p) => return Some(p),
            None => {}
        }
        i += 1;
    }
    None
}

/// A completion item: its label, its kind (as the protocol numbers them),
/// and an optional detail line and markdown documentation.
#[derive(Debug)]
pub struct CompletionItem {
    pub label: String,
    pub kind: u32,
    pub detail: Option<String>,
    pub documentation: Option<String>,
}

/// An optional text as a sequence.
pub open spec fn opt_text(o: Option<String>) -> Option<Seq<char>> {
    match o {
        Some(s) => Some(s@),
        None => None,
    }
}

pub open spec fn item_view(c: CompletionItem) -> (Seq<char>, u32, Option<Seq<char>>, Option<Seq<char>>) {
    (c.label@, c.kind, opt_text(c.detail), opt_text(c.documentation))
}

pub open spec fn items_view(cs: Seq<CompletionItem>) -> Seq<(Seq<char>, u32, Option<Seq<char>>, Option<Seq<char>>)> {
    cs.map_values(|c: CompletionItem| item_view(c))
}

/// Plain words of one completion kind.
pub open spec fn words_as(ws: Seq<Seq<char>>, kind: u32) -> Seq<(Seq<char>, u32, Option<Seq<char>>, Option<Seq<char>>)> {
    ws.map_values(|w: Seq<char>| (w, kind, None::<Seq<char>>, None::<Seq<char>>))
}

/// The reserved words.
pub open spec fn keyword_words() -> Seq<Seq<char>> {
    seq![
        "and"@, "as"@, "async"@, "await"@, "break"@, "chan"@, "continue"@, "elif"@, "else"@, "enum"@, "err"@, "extern"@, "false"@, "for"@, "func"@, "if"@, "implies"@, "in"@, "invariant"@, "is"@, "let"@, "loop"@, "match"@, "mut"@, "none"@, "not"@, "ok"@, "or"@, "post"@, "pre"@, "recv"@, "record"@, "send"@, "some"@, "task"@, "transfer"@, "true"@,
    ]
}

/// The builtin type names.
pub open spec fn type_words() -> Seq<Seq<char>> {
    seq![
        "Bool"@, "Int"@, "usize"@, "Float"@, "Char"@, "Str"@, "Bytes"@, "Unit"@, "Ptr"@, "List"@, "Option"@, "Result"@, "Map"@, "Set"@, "Chan"@,
    ]
}

/// The functions every program can call.
pub open spec fn stdlib_fn_words() -> Seq<Seq<char>> {
    seq![
        "print"@, "read_file"@, "approx_sqrt"@, "now"@, "monotonic"@,
    ]
}

/// The predeclared constants.
pub open spec fn constant_words() -> Seq<Seq<char>> {
    seq!["PI"@, "E"@]
}

/// The language's vocabulary, offered in every open document: keywords
/// (kind 14), builtin types (7), stdlib functions (3), constants (21) and
/// the stdlib error types (22).
pub open spec fn vocabulary_items() -> Seq<(Seq<char>, u32, Option<Seq<char>>, Option<Seq<char>>)> {
    words_as(keyword_words(), 14) + words_as(type_words(), 7) + words_as(stdlib_fn_words(), 3) + words_as(
        constant_words(),
        21,
    ) + words_as(error_type_names(), 22)
}

/// The completion items one declaration gives: functions, tasks and
/// externs (kind 3, with their summary; a function or task with its doc
/// claims), channels (6), records (22), enums (13) and their variants (20).
pub open spec fn item_symbols(it: Item) -> Seq<(Seq<char>, u32, Option<Seq<char>>, Option<Seq<char>>)> {
    let doc = match item_doc(it) {
        Some(d) => Some(claims_text(d)),
        None => None,
    };
    match it {
        Item::Func(_) | Item::Task(_) | Item::Extern(_) => seq![(item_name(it), 3u32, Some(item_label(it)), doc)],
        Item::Chan(c) => seq![(c.name@, 6u32, None, None)],
        Item::Record(r) => seq![(r.name@, 22u32, None, None)],
        Item::Enum(en) => seq![(en.name@, 13u32, None::<Seq<char>>, None::<Seq<char>>)] + en.variants@.map_values(
            |v: Variant| (v.name@, 20u32, None::<Seq<char>>, None::<Seq<char>>),
        ),
    }
}

/// The completion items of a program's declarations, in order.
pub open spec fn symbols_of(items: Seq<Item>) -> Seq<(Seq<char>, u32, Option<Seq<char>>, Option<Seq<char>>)>
    decreases items.len(),
{
    if items.len() == 0 {
        Seq::empty()
    } else {
        symbols_of(items.drop_last()) + item_symbols(items.last())
    }
}

fn plain_item(label: String, kind: u32) -> (c: CompletionItem)
    ensures
        item_view(c) == (label@, kind, None::<Seq<char>>, None::<Seq<char>>),
{
    CompletionItem { label, kind, detail: None, documentation: None }
}

fn push_words(out: &mut Vec<CompletionItem>, words: &Vec<String>, kind: u32)
    ensures
        items_view(final(out)@) == items_view(old(out)@) + words_as(words@.map_values(|w: String| w@), kind),
{
    let ghost n = old(out)@.len();
    let mut i: usize = 0;
    while i < words.len()
        invariant
            i <= words.len(),
            n == old(out)@.len(),
            out@.len() == n + i,
            forall|k: int| 0 <= k < n ==> #[trigger] out@[k] == old(out)@[k],
            forall|k: int| 0 <= k < i ==> item_view(#[trigger] out@[n + k]) == (words@[k]@, kind, None::<Seq<char>>, None::<Seq<char>>),
        decreases words.len() - i,
    {
        out.push(plain_item(words[i].clone(), kind));
        proof {
            assert(item_view(out@[n + i]) == (words@[i as int]@, kind, None::<Seq<char>>, None::<Seq<char>>));
        }
        i += 1;
    }
    proof {
        let a = items_view(out@);
        let b = items_view(old(out)@) + words_as(words@.map_values(|w: String| w@), kind);
        assert forall|k: int| 0 <= k < a.len() implies a[k] == b[k] by {
            if k < n {
                assert(out@[k] == old(out)@[k]);
            } else {
                assert(item_view(out@[n + (k - n)]) == (words@[k - n]@, kind, None::<Seq<char>>, None::<Seq<char>>));
            }
        }
        assert(a =~= b);
    }
}

fn keyword_list() -> (v: Vec<String>)
    ensures
        v@.len() == keyword_words().len(),
        forall|k: int| 0 <= k < v@.len() ==> #[trigger] v@[k]@ == keyword_words()[k],
{
    let mut v: Vec<String> = Vec::new();
    v.push("and".to_string());
    v.push("as".to_string());
    v.push("async".to_string());
    v.push("await".to_string());
    v.push("break".to_string());
    v.push("chan".to_string());
    v.push("continue".to_string());
    v.push("elif".to_string());
    v.push("else".to_string());
    v.push("enum".to_string());
    v.push("err".to_string());
    v.push("extern".to_string());
    v.push("false".to_string());
    v.push("for".to_string());
    v.push("func".to_string());
    v.push("if".to_string());
    v.push("implies".to_string());
    v.push("in".to_string());
    v.push("invariant".to_string());
    v.push("is".to_string());
    v.push("let".to_string());
    v.push("loop".to_string());
    v.push("match".to_string());
    v.push("mut".to_string());
    v.push("none".to_string());
    v.push("not".to_string());
    v.push("ok".to_string());
    v.push("or".to_string());
    v.push("post".to_string());
    v.push("pre".to_string());
    v.push("recv".to_string());
    v.push("record".to_string());
    v.push("send".to_string());
    v.push("some".to_string());
    v.push("task".to_string());
    v.push("transfer".to_string());
    v.push("true".to_string());
    v
}

fn type_list() -> (v: Vec<String>)
    ensures
        v@.len() == type_words().len(),
        forall|k: int| 0 <= k < v@.len() ==> #[trigger] v@[k]@ == type_words()[k],
{
    let mut v: Vec<String> = Vec::new();
    v.push("Bool".to_string());
    v.push("Int".to_string());
    v.push("usize".to_string());
    v.push("Float".to_string());
    v.push("Char".to_string());
    v.push("Str".to_string());
    v.push("Bytes".to_string());
    v.push("Unit".to_string());
    v.push("Ptr".to_string());
    v.push("List".to_string());
    v.push("Option".to_string());
    v.push("Result".to_string());
    v.push("Map".to_string());
    v.push("Set".to_string());
    v.push("Chan".to_string());
    v
}

fn stdlib_fn_list() -> (v: Vec<String>)
    ensures
        v@.len() == stdlib_fn_words().len(),
        forall|k: int| 0 <= k < v@.len() ==> #[trigger] v@[k]@ == stdlib_fn_words()[k],
{
    let mut v: Vec<String> = Vec::new();
    v.push("print".to_string());
    v.push("read_file".to_string());
    v.push("approx_sqrt".to_string());
    v.push("now".to_string());
    v.push("monotonic".to_string());
    v
}

fn constant_list() -> (v: Vec<String>)
    ensures
        v@.len() == constant_words().len(),
        forall|k: int| 0 <= k < v@.len() ==> #[trigger] v@[k]@ == constant_words()[k],
{
    let mut v: Vec<String> = Vec::new();
    v.push("PI".to_string());
    v.push("E".to_string());
    v
}

proof fn lemma_words_view(v: Seq<String>, ws: Seq<Seq<char>>)
    requires
        v.len() == ws.len(),
        forall|k: int| 0 <= k < v.len() ==> #[trigger] v[k]@ == ws[k],
    ensures
        v.map_values(|w: String| w@) == ws,
{
    assert(v.map_values(|w: String| w@) =~= ws);
}

/// The vocabulary's completion items.
pub fn vocabulary() -> (r: Vec<CompletionItem>)
    ensures
        items_view(r@) == vocabulary_items(),
{
    let mut out: Vec<CompletionItem> = Vec::new();
    assert(items_view(out@) =~= Seq::empty());
    let k = keyword_list();
    proof { lemma_words_view(k@, keyword_words()); }
    push_words(&mut out, &k, 14);
    let t = type_list();
    proof { lemma_words_view(t@, type_words()); }
    push_words(&mut out, &t, 7);
    let f = stdlib_fn_list();
    proof { lemma_words_view(f@, stdlib_fn_words()); }
    push_words(&mut out, &f, 3);
    let c = constant_list();
    proof { lemma_words_view(c@, constant_words()); }
    push_words(&mut out, &c, 21);
    let e = stdlib_error_types();
    proof { lemma_words_view(e@, error_type_names()); }
    push_words(&mut out, &e, 22);
    assert(items_view(out@) =~= vocabulary_items());
    out
}

fn item_symbol_items(it: &Item, out: &mut Vec<CompletionItem>)
    ensures
        items_view(final(out)@) == items_view(old(out)@) + item_symbols(*it),
{
    let ghost start = items_view(out@);
    match it {
        Item::Func(_) | Item::Task(_) | Item::Extern(_) => {
            let doc = match it {
                Item::Func(f) => match &f.doc {
                    Some(d) => Some(claims_str(d)),
                    None => None,
                },
                Item::Task(t) => match &t.doc {
                    Some(d) => Some(claims_str(d)),
                    None => None,
                },
                _ => None,
            };
            let c = CompletionItem {
                label: item_name_str(it).clone(),
                kind: 3,
                detail: Some(item_label_str(it)),
                documentation: doc,
            };
            out.push(c);
            assert(items_view(out@) =~= start + item_symbols(*it));
        }
        Item::Chan(c) => {
            out.push(plain_item(c.name.clone(), 6));
            assert(items_view(out@) =~= start + item_symbols(*it));
        }
        Item::Record(r) => {
            out.push(plain_item(r.name.clone(), 22));
            assert(items_view(out@) =~= start + item_symbols(*it));
        }
        Item::Enum(en) => {
            out.push(plain_item(en.name.clone(), 13));
            let ghost head = items_view(out@);
            assert(head =~= start + seq![(en.name@, 13u32, None::<Seq<char>>, None::<Seq<char>>)]);
            let ghost vs = en.variants@.map_values(|v: Variant| (v.name@, 20u32, None::<Seq<char>>, None::<Seq<char>>));
            let ghost mid = out@;
            let ghost n = out@.len();
            let mut i: usize = 0;
            while i < en.variants.len()
                invariant
                    i <= en.variants.len(),
                    n == mid.len(),
                    out@.len() == n + i,
                    forall|k: int| 0 <= k < n ==> #[trigger] out@[k] == mid[k],
                    forall|k: int| 0 <= k < i ==> item_view(#[trigger] out@[n + k]) == (en.variants@[k].name@, 20u32, None::<Seq<char>>, None::<Seq<char>>),
                decreases en.variants.len() - i,
            {
                out.push(plain_item(en.variants[i].name.clone(), 20));
                proof {
                    assert(item_view(out@[n + i]) == (en.variants@[i as int].name@, 20u32, None::<Seq<char>>, None::<Seq<char>>));
                }
                i += 1;
            }
            proof {
                let a = items_view(out@);
                let b = head + vs;
                assert forall|k: int| 0 <= k < a.len() implies a[k] == b[k] by {
                    if k < n {
                        assert(out@[k] == mid[k]);
                        assert(a[k] == items_view(mid)[k]);
                    } else {
                        assert(item_view(out@[n + (k - n)]) == (en.variants@[k - n].name@, 20u32, None::<Seq<char>>, None::<Seq<char>>));
                    }
                }
                assert(a =~= b);
                assert(items_view(out@) =~= start + item_symbols(*it));
            }
        }
    }
}

/// The completion items of `program`'s declarations.
pub fn document_symbols(program: &Program) -> (r: Vec<CompletionItem>)
    ensures
        items_view(r@) == symbols_of(program.items@),
{
    let mut out: Vec<CompletionItem> = Vec::new();
    let items = &program.items;
    let mut i: usize = 0;
    assert(items_view(out@) =~= Seq::empty());
    while i < items.len()
        invariant
            i <= items.len(),
            items_view(out@) == symbols_of(items@.take(i as int)),
        decreases items.len() - i,
    {
        item_symbol_items(&items[i], &mut out);
        proof {
            assert(items@.take(i + 1).drop_last() == items@.take(i as int));
            assert(items@.take(i + 1).last() == items@[i as int]);
        }
        i += 1;
    }
    proof {
        assert(items@.take(items@.len() as int) == items@);
    }
    out
}

} // verus!
