//! Structured diagnostics and their JSON form.
//!
//! Each diagnostic renders as one object:
//!   {"version":1,"severity":"error","code":"I0020","message":"...",
//!    "category":"intent","span":{"file":"...","start":[l,c],"end":[l,c]}}
//! followed, when the checker has a fix to offer, by
//!   "suggestion":{"fix":"...","confidence":0.9}
//!
//! Codes: L0001 lexer, P0001 parser, R0001 name resolution, T0001 types,
//! Ixxxx intent verification.
use vstd::prelude::*;
use crate::text::{decimal, push_char, push_decimal, push_str};

verus! {

#[derive(Clone, Copy, Debug, PartialEq, Eq, Structural)]
pub enum Severity {
    Error,
    Warning,
}

#[derive(Clone, Copy, Debug, PartialEq, Eq, Structural)]
pub enum Category {
    Lex,
    Parse,
    Resolve,
    Type,
    Intent,
}

/// A diagnostic's location: 1-based (line, column) of its start and end.
#[derive(Debug)]
pub struct Span {
    pub file: String,
    pub start: (usize, usize),
    pub end: (usize, usize),
}

/// A suggested fix and the checker's confidence in it, in hundredths (90
/// stands for 0.9).
#[derive(Debug)]
pub struct Suggestion {
    pub fix: String,
    pub confidence_pct: u32,
}

#[derive(Debug)]
pub struct Diagnostic {
    pub version: u32,
    pub severity: Severity,
    pub code: String,
    pub message: String,
    pub category: Category,
    pub span: Span,
    pub suggestion: Option<Suggestion>,
}

/// How one character is written inside a JSON string.
pub open spec fn escape_char(c: char) -> Seq<char> {
    if c == '"' {
        seq!['\\', '"']
    } else if c == '\\' {
        seq!['\\', '\\']
    } else if c == '\n' {
        seq!['\\', 'n']
    } else if c == '\t' {
        seq!['\\', 't']
    } else if c == '\r' {
        seq!['\\', 'r']
    } else {
        seq![c]
    }
}

/// A text written inside a JSON string, character by character.
pub open spec fn escape_spec(s: Seq<char>) -> Seq<char>
    decreases s.len(),
{
    if s.len() == 0 {
        Seq::empty()
    } else {
        escape_char(s[0]) + escape_spec(s.drop_first())
    }
}

/// Reading a JSON string body back: `\x` pairs decode, other characters
/// stand for themselves.
pub open spec fn unescape_spec(t: Seq<char>) -> Seq<char>
    decreases t.len(),
{
    if t.len() == 0 {
        Seq::empty()
    } else if t[0] == '\\' && t.len() >= 2 {
        let c = if t[1] == 'n' {
            '\n'
        } else if t[1] == 't' {
            '\t'
        } else if t[1] == 'r' {
            '\r'
        } else {
            t[1]
        };
        seq![c] + unescape_spec(t.subrange(2, t.len() as int))
    } else {
        seq![t[0]] + unescape_spec(t.drop_first())
    }
}

proof fn lemma_escape_push(a: Seq<char>, c: char)
    ensures
        escape_spec(a.push(c)) == escape_spec(a) + escape_char(c),
    decreases a.len(),
{
    if a.len() == 0 {
        assert(a.push(c).drop_first() =~= Seq::<char>::empty());
        assert(a.push(c)[0] == c);
        assert(escape_spec(Seq::<char>::empty()) == Seq::<char>::empty());
        assert(escape_spec(a.push(c)) =~= escape_char(c));
    } else {
        lemma_escape_push(a.drop_first(), c);
        assert(a.push(c).drop_first() =~= a.drop_first().push(c));
        assert(a.push(c)[0] == a[0]);
        assert(escape_spec(a.push(c)) =~= escape_spec(a) + escape_char(c));
    }
}

/// Escaping can be undone: reading an escaped text back gives the text.
pub proof fn law_escape_round_trip(s: Seq<char>)
    ensures
        unescape_spec(escape_spec(s)) == s,
    decreases s.len(),
{
    if s.len() > 0 {
        law_escape_round_trip(s.drop_first());
        let e = escape_char(s[0]);
        let rest = escape_spec(s.drop_first());
        let t = e + rest;
        assert(escape_spec(s) == t);
        if e.len() == 2 {
            assert(t[0] == '\\');
            assert(t.subrange(2, t.len() as int) =~= rest);
        } else {
            assert(t[0] == s[0]);
            assert(s[0] != '\\');
            assert(t.drop_first() =~= rest);
        }
        assert(unescape_spec(t) =~= s);
    }
}

/// The escaped form of `s`, for use inside a JSON string.
pub fn json_escape(s: &str) -> (out: String)
    ensures
        out@ == escape_spec(s@),
{
    let mut out = String::new();
    let cs = crate::text::chars_of(s);
    let mut i: usize = 0;
    while i < cs.len()
        invariant
            i <= cs.len(),
            cs@ == s@,
            out@ == escape_spec(cs@.take(i as int)),
        decreases cs.len() - i,
    {
        let ch = cs[i];
        proof {
            assert(cs@.take(i + 1) == cs@.take(i as int).push(ch));
            lemma_escape_push(cs@.take(i as int), ch);
        }
        if ch == '"' {
            push_str(&mut out, "\\\"");
        } else if ch == '\\' {
            push_str(&mut out, "\\\\");
        } else if ch == '\n' {
            push_str(&mut out, "\\n");
        } else if ch == '\t' {
            push_str(&mut out, "\\t");
        } else if ch == '\r' {
            push_str(&mut out, "\\r");
        } else {
            push_char(&mut out, ch);
        }
        proof {
            reveal_strlit("\\\"");
            reveal_strlit("\\\\");
            reveal_strlit("\\n");
            reveal_strlit("\\t");
            reveal_strlit("\\r");
            assert(out@ =~= escape_spec(cs@.take(i + 1)));
        }
        i += 1;
    }
    proof {
        assert(cs@.take(cs.len() as int) == cs@);
    }
    out
}

/// `[a,b]` for a position.
pub open spec fn pos_json(p: (usize, usize)) -> Seq<char> {
    "["@ + decimal(p.0 as nat) + ","@ + decimal(p.1 as nat) + "]"@
}

/// The JSON object of a span.
pub open spec fn span_json(s: Span) -> Seq<char> {
    "{\"file\":\""@ + escape_spec(s.file@) + "\",\"start\":"@ + pos_json(s.start) + ",\"end\":"@ + pos_json(
        s.end,
    ) + "}"@
}

/// A confidence in hundredths written as a JSON number the way a float
/// prints: `90` is `0.9`, `75` is `0.75`, `100` is `1`.
pub open spec fn pct_text(p: nat) -> Seq<char> {
    let whole = p / 100;
    let frac = p % 100;
    if frac == 0 {
        decimal(whole)
    } else if frac % 10 == 0 {
        decimal(whole) + "."@ + decimal(frac / 10)
    } else if frac < 10 {
        decimal(whole) + ".0"@ + decimal(frac)
    } else {
        decimal(whole) + "."@ + decimal(frac)
    }
}

pub open spec fn severity_text(s: Severity) -> Seq<char> {
    match s {
        Severity::Error => "error"@,
        Severity::Warning => "warning"@,
    }
}

pub open spec fn category_text(c: Category) -> Seq<char> {
    match c {
        Category::Lex => "lex"@,
        Category::Parse => "parse"@,
        Category::Resolve => "resolve"@,
        Category::Type => "type"@,
        Category::Intent => "intent"@,
    }
}

/// The JSON object of a diagnostic.
pub open spec fn diagnostic_json(d: Diagnostic) -> Seq<char> {
    "{\"version\":"@ + decimal(d.version as nat) + ",\"severity\":\""@ + severity_text(d.severity)
        + "\",\"code\":\""@ + d.code@ + "\",\"message\":\""@ + escape_spec(d.message@) + "\",\"category\":\""@
        + category_text(d.category) + "\",\"span\":"@ + span_json(d.span) + match d.suggestion {
        Some(s) => ",\"suggestion\":{\"fix\":\""@ + escape_spec(s.fix@) + "\",\"confidence\":"@ + pct_text(
            s.confidence_pct as nat,
        ) + "}"@,
        None => Seq::empty(),
    } + "}"@
}

/// Diagnostics written as a JSON array, comma-separated.
pub open spec fn diagnostics_json(ds: Seq<Diagnostic>) -> Seq<char> {
    "["@ + joined_json(ds) + "]"@
}

pub open spec fn joined_json(ds: Seq<Diagnostic>) -> Seq<char>
    decreases ds.len(),
{
    if ds.len() == 0 {
        Seq::empty()
    } else if ds.len() == 1 {
        diagnostic_json(ds[0])
    } else {
        joined_json(ds.drop_last()) + ","@ + diagnostic_json(ds.last())
    }
}

fn push_pos(s: &mut String, p: (usize, usize))
    ensures
        final(s)@ == old(s)@ + pos_json(p),
{
    push_str(s, "[");
    push_decimal(s, p.0 as u64);
    push_str(s, ",");
    push_decimal(s, p.1 as u64);
    push_str(s, "]");
}

fn push_pct(s: &mut String, p: u32)
    ensures
        final(s)@ == old(s)@ + pct_text(p as nat),
{
    let whole = p / 100;
    let frac = p % 100;
    push_decimal(s, whole as u64);
    if frac == 0 {
    } else if frac % 10 == 0 {
        push_str(s, ".");
        push_decimal(s, (frac / 10) as u64);
    } else if frac < 10 {
        push_str(s, ".0");
        push_decimal(s, frac as u64);
    } else {
        push_str(s, ".");
        push_decimal(s, frac as u64);
    }
}

impl Clone for Span {
    fn clone(&self) -> (r: Span)
        ensures
            r == *self,
    {
        Span { file: self.file.clone(), start: self.start, end: self.end }
    }
}

impl Span {
    /// The span as a JSON object.
    pub fn to_json(&self) -> (s: String)
        ensures
            s@ == span_json(*self),
    {
        let mut s = String::new();
        push_str(&mut s, "{\"file\":\"");
        push_str(&mut s, json_escape(self.file.as_str()).as_str());
        push_str(&mut s, "\",\"start\":");
        push_pos(&mut s, self.start);
        push_str(&mut s, ",\"end\":");
        push_pos(&mut s, self.end);
        push_str(&mut s, "}");
        s
    }
}

impl Diagnostic {
    /// The diagnostic as a JSON object.
    pub fn to_json(&self) -> (s: String)
        ensures
            s@ == diagnostic_json(*self),
    {
        let mut s = String::new();
        push_str(&mut s, "{\"version\":");
        push_decimal(&mut s, self.version as u64);
        push_str(&mut s, ",\"severity\":\"");
        match self.severity {
            Severity::Error => push_str(&mut s, "error"),
            Severity::Warning => push_str(&mut s, "warning"),
        }
        push_str(&mut s, "\",\"code\":\"");
        push_str(&mut s, self.code.as_str());
        push_str(&mut s, "\",\"message\":\"");
        push_str(&mut s, json_escape(self.message.as_str()).as_str());
        push_str(&mut s, "\",\"category\":\"");
        match self.category {
            Category::Lex => push_str(&mut s, "lex"),
            Category::Parse => push_str(&mut s, "parse"),
            Category::Resolve => push_str(&mut s, "resolve"),
            Category::Type => push_str(&mut s, "type"),
            Category::Intent => push_str(&mut s, "intent"),
        }
        push_str(&mut s, "\",\"span\":");
        push_str(&mut s, self.span.to_json().as_str());
        match &self.suggestion {
            Some(sg) => {
                push_str(&mut s, ",\"suggestion\":{\"fix\":\"");
                push_str(&mut s, json_escape(sg.fix.as_str()).as_str());
                push_str(&mut s, "\",\"confidence\":");
                push_pct(&mut s, sg.confidence_pct);
                push_str(&mut s, "}");
            }
            None => {}
        }
        push_str(&mut s, "}");
        s
    }
}

/// Diagnostics as a compact JSON array.
pub fn to_json_array(diags: &Vec<Diagnostic>) -> (s: String)
    ensures
        s@ == diagnostics_json(diags@),
{
    let mut s = String::new();
    push_str(&mut s, "[");
    let ghost start = s@;
    let mut i: usize = 0;
    while i < diags.len()
        invariant
            i <= diags.len(),
            start == "["@,
            s@ == start + joined_json(diags@.take(i as int)),
        decreases diags.len() - i,
    {
        proof {
            assert(diags@.take(i + 1).drop_last() == diags@.take(i as int));
            assert(diags@.take(i + 1).last() == diags@[i as int]);
        }
        if i > 0 {
            push_str(&mut s, ",");
        }
        push_str(&mut s, diags[i].to_json().as_str());
        proof {
            if i == 0 {
                assert(diags@.take(1)[0] == diags@[0]);
            }
        }
        i += 1;
    }
    proof {
        assert(diags@.take(diags.len() as int) == diags@);
    }
    push_str(&mut s, "]");
    s
}

} // verus!
