//! Tokens produced by the lexer and consumed by the parser.
use vstd::prelude::*;

verus! {

/// A source region: 1-based (line, column) of the first character and of the
/// position just after the last one.
#[derive(Debug)]
pub struct Span {
    pub file: String,
    pub start: (usize, usize),
    pub end: (usize, usize),
}

impl Clone for Span {
    fn clone(&self) -> (r: Span)
        ensures
            r == *self,
    {
        Span { file: self.file.clone(), start: self.start, end: self.end }
    }
}

impl Span {
    /// A span that points nowhere in `file` (line 0, column 0).
    pub fn nowhere(file: &String) -> (s: Span)
        ensures
            s.file@ == file@,
            s.start == (0usize, 0usize),
            s.end == (0usize, 0usize),
    {
        Span { file: file.clone(), start: (0, 0), end: (0, 0) }
    }
}

/// The tag of a doc-comment claim line (`/// @intent ...`).
#[derive(Clone, Copy, Debug, PartialEq, Eq, Structural)]
pub enum DocTag {
    Intent,
    Requires,
    Ensures,
    Effects,
    Trusted,
}

/// Reserved words of the language.
#[derive(Clone, Copy, Debug, PartialEq, Eq, Structural)]
pub enum Keyword {
    And,
    As,
    Async,
    Await,
    Break,
    Chan,
    Continue,
    Elif,
    Else,
    Enum,
    ErrKw,
    Extern,
    False,
    For,
    Func,
    If,
    Implies,
    In,
    Invariant,
    Is,
    Let,
    Loop,
    Match,
    Mut,
    NoneKw,
    Not,
    OkKw,
    Or,
    Post,
    Pre,
    Recv,
    Record,
    Send,
    SomeKw,
    Task,
    Transfer,
    True,
}

/// Operators and delimiters.
#[derive(Clone, Copy, Debug, PartialEq, Eq, Structural)]
pub enum Punct {
    LParen,
    RParen,
    LBracket,
    RBracket,
    LBrace,
    RBrace,
    Comma,
    Colon,
    Dot,
    Arrow,
    LeftArrow,
    Question,
    Plus,
    Minus,
    Star,
    Slash,
    Percent,
    EqEq,
    NotEq,
    Lt,
    Le,
    Gt,
    Ge,
    Assign,
    PlusEq,
    MinusEq,
    StarEq,
    SlashEq,
    Pipe,
    Underscore,
}

/// Declaration attributes written with `@` outside doc comments.
#[derive(Clone, Copy, Debug, PartialEq, Eq, Structural)]
pub enum Marker {
    Cstruct,
    Export,
    Interface,
}

/// What a token is. A float literal keeps its digits, decimal point and
/// exponent as written (underscores dropped); its numeric value is taken
/// where it is needed.
#[derive(Debug)]
pub enum TokKind {
    Int(u64),
    Float(String),
    Char(char),
    Str(String),
    RawStr(String),
    Ident(String),
    Kw(Keyword),
    Punct(Punct),
    Doc(DocTag),
    At(Marker),
    Eof,
}

#[derive(Debug)]
pub struct Token {
    pub kind: TokKind,
    pub span: Span,
    pub text: String,
}

impl Clone for TokKind {
    fn clone(&self) -> (r: TokKind)
        ensures
            r == *self,
    {
        match self {
            TokKind::Int(v) => TokKind::Int(*v),
            TokKind::Float(t) => TokKind::Float(t.clone()),
            TokKind::Char(c) => TokKind::Char(*c),
            TokKind::Str(t) => TokKind::Str(t.clone()),
            TokKind::RawStr(t) => TokKind::RawStr(t.clone()),
            TokKind::Ident(t) => TokKind::Ident(t.clone()),
            TokKind::Kw(k) => TokKind::Kw(*k),
            TokKind::Punct(p) => TokKind::Punct(*p),
            TokKind::Doc(d) => TokKind::Doc(*d),
            TokKind::At(m) => TokKind::At(*m),
            TokKind::Eof => TokKind::Eof,
        }
    }
}

impl Clone for Token {
    fn clone(&self) -> (r: Token)
        ensures
            r == *self,
    {
        Token { kind: self.kind.clone(), span: self.span.clone(), text: self.text.clone() }
    }
}

/// A comment as written in the source, kept for the formatter.
#[derive(Clone, Debug)]
pub struct Comment {
    pub text: String,
    pub span: Span,
}

#[derive(Clone, Debug)]
pub struct LexError {
    pub message: String,
    pub span: Span,
}

/// Whether `k` is a specific punctuation token.
pub open spec fn is_punct(k: TokKind, p: Punct) -> bool {
    k matches TokKind::Punct(q) && q == p
}

/// Whether `k` is a specific keyword token.
pub open spec fn is_kw(k: TokKind, w: Keyword) -> bool {
    k matches TokKind::Kw(q) && q == w
}

/// A token stream as the lexer hands it on: at least one token, the last one
/// is the end-of-file marker and no other is.
pub open spec fn well_formed_tokens(ts: Seq<Token>) -> bool {
    &&& ts.len() >= 1
    &&& ts.last().kind is Eof
    &&& forall|i: int| 0 <= i < ts.len() - 1 ==> !(#[trigger] ts[i].kind is Eof)
}

} // verus!
