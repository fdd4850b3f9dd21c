//! How tokens are shown by the `lex` command.
use vstd::prelude::*;
use crate::keywords::keyword_text;
use crate::text::{decimal, push_char, push_decimal, push_str};
use crate::token::{DocTag, Keyword, Punct, TokKind};

verus! {

/// How each punctuation token is written.
pub open spec fn punct_text(p: Punct) -> Seq<char> {
    match p {
        Punct::LParen => "("@,
        Punct::RParen => ")"@,
        Punct::LBracket => "["@,
        Punct::RBracket => "]"@,
        Punct::LBrace => "{"@,
        Punct::RBrace => "}"@,
        Punct::Comma => ","@,
        Punct::Colon => ":"@,
        Punct::Dot => "."@,
        Punct::Arrow => "->"@,
        Punct::LeftArrow => "<-"@,
        Punct::Question => "?"@,
        Punct::Plus => "+"@,
        Punct::Minus => "-"@,
        Punct::Star => "*"@,
        Punct::Slash => "/"@,
        Punct::Percent => "%"@,
        Punct::EqEq => "=="@,
        Punct::NotEq => "!="@,
        Punct::Lt => "<"@,
        Punct::Le => "<="@,
        Punct::Gt => ">"@,
        Punct::Ge => ">="@,
        Punct::Assign => "="@,
        Punct::PlusEq => "+="@,
        Punct::MinusEq => "-="@,
        Punct::StarEq => "*="@,
        Punct::SlashEq => "/="@,
        Punct::Pipe => "|"@,
        Punct::Underscore => "_"@,
    }
}

pub open spec fn doc_token_text(t: DocTag) -> Seq<char> {
    match t {
        DocTag::Intent => "DocIntent"@,
        DocTag::Requires => "DocRequires"@,
        DocTag::Ensures => "DocEnsures"@,
        DocTag::Effects => "DocEffects"@,
        DocTag::Trusted => "DocTrusted"@,
    }
}

/// How the `lex` command names a token: literals with their value, keywords
/// and punctuation as written, doc tokens by their tag; an attribute marker
/// has no name.
pub open spec fn tok_name_spec(k: TokKind) -> Seq<char> {
    match k {
        TokKind::Int(v) => "Int("@ + decimal(v as nat) + ")"@,
        TokKind::Float(t) => "Float("@ + t@ + ")"@,
        TokKind::Char(c) => "Char('"@ + seq![c] + "')"@,
        TokKind::Str(s) => "Str(\""@ + s@ + "\")"@,
        TokKind::RawStr(s) => "RawStr(\""@ + s@ + "\")"@,
        TokKind::Ident(s) => "Ident("@ + s@ + ")"@,
        TokKind::Kw(w) => keyword_text(w),
        TokKind::Punct(p) => punct_text(p),
        TokKind::Doc(t) => doc_token_text(t),
        TokKind::At(_) => Seq::empty(),
        TokKind::Eof => "Eof"@,
    }
}

pub fn keyword_str(k: Keyword) -> (s: &'static str)
    ensures
        s@ == keyword_text(k),
{
    match k {
        Keyword::And => "and",
        Keyword::As => "as",
        Keyword::Async => "async",
        Keyword::Await => "await",
        Keyword::Break => "break",
        Keyword::Chan => "chan",
        Keyword::Continue => "continue",
        Keyword::Elif => "elif",
        Keyword::Else => "else",
        Keyword::Enum => "enum",
        Keyword::ErrKw => "err",
        Keyword::Extern => "extern",
        Keyword::False => "false",
        Keyword::For => "for",
        Keyword::Func => "func",
        Keyword::If => "if",
        Keyword::Implies => "implies",
        Keyword::In => "in",
        Keyword::Invariant => "invariant",
        Keyword::Is => "is",
        Keyword::Let => "let",
        Keyword::Loop => "loop",
        Keyword::Match => "match",
        Keyword::Mut => "mut",
        Keyword::NoneKw => "none",
        Keyword::Not => "not",
        Keyword::OkKw => "ok",
        Keyword::Or => "or",
        Keyword::Post => "post",
        Keyword::Pre => "pre",
        Keyword::Recv => "recv",
        Keyword::Record => "record",
        Keyword::Send => "send",
        Keyword::SomeKw => "some",
        Keyword::Task => "task",
        Keyword::Transfer => "transfer",
        Keyword::True => "true",
    }
}

pub fn punct_str(p: Punct) -> (s: &'static str)
    ensures
        s@ == punct_text(p),
{
    match p {
        Punct::LParen => "(",
        Punct::RParen => ")",
        Punct::LBracket => "[",
        Punct::RBracket => "]",
        Punct::LBrace => "{",
        Punct::RBrace => "}",
        Punct::Comma => ",",
        Punct::Colon => ":",
        Punct::Dot => ".",
        Punct::Arrow => "->",
        Punct::LeftArrow => "<-",
        Punct::Question => "?",
        Punct::Plus => "+",
        Punct::Minus => "-",
        Punct::Star => "*",
        Punct::Slash => "/",
        Punct::Percent => "%",
        Punct::EqEq => "==",
        Punct::NotEq => "!=",
        Punct::Lt => "<",
        Punct::Le => "<=",
        Punct::Gt => ">",
        Punct::Ge => ">=",
        Punct::Assign => "=",
        Punct::PlusEq => "+=",
        Punct::MinusEq => "-=",
        Punct::StarEq => "*=",
        Punct::SlashEq => "/=",
        Punct::Pipe => "|",
        Punct::Underscore => "_",
    }
}

/// The name the `lex` command prints for a token kind.
pub fn tok_name(kind: &TokKind) -> (s: String)
    ensures
        s@ == tok_name_spec(*kind),
{
    let mut s = String::new();
    match kind {
        TokKind::Int(v) => {
            push_str(&mut s, "Int(");
            push_decimal(&mut s, *v);
            push_str(&mut s, ")");
        }
        TokKind::Float(t) => {
            push_str(&mut s, "Float(");
            push_str(&mut s, t.as_str());
            push_str(&mut s, ")");
        }
        TokKind::Char(c) => {
            push_str(&mut s, "Char('");
            push_char(&mut s, *c);
            push_str(&mut s, "')");
            assert(s@ =~= "Char('"@ + seq![*c] + "')"@);
        }
        TokKind::Str(t) => {
            push_str(&mut s, "Str(\"");
            push_str(&mut s, t.as_str());
            push_str(&mut s, "\")");
        }
        TokKind::RawStr(t) => {
            push_str(&mut s, "RawStr(\"");
            push_str(&mut s, t.as_str());
            push_str(&mut s, "\")");
        }
        TokKind::Ident(t) => {
            push_str(&mut s, "Ident(");
            push_str(&mut s, t.as_str());
            push_str(&mut s, ")");
        }
        TokKind::Kw(w) => push_str(&mut s, keyword_str(*w)),
        TokKind::Punct(p) => push_str(&mut s, punct_str(*p)),
        TokKind::Doc(t) => {
            let name = match t {
                DocTag::Intent => "DocIntent",
                DocTag::Requires => "DocRequires",
                DocTag::Ensures => "DocEnsures",
                DocTag::Effects => "DocEffects",
                DocTag::Trusted => "DocTrusted",
            };
            push_str(&mut s, name);
        }
        TokKind::At(_) => {}
        TokKind::Eof => push_str(&mut s, "Eof"),
    }
    s
}

} // verus!
