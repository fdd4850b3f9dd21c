//! The reserved words of the language and the doc-comment tags.
use vstd::prelude::*;
use crate::token::{DocTag, Keyword};
use crate::text::str_eq;

verus! {

/// How each keyword is spelled.
pub open spec fn keyword_text(k: Keyword) -> Seq<char> {
    match k {
        Keyword::And => "and"@,
        Keyword::As => "as"@,
        Keyword::Async => "async"@,
        Keyword::Await => "await"@,
        Keyword::Break => "break"@,
        Keyword::Chan => "chan"@,
        Keyword::Continue => "continue"@,
        Keyword::Elif => "elif"@,
        Keyword::Else => "else"@,
        Keyword::Enum => "enum"@,
        Keyword::ErrKw => "err"@,
        Keyword::Extern => "extern"@,
        Keyword::False => "false"@,
        Keyword::For => "for"@,
        Keyword::Func => "func"@,
        Keyword::If => "if"@,
        Keyword::Implies => "implies"@,
        Keyword::In => "in"@,
        Keyword::Invariant => "invariant"@,
        Keyword::Is => "is"@,
        Keyword::Let => "let"@,
        Keyword::Loop => "loop"@,
        Keyword::Match => "match"@,
        Keyword::Mut => "mut"@,
        Keyword::NoneKw => "none"@,
        Keyword::Not => "not"@,
        Keyword::OkKw => "ok"@,
        Keyword::Or => "or"@,
        Keyword::Post => "post"@,
        Keyword::Pre => "pre"@,
        Keyword::Recv => "recv"@,
        Keyword::Record => "record"@,
        Keyword::Send => "send"@,
        Keyword::SomeKw => "some"@,
        Keyword::Task => "task"@,
        Keyword::Transfer => "transfer"@,
        Keyword::True => "true"@,
    }
}

/// The keyword spelled `s`, if any.
pub open spec fn keyword_of(s: Seq<char>) -> Option<Keyword> {
    if s == "and"@ { Some(Keyword::And) }
    else if s == "as"@ { Some(Keyword::As) }
    else if s == "async"@ { Some(Keyword::Async) }
    else if s == "await"@ { Some(Keyword::Await) }
    else if s == "break"@ { Some(Keyword::Break) }
    else if s == "chan"@ { Some(Keyword::Chan) }
    else if s == "continue"@ { Some(Keyword::Continue) }
    else if s == "elif"@ { Some(Keyword::Elif) }
    else if s == "else"@ { Some(Keyword::Else) }
    else if s == "enum"@ { Some(Keyword::Enum) }
    else if s == "err"@ { Some(Keyword::ErrKw) }
    else if s == "extern"@ { Some(Keyword::Extern) }
    else if s == "false"@ { Some(Keyword::False) }
    else if s == "for"@ { Some(Keyword::For) }
    else if s == "func"@ { Some(Keyword::Func) }
    else if s == "if"@ { Some(Keyword::If) }
    else if s == "implies"@ { Some(Keyword::Implies) }
    else if s == "in"@ { Some(Keyword::In) }
    else if s == "invariant"@ { Some(Keyword::Invariant) }
    else if s == "is"@ { Some(Keyword::Is) }
    else if s == "let"@ { Some(Keyword::Let) }
    else if s == "loop"@ { Some(Keyword::Loop) }
    else if s == "match"@ { Some(Keyword::Match) }
    else if s == "mut"@ { Some(Keyword::Mut) }
    else if s == "none"@ { Some(Keyword::NoneKw) }
    else if s == "not"@ { Some(Keyword::Not) }
    else if s == "ok"@ { Some(Keyword::OkKw) }
    else if s == "or"@ { Some(Keyword::Or) }
    else if s == "post"@ { Some(Keyword::Post) }
    else if s == "pre"@ { Some(Keyword::Pre) }
    else if s == "recv"@ { Some(Keyword::Recv) }
    else if s == "record"@ { Some(Keyword::Record) }
    else if s == "send"@ { Some(Keyword::Send) }
    else if s == "some"@ { Some(Keyword::SomeKw) }
    else if s == "task"@ { Some(Keyword::Task) }
    else if s == "transfer"@ { Some(Keyword::Transfer) }
    else if s == "true"@ { Some(Keyword::True) }
    else { None }
}

/// The keyword spelled like `name`, if any.
pub fn keyword_kind(name: &str) -> (r: Option<Keyword>)
    ensures
        r == keyword_of(name@),
{
    if str_eq(name, "and") { return Some(Keyword::And); }
    if str_eq(name, "as") { return Some(Keyword::As); }
    if str_eq(name, "async") { return Some(Keyword::Async); }
    if str_eq(name, "await") { return Some(Keyword::Await); }
    if str_eq(name, "break") { return Some(Keyword::Break); }
    if str_eq(name, "chan") { return Some(Keyword::Chan); }
    if str_eq(name, "continue") { return Some(Keyword::Continue); }
    if str_eq(name, "elif") { return Some(Keyword::Elif); }
    if str_eq(name, "else") { return Some(Keyword::Else); }
    if str_eq(name, "enum") { return Some(Keyword::Enum); }
    if str_eq(name, "err") { return Some(Keyword::ErrKw); }
    if str_eq(name, "extern") { return Some(Keyword::Extern); }
    if str_eq(name, "false") { return Some(Keyword::False); }
    if str_eq(name, "for") { return Some(Keyword::For); }
    if str_eq(name, "func") { return Some(Keyword::Func); }
    if str_eq(name, "if") { return Some(Keyword::If); }
    if str_eq(name, "implies") { return Some(Keyword::Implies); }
    if str_eq(name, "in") { return Some(Keyword::In); }
    if str_eq(name, "invariant") { return Some(Keyword::Invariant); }
    if str_eq(name, "is") { return Some(Keyword::Is); }
    if str_eq(name, "let") { return Some(Keyword::Let); }
    if str_eq(name, "loop") { return Some(Keyword::Loop); }
    if str_eq(name, "match") { return Some(Keyword::Match); }
    if str_eq(name, "mut") { return Some(Keyword::Mut); }
    if str_eq(name, "none") { return Some(Keyword::NoneKw); }
    if str_eq(name, "not") { return Some(Keyword::Not); }
    if str_eq(name, "ok") { return Some(Keyword::OkKw); }
    if str_eq(name, "or") { return Some(Keyword::Or); }
    if str_eq(name, "post") { return Some(Keyword::Post); }
    if str_eq(name, "pre") { return Some(Keyword::Pre); }
    if str_eq(name, "recv") { return Some(Keyword::Recv); }
    if str_eq(name, "record") { return Some(Keyword::Record); }
    if str_eq(name, "send") { return Some(Keyword::Send); }
    if str_eq(name, "some") { return Some(Keyword::SomeKw); }
    if str_eq(name, "task") { return Some(Keyword::Task); }
    if str_eq(name, "transfer") { return Some(Keyword::Transfer); }
    if str_eq(name, "true") { return Some(Keyword::True); }
    None
}

/// The doc-comment tag named `s` (after the `@`), if any.
pub open spec fn doc_tag_of(s: Seq<char>) -> Option<DocTag> {
    if s == "intent"@ { Some(DocTag::Intent) }
    else if s == "requires"@ { Some(DocTag::Requires) }
    else if s == "ensures"@ { Some(DocTag::Ensures) }
    else if s == "effects"@ { Some(DocTag::Effects) }
    else if s == "trusted"@ { Some(DocTag::Trusted) }
    else { None }
}

pub fn doc_tag_kind(name: &str) -> (r: Option<DocTag>)
    ensures
        r == doc_tag_of(name@),
{
    if str_eq(name, "intent") { return Some(DocTag::Intent); }
    if str_eq(name, "requires") { return Some(DocTag::Requires); }
    if str_eq(name, "ensures") { return Some(DocTag::Ensures); }
    if str_eq(name, "effects") { return Some(DocTag::Effects); }
    if str_eq(name, "trusted") { return Some(DocTag::Trusted); }
    None
}

/// Every keyword's spelling is recognised as that keyword: the table that
/// spells keywords and the table that recognises them agree.
#[verifier::rlimit(60)]
pub proof fn law_keyword_spelling_round_trip(k: Keyword)
    ensures
        keyword_of(keyword_text(k)) == Some(k),
{
    reveal_strlit("and"); reveal_strlit("as"); reveal_strlit("async"); reveal_strlit("await");
    reveal_strlit("break"); reveal_strlit("chan"); reveal_strlit("continue");
    reveal_strlit("elif"); reveal_strlit("else"); reveal_strlit("enum"); reveal_strlit("err");
    reveal_strlit("extern"); reveal_strlit("false"); reveal_strlit("for"); reveal_strlit("func");
    reveal_strlit("if"); reveal_strlit("implies"); reveal_strlit("in");
    reveal_strlit("invariant"); reveal_strlit("is"); reveal_strlit("let"); reveal_strlit("loop");
    reveal_strlit("match"); reveal_strlit("mut"); reveal_strlit("none"); reveal_strlit("not");
    reveal_strlit("ok"); reveal_strlit("or"); reveal_strlit("post"); reveal_strlit("pre");
    reveal_strlit("recv"); reveal_strlit("record"); reveal_strlit("send"); reveal_strlit("some");
    reveal_strlit("task"); reveal_strlit("transfer"); reveal_strlit("true");
    let t = keyword_text(k);
    assert(t.len() > 0);
    match k {
        Keyword::And => { assert(t[0] == 'a' && t[1] == 'n' && t[2] == 'd'); assert(keyword_of(t) == Some(Keyword::And)); }
        Keyword::As => { assert(t[0] == 'a' && t[1] == 's'); assert(keyword_of(t) == Some(Keyword::As)); }
        Keyword::Async => { assert(t[0] == 'a' && t[1] == 's' && t[2] == 'y' && t[3] == 'n' && t[4] == 'c'); assert(keyword_of(t) == Some(Keyword::Async)); }
        Keyword::Await => { assert(t[0] == 'a' && t[1] == 'w' && t[2] == 'a' && t[3] == 'i' && t[4] == 't'); assert(keyword_of(t) == Some(Keyword::Await)); }
        Keyword::Break => { assert(t[0] == 'b' && t[1] == 'r' && t[2] == 'e' && t[3] == 'a' && t[4] == 'k'); assert(keyword_of(t) == Some(Keyword::Break)); }
        Keyword::Chan => { assert(t[0] == 'c' && t[1] == 'h' && t[2] == 'a' && t[3] == 'n'); assert(keyword_of(t) == Some(Keyword::Chan)); }
        Keyword::Continue => { assert(t[0] == 'c' && t[1] == 'o' && t[2] == 'n' && t[3] == 't' && t[4] == 'i' && t[5] == 'n' && t[6] == 'u' && t[7] == 'e'); assert(keyword_of(t) == Some(Keyword::Continue)); }
        Keyword::Elif => { assert(t[0] == 'e' && t[1] == 'l' && t[2] == 'i' && t[3] == 'f'); assert(keyword_of(t) == Some(Keyword::Elif)); }
        Keyword::Else => { assert(t[0] == 'e' && t[1] == 'l' && t[2] == 's' && t[3] == 'e'); assert(keyword_of(t) == Some(Keyword::Else)); }
        Keyword::Enum => { assert(t[0] == 'e' && t[1] == 'n' && t[2] == 'u' && t[3] == 'm'); assert(keyword_of(t) == Some(Keyword::Enum)); }
        Keyword::ErrKw => { assert(t[0] == 'e' && t[1] == 'r' && t[2] == 'r'); assert(keyword_of(t) == Some(Keyword::ErrKw)); }
        Keyword::Extern => { assert(t[0] == 'e' && t[1] == 'x' && t[2] == 't' && t[3] == 'e' && t[4] == 'r' && t[5] == 'n'); assert(keyword_of(t) == Some(Keyword::Extern)); }
        Keyword::False => { assert(t[0] == 'f' && t[1] == 'a' && t[2] == 'l' && t[3] == 's' && t[4] == 'e'); assert(keyword_of(t) == Some(Keyword::False)); }
        Keyword::For => { assert(t[0] == 'f' && t[1] == 'o' && t[2] == 'r'); assert(keyword_of(t) == Some(Keyword::For)); }
        Keyword::Func => { assert(t[0] == 'f' && t[1] == 'u' && t[2] == 'n' && t[3] == 'c'); assert(keyword_of(t) == Some(Keyword::Func)); }
        Keyword::If => { assert(t[0] == 'i' && t[1] == 'f'); assert(keyword_of(t) == Some(Keyword::If)); }
        Keyword::Implies => { assert(t[0] == 'i' && t[1] == 'm' && t[2] == 'p' && t[3] == 'l' && t[4] == 'i' && t[5] == 'e' && t[6] == 's'); assert(keyword_of(t) == Some(Keyword::Implies)); }
        Keyword::In => { assert(t[0] == 'i' && t[1] == 'n'); assert(keyword_of(t) == Some(Keyword::In)); }
        Keyword::Invariant => { assert(t[0] == 'i' && t[1] == 'n' && t[2] == 'v' && t[3] == 'a' && t[4] == 'r' && t[5] == 'i' && t[6] == 'a' && t[7] == 'n' && t[8] == 't'); assert(keyword_of(t) == Some(Keyword::Invariant)); }
        Keyword::Is => { assert(t[0] == 'i' && t[1] == 's'); assert(keyword_of(t) == Some(Keyword::Is)); }
        Keyword::Let => { assert(t[0] == 'l' && t[1] == 'e' && t[2] == 't'); assert(keyword_of(t) == Some(Keyword::Let)); }
        Keyword::Loop => { assert(t[0] == 'l' && t[1] == 'o' && t[2] == 'o' && t[3] == 'p'); assert(keyword_of(t) == Some(Keyword::Loop)); }
        Keyword::Match => { assert(t[0] == 'm' && t[1] == 'a' && t[2] == 't' && t[3] == 'c' && t[4] == 'h'); assert(keyword_of(t) == Some(Keyword::Match)); }
        Keyword::Mut => { assert(t[0] == 'm' && t[1] == 'u' && t[2] == 't'); assert(keyword_of(t) == Some(Keyword::Mut)); }
        Keyword::NoneKw => { assert(t[0] == 'n' && t[1] == 'o' && t[2] == 'n' && t[3] == 'e'); assert(keyword_of(t) == Some(Keyword::NoneKw)); }
        Keyword::Not => { assert(t[0] == 'n' && t[1] == 'o' && t[2] == 't'); assert(keyword_of(t) == Some(Keyword::Not)); }
        Keyword::OkKw => { assert(t[0] == 'o' && t[1] == 'k'); assert(keyword_of(t) == Some(Keyword::OkKw)); }
        Keyword::Or => { assert(t[0] == 'o' && t[1] == 'r'); assert(keyword_of(t) == Some(Keyword::Or)); }
        Keyword::Post => { assert(t[0] == 'p' && t[1] == 'o' && t[2] == 's' && t[3] == 't'); assert(keyword_of(t) == Some(Keyword::Post)); }
        Keyword::Pre => { assert(t[0] == 'p' && t[1] == 'r' && t[2] == 'e'); assert(keyword_of(t) == Some(Keyword::Pre)); }
        Keyword::Recv => { assert(t[0] == 'r' && t[1] == 'e' && t[2] == 'c' && t[3] == 'v'); assert(keyword_of(t) == Some(Keyword::Recv)); }
        Keyword::Record => { assert(t[0] == 'r' && t[1] == 'e' && t[2] == 'c' && t[3] == 'o' && t[4] == 'r' && t[5] == 'd'); assert(keyword_of(t) == Some(Keyword::Record)); }
        Keyword::Send => { assert(t[0] == 's' && t[1] == 'e' && t[2] == 'n' && t[3] == 'd'); assert(keyword_of(t) == Some(Keyword::Send)); }
        Keyword::SomeKw => { assert(t[0] == 's' && t[1] == 'o' && t[2] == 'm' && t[3] == 'e'); assert(keyword_of(t) == Some(Keyword::SomeKw)); }
        Keyword::Task => { assert(t[0] == 't' && t[1] == 'a' && t[2] == 's' && t[3] == 'k'); assert(keyword_of(t) == Some(Keyword::Task)); }
        Keyword::Transfer => { assert(t[0] == 't' && t[1] == 'r' && t[2] == 'a' && t[3] == 'n' && t[4] == 's' && t[5] == 'f' && t[6] == 'e' && t[7] == 'r'); assert(keyword_of(t) == Some(Keyword::Transfer)); }
        Keyword::True => { assert(t[0] == 't' && t[1] == 'r' && t[2] == 'u' && t[3] == 'e'); assert(keyword_of(t) == Some(Keyword::True)); }
    }
}

} // verus!
