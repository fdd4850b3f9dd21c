//! The lexer: source text to tokens (and, for the formatter, comments).
use vstd::prelude::*;
use crate::chars::{digits_value, is_ascii_digit, is_hex_digit, is_ident_char, is_ident_start, parse_digits, parse_hex, spec_is_digit, spec_is_hex_digit, spec_is_ident_char, spec_is_ident_start, trim};
use crate::keywords::{keyword_kind, keyword_of, doc_tag_kind};
use crate::text::{push_char, push_str, string_of};
use crate::token::{Comment, DocTag, LexError, Marker, Punct, Span, TokKind, Token, well_formed_tokens};

verus! {

/// `char::from_u32`: the character with code point `cp`, or `None` when `cp`
/// is a surrogate or above U+10FFFF.
#[verifier::external_body]
fn char_from_u32(cp: u32) -> (r: Option<char>)
    ensures
        r matches Some(c) ==> c as u32 == cp,
        r is None <==> (cp > 0x10FFFF || (0xD800 <= cp && cp <= 0xDFFF)),
{
    char::from_u32(cp)
}

/// Every token is tagged with `file` and none of them is the end marker.
pub open spec fn tokens_in_file(ts: Seq<Token>, file: Seq<char>) -> bool {
    forall|k: int| 0 <= k < ts.len() ==> (#[trigger] ts[k]).span.file@ == file && !(ts[k].kind is Eof)
}

/// Every comment is tagged with `file`.
pub open spec fn comments_in_file(cs: Seq<Comment>, file: Seq<char>) -> bool {
    forall|k: int| 0 <= k < cs.len() ==> (#[trigger] cs[k]).span.file@ == file
}

/// A blank character: space, tab, carriage return or newline.
pub open spec fn is_blank_char(c: char) -> bool {
    c == ' ' || c == '\t' || c == '\r' || c == '\n'
}

/// A text of blank characters only.
pub open spec fn blank_text(s: Seq<char>) -> bool {
    forall|i: int| 0 <= i < s.len() ==> is_blank_char(#[trigger] s[i])
}

/// A character that is an operator or delimiter on its own (`/` aside,
/// which may open a comment).
pub open spec fn punct_char(c: char) -> bool {
    c == '(' || c == ')' || c == '[' || c == ']' || c == '{' || c == '}' || c == ',' || c == ':' || c == '.'
        || c == '?' || c == '+' || c == '-' || c == '*' || c == '%' || c == '<' || c == '>' || c == '='
        || c == '|' || c == '_'
}

/// A text of blanks, words, markers and operators other than `/`: ASCII
/// letters, `_`, digits that continue a word, and `@` opening a known
/// marker. It holds no number, literal, comment or marker that could be
/// malformed.
pub open spec fn plain_text(s: Seq<char>) -> bool {
    forall|i: int| 0 <= i < s.len() ==> is_blank_char(#[trigger] s[i]) || spec_is_ident_start(s[i]) || punct_char(s[i])
        || (spec_is_digit(s[i]) && i > 0 && spec_is_ident_char(s[i - 1])) || marker_at(s, i)
}

/// The marker a word names after `@`.
pub open spec fn marker_of(w: Seq<char>) -> Option<Marker> {
    if w == "cstruct"@ {
        Some(Marker::Cstruct)
    } else if w == "export"@ {
        Some(Marker::Export)
    } else if w == "interface"@ {
        Some(Marker::Interface)
    } else {
        None
    }
}

/// An `@` at `i` that opens a known marker.
pub open spec fn marker_at(s: Seq<char>, i: int) -> bool {
    0 <= i < s.len() && s[i] == '@' && marker_of(s.subrange(i + 1, word_end(s, i + 1))) is Some
}

/// The end of the run of identifier characters that starts at `i`.
pub open spec fn word_end(s: Seq<char>, i: int) -> int
    decreases s.len() - i,
{
    if 0 <= i < s.len() && spec_is_ident_char(s[i]) {
        word_end(s, i + 1)
    } else {
        i
    }
}

/// A run of identifier characters ends within the text, after its start.
pub proof fn lemma_word_end(s: Seq<char>, i: int)
    requires
        0 <= i <= s.len(),
    ensures
        i <= word_end(s, i) <= s.len(),
        forall|k: int| i <= k < word_end(s, i) ==> spec_is_ident_char(#[trigger] s[k]),
        word_end(s, i) < s.len() ==> !spec_is_ident_char(s[word_end(s, i)]),
    decreases s.len() - i,
{
    if i < s.len() && spec_is_ident_char(s[i]) {
        lemma_word_end(s, i + 1);
    }
}

/// The character after position `i`, or `'\0'` past the end.
pub open spec fn char_after(s: Seq<char>, i: int) -> char {
    if 0 <= i + 1 < s.len() {
        s[i + 1]
    } else {
        '\0'
    }
}

/// The operator two characters spell, if any.
pub open spec fn punct_pair(c: char, d: char) -> Option<Punct> {
    if c == '=' && d == '=' {
        Some(Punct::EqEq)
    } else if c == '!' && d == '=' {
        Some(Punct::NotEq)
    } else if c == '<' && d == '=' {
        Some(Punct::Le)
    } else if c == '>' && d == '=' {
        Some(Punct::Ge)
    } else if c == '+' && d == '=' {
        Some(Punct::PlusEq)
    } else if c == '-' && d == '=' {
        Some(Punct::MinusEq)
    } else if c == '*' && d == '=' {
        Some(Punct::StarEq)
    } else if c == '/' && d == '=' {
        Some(Punct::SlashEq)
    } else if c == '-' && d == '>' {
        Some(Punct::Arrow)
    } else if c == '<' && d == '-' {
        Some(Punct::LeftArrow)
    } else {
        None
    }
}

/// The operator or delimiter one character is.
pub open spec fn punct_single(c: char) -> Option<Punct> {
    if c == '(' {
        Some(Punct::LParen)
    } else if c == ')' {
        Some(Punct::RParen)
    } else if c == '[' {
        Some(Punct::LBracket)
    } else if c == ']' {
        Some(Punct::RBracket)
    } else if c == '{' {
        Some(Punct::LBrace)
    } else if c == '}' {
        Some(Punct::RBrace)
    } else if c == ',' {
        Some(Punct::Comma)
    } else if c == ':' {
        Some(Punct::Colon)
    } else if c == '.' {
        Some(Punct::Dot)
    } else if c == '?' {
        Some(Punct::Question)
    } else if c == '+' {
        Some(Punct::Plus)
    } else if c == '-' {
        Some(Punct::Minus)
    } else if c == '*' {
        Some(Punct::Star)
    } else if c == '/' {
        Some(Punct::Slash)
    } else if c == '%' {
        Some(Punct::Percent)
    } else if c == '<' {
        Some(Punct::Lt)
    } else if c == '>' {
        Some(Punct::Gt)
    } else if c == '=' {
        Some(Punct::Assign)
    } else if c == '|' {
        Some(Punct::Pipe)
    } else if c == '_' {
        Some(Punct::Underscore)
    } else {
        None
    }
}

/// The tokens of a plain text from position `i` on, each as the stretch of
/// text it covers and, for an operator, which operator it is. A word is a
/// longest run of identifier characters; an operator takes two characters
/// when they spell one.
pub open spec fn plain_tokens(s: Seq<char>, i: int) -> Seq<(int, int, Option<Punct>)>
    decreases s.len() - i,
{
    if i < 0 || i >= s.len() {
        Seq::empty()
    } else if is_blank_char(s[i]) {
        plain_tokens(s, i + 1)
    } else if spec_is_ident_start(s[i]) {
        proof {
            lemma_word_end(s, i + 1);
        }
        seq![(i, word_end(s, i), None::<Punct>)] + plain_tokens(s, word_end(s, i))
    } else if marker_at(s, i) {
        proof {
            lemma_word_end(s, i + 1);
        }
        seq![(i, word_end(s, i + 1), None::<Punct>)] + plain_tokens(s, word_end(s, i + 1))
    } else if punct_pair(s[i], char_after(s, i)) is Some {
        seq![(i, i + 2, punct_pair(s[i], char_after(s, i)))] + plain_tokens(s, i + 2)
    } else if punct_single(s[i]) is Some {
        seq![(i, i + 1, punct_single(s[i]))] + plain_tokens(s, i + 1)
    } else {
        Seq::empty()
    }
}

/// The token the lexer makes of one entry of `plain_tokens`: an operator
/// token with no text, or a word's keyword or identifier token carrying the
/// word.
pub open spec fn plain_token_is(t: Token, s: Seq<char>, e: (int, int, Option<Punct>)) -> bool {
    match e.2 {
        Some(p) => t.kind == TokKind::Punct(p) && t.text@.len() == 0,
        None => {
            let w = s.subrange(e.0, e.1);
            &&& t.text@ == w
            &&& if s[e.0] == '@' {
                marker_of(s.subrange(e.0 + 1, e.1)) matches Some(m) && t.kind == TokKind::At(m)
            } else {
                match keyword_of(w) {
                    Some(k) => t.kind == TokKind::Kw(k),
                    None => t.kind matches TokKind::Ident(n) && n@ == w,
                }
            }
        },
    }
}

/// `ts` is what a plain text lexes to: its plain tokens in order, then the
/// end marker.
pub open spec fn lexes_plainly(ts: Seq<Token>, s: Seq<char>) -> bool {
    let es = plain_tokens(s, 0);
    &&& ts.len() == es.len() + 1
    &&& forall|k: int| 0 <= k < es.len() ==> plain_token_is(#[trigger] ts[k], s, es[k])
}

/// Each plain token from `i` on covers a non-empty stretch of the text at or
/// after `i`.
pub proof fn lemma_plain_tokens_bounds(s: Seq<char>, i: int)
    requires
        0 <= i,
    ensures
        forall|k: int| 0 <= k < plain_tokens(s, i).len() ==> i <= (#[trigger] plain_tokens(s, i)[k]).0
            && plain_tokens(s, i)[k].0 < plain_tokens(s, i)[k].1 <= s.len(),
    decreases s.len() - i,
{
    if i < s.len() {
        if is_blank_char(s[i]) {
            lemma_plain_tokens_bounds(s, i + 1);
        } else if spec_is_ident_start(s[i]) {
            lemma_word_end(s, i + 1);
            lemma_word_end(s, i);
            lemma_plain_tokens_bounds(s, word_end(s, i));
            let rest = plain_tokens(s, word_end(s, i));
            assert forall|k: int| 0 <= k < plain_tokens(s, i).len() implies i <= (#[trigger] plain_tokens(s, i)[k]).0
                && plain_tokens(s, i)[k].0 < plain_tokens(s, i)[k].1 <= s.len() by {
                if k > 0 {
                    assert(plain_tokens(s, i)[k] == rest[k - 1]);
                }
            }
        } else if marker_at(s, i) {
            lemma_word_end(s, i + 1);
            lemma_plain_tokens_bounds(s, word_end(s, i + 1));
            let rest = plain_tokens(s, word_end(s, i + 1));
            assert forall|k: int| 0 <= k < plain_tokens(s, i).len() implies i <= (#[trigger] plain_tokens(s, i)[k]).0
                && plain_tokens(s, i)[k].0 < plain_tokens(s, i)[k].1 <= s.len() by {
                if k > 0 {
                    assert(plain_tokens(s, i)[k] == rest[k - 1]);
                }
            }
        } else if punct_pair(s[i], char_after(s, i)) is Some {
            lemma_plain_tokens_bounds(s, i + 2);
            let rest = plain_tokens(s, i + 2);
            assert(i + 1 < s.len());
            assert forall|k: int| 0 <= k < plain_tokens(s, i).len() implies i <= (#[trigger] plain_tokens(s, i)[k]).0
                && plain_tokens(s, i)[k].0 < plain_tokens(s, i)[k].1 <= s.len() by {
                if k > 0 {
                    assert(plain_tokens(s, i)[k] == rest[k - 1]);
                }
            }
        } else if punct_single(s[i]) is Some {
            lemma_plain_tokens_bounds(s, i + 1);
            let rest = plain_tokens(s, i + 1);
            assert forall|k: int| 0 <= k < plain_tokens(s, i).len() implies i <= (#[trigger] plain_tokens(s, i)[k]).0
                && plain_tokens(s, i)[k].0 < plain_tokens(s, i)[k].1 <= s.len() by {
                if k > 0 {
                    assert(plain_tokens(s, i)[k] == rest[k - 1]);
                }
            }
        }
    }
}

/// `t` without its `_` separators.
pub open spec fn strip_underscores(t: Seq<char>) -> Seq<char>
    decreases t.len(),
{
    if t.len() == 0 {
        Seq::empty()
    } else if t.last() == '_' {
        strip_underscores(t.drop_last())
    } else {
        strip_underscores(t.drop_last()).push(t.last())
    }
}

/// The value an integer literal's text spells: hexadecimal after `0x` or
/// `0X`, decimal otherwise, `_` separators ignored.
pub open spec fn int_text_value(t: Seq<char>) -> nat {
    if t.len() >= 2 && t[0] == '0' && (t[1] == 'x' || t[1] == 'X') {
        digits_value(strip_underscores(t.subrange(2, t.len() as int)), 16)
    } else {
        digits_value(strip_underscores(t), 10)
    }
}

/// The character an escape letter stands for after a backslash in a string
/// or character literal: `n` a line feed (U+000A), `t` a tab (U+0009), `r`
/// a carriage return (U+000D), and `\\`, `"` and `'` themselves.
pub open spec fn escape_meaning(e: char) -> Option<char> {
    if e == 'n' {
        Some('\n')
    } else if e == 't' {
        Some('\t')
    } else if e == 'r' {
        Some('\r')
    } else if e == '\\' {
        Some('\\')
    } else if e == '"' {
        Some('"')
    } else if e == '\'' {
        Some('\'')
    } else {
        None
    }
}

/// Escapes read back what the formatter writes: wherever the formatter
/// writes a character `c` of a literal as a backslash escape, reading that
/// escape gives `c` again; and every escape the lexer knows stands for a
/// character the formatter writes as that very escape.
pub proof fn law_escapes_read_back_what_the_formatter_writes(c: char, q: char, e: char)
    requires
        q == '"' || q == '\'',
    ensures
        crate::format::lit_char(c, q).len() == 2 ==> crate::format::lit_char(c, q)[0] == '\\' && escape_meaning(
            crate::format::lit_char(c, q)[1],
        ) == Some(c),
        escape_meaning(e) matches Some(x) ==> crate::format::lit_char(x, '\'') == seq!['\\', e],
{
}

/// Taking the next entry off the unread end of a sequence.
proof fn lemma_take_next<A>(all: Seq<A>, m: int, e: A, rest: Seq<A>)
    requires
        0 <= m <= all.len(),
        all.subrange(m, all.len() as int) == seq![e] + rest,
    ensures
        m < all.len(),
        all[m] == e,
        all.subrange(m + 1, all.len() as int) == rest,
{
    assert(all.subrange(m, all.len() as int).len() == 1 + rest.len());
    assert(all.subrange(m, all.len() as int)[0] == all[m]);
    assert(all.subrange(m + 1, all.len() as int) =~= (seq![e] + rest).subrange(1, 1 + rest.len() as int));
    assert((seq![e] + rest).subrange(1, 1 + rest.len() as int) =~= rest);
}

struct Lexer {
    src: Vec<char>,
    i: usize,
    line: usize,
    col: usize,
    file: String,
    tokens: Vec<Token>,
    comments: Vec<Comment>,
}

impl Lexer {
    spec fn inv(&self) -> bool {
        &&& self.i <= self.src.len()
        &&& self.src.len() < usize::MAX
        &&& 1 <= self.line <= self.i + 1
        &&& 1 <= self.col <= self.i + 1
        &&& tokens_in_file(self.tokens@, self.file@)
        &&& comments_in_file(self.comments@, self.file@)
    }

    spec fn same_input(&self, other: &Lexer) -> bool {
        self.src@ == other.src@ && self.file@ == other.file@
    }

    fn peek(&self, offset: usize) -> (c: char)
        requires
            self.inv(),
        ensures
            offset < self.src.len() - self.i ==> c == self.src@[self.i + offset],
            offset >= self.src.len() - self.i ==> c == '\0',
    {
        if offset < self.src.len() - self.i {
            self.src[self.i + offset]
        } else {
            '\0'
        }
    }

    fn advance(&mut self, n: usize)
        requires
            old(self).inv(),
        ensures
            final(self).inv(),
            final(self).same_input(old(self)),
            final(self).tokens@ == old(self).tokens@,
            final(self).comments@ == old(self).comments@,
            final(self).i == if n <= old(self).src.len() - old(self).i { old(self).i + n } else { old(self).src.len() as int },
    {
        let mut k: usize = 0;
        while k < n
            invariant
                self.inv(),
                self.same_input(old(self)),
                self.tokens@ == old(self).tokens@,
                self.comments@ == old(self).comments@,
                k <= n,
                self.i == if k <= old(self).src.len() - old(self).i { old(self).i + k } else { old(self).src.len() as int },
            decreases n - k,
        {
            if self.i < self.src.len() {
                if self.src[self.i] == '\n' {
                    self.line = self.line + 1;
                    self.col = 1;
                } else {
                    self.col = self.col + 1;
                }
                self.i = self.i + 1;
            }
            k += 1;
        }
    }

    fn pos(&self) -> (p: (usize, usize))
        ensures
            p == (self.line, self.col),
    {
        (self.line, self.col)
    }

    fn err(&self, message: String, start: (usize, usize)) -> (e: LexError)
        ensures
            e.span.file@ == self.file@,
            e.message@ == message@,
            e.span.start == start,
            e.span.end == (self.line, self.col),
    {
        LexError { message, span: Span { file: self.file.clone(), start, end: (self.line, self.col) } }
    }

    fn push(&mut self, kind: TokKind, start: (usize, usize), text: String)
        requires
            old(self).inv(),
            !(kind is Eof),
        ensures
            final(self).inv(),
            final(self).same_input(old(self)),
            final(self).i == old(self).i,
            final(self).comments@ == old(self).comments@,
            final(self).tokens@.drop_last() == old(self).tokens@,
            final(self).tokens@.len() == old(self).tokens@.len() + 1,
            final(self).tokens@.last().kind == kind,
            final(self).tokens@.last().text@ == text@,
    {
        let span = Span { file: self.file.clone(), start, end: (self.line, self.col) };
        self.tokens.push(Token { kind, span, text });
    }

    fn push_punct(&mut self, p: Punct)
        requires
            old(self).inv(),
        ensures
            final(self).inv(),
            final(self).same_input(old(self)),
            final(self).i == old(self).i,
            final(self).comments@ == old(self).comments@,
            final(self).tokens@.drop_last() == old(self).tokens@,
            final(self).tokens@.len() == old(self).tokens@.len() + 1,
            final(self).tokens@.last().kind == TokKind::Punct(p),
            final(self).tokens@.last().text@.len() == 0,
    {
        let here = self.pos();
        self.push(TokKind::Punct(p), here, String::new());
    }

    fn push_comment(&mut self, text: String, start: (usize, usize))
        requires
            old(self).inv(),
        ensures
            final(self).inv(),
            final(self).same_input(old(self)),
            final(self).i == old(self).i,
            final(self).tokens@ == old(self).tokens@,
            final(self).comments@.drop_last() == old(self).comments@,
            final(self).comments@.len() == old(self).comments@.len() + 1,
            final(self).comments@.last().text@ == text@,
            final(self).comments@.last().span.start == start,
            final(self).comments@.last().span.end == (old(self).line, old(self).col),
    {
        let span = Span { file: self.file.clone(), start, end: (self.line, self.col) };
        self.comments.push(Comment { text, span });
        assert(self.comments@.drop_last() =~= old(self).comments@);
    }

    /// Consumes characters up to (not including) the next newline; returns them.
    fn take_line(&mut self) -> (text: Vec<char>)
        requires
            old(self).inv(),
        ensures
            final(self).inv(),
            final(self).same_input(old(self)),
            final(self).tokens@ == old(self).tokens@,
            final(self).comments@ == old(self).comments@,
            final(self).i >= old(self).i,
            text@ == old(self).src@.subrange(old(self).i as int, final(self).i as int),
            forall|k: int| 0 <= k < text@.len() ==> text@[k] != '\n',
            final(self).i == old(self).src@.len() || old(self).src@[final(self).i as int] == '\n',
    {
        let mut text: Vec<char> = Vec::new();
        while self.i < self.src.len() && self.src[self.i] != '\n'
            invariant
                self.inv(),
                self.same_input(old(self)),
                self.tokens@ == old(self).tokens@,
                self.comments@ == old(self).comments@,
                self.i >= old(self).i,
                text@ == self.src@.subrange(old(self).i as int, self.i as int),
                forall|k: int| 0 <= k < text@.len() ==> text@[k] != '\n',
            decreases self.src.len() - self.i,
        {
            let ghost at = self.i;
            text.push(self.src[self.i]);
            self.advance(1);
            assert(text@ =~= self.src@.subrange(old(self).i as int, self.i as int));
        }
        text
    }

    /// A `//` line comment, which is a doc-comment claim when it starts `///`.
    fn lex_line_comment(&mut self) -> (r: Result<(), LexError>)
        requires
            old(self).inv(),
            old(self).i < old(self).src.len(),
        ensures
            final(self).inv(),
            final(self).same_input(old(self)),
            final(self).i > old(self).i,
            r matches Err(e) ==> e.span.file@ == old(self).file@,
    {
        let start = self.pos();
        let first = self.i;
        self.advance(2);
        let is_doc = self.peek(0) == '/';
        let mut tag_start = start;
        if is_doc {
            self.advance(1);
            while self.peek(0) == ' '
                invariant
                    self.inv(),
                    self.same_input(old(self)),
                    self.tokens@ == old(self).tokens@,
                    self.comments@ == old(self).comments@,
                    self.i > old(self).i,
                decreases self.src.len() - self.i,
            {
                self.advance(1);
            }
            tag_start = self.pos();
        }
        let rest = self.take_line();
        let mut whole = String::new();
        let mut k: usize = first;
        while k < self.i
            invariant
                first <= k <= self.i <= self.src.len(),
            decreases self.i - k,
        {
            push_char(&mut whole, self.src[k]);
            k += 1;
        }
        self.push_comment(whole, start);
        if !is_doc {
            return Ok(());
        }
        // "///": a claim line, `@tag text` or plain prose (an intent line).
        let mut j: usize = 0;
        let mut tag = DocTag::Intent;
        if j < rest.len() && rest[j] == '@' {
            let mut name: Vec<char> = Vec::new();
            j += 1;
            while j < rest.len() && is_ident_char(rest[j])
                invariant
                    j <= rest.len(),
                decreases rest.len() - j,
            {
                name.push(rest[j]);
                j += 1;
            }
            let name_s = string_of(&name);
            match doc_tag_kind(name_s.as_str()) {
                Some(t) => { tag = t; }
                None => {
                    let mut msg = String::new();
                    push_str(&mut msg, "unknown intent tag @");
                    push_str(&mut msg, name_s.as_str());
                    return Err(self.err(msg, tag_start));
                }
            }
        }
        let mut body: Vec<char> = Vec::new();
        while j < rest.len()
            invariant
                j <= rest.len(),
            decreases rest.len() - j,
        {
            body.push(rest[j]);
            j += 1;
        }
        let text = string_of(&trim(&body));
        self.push(TokKind::Doc(tag), tag_start, text);
        Ok(())
    }

    fn lex_block_comment(&mut self) -> (r: Result<(), LexError>)
        requires
            old(self).inv(),
            old(self).i < old(self).src.len(),
        ensures
            final(self).inv(),
            final(self).same_input(old(self)),
            final(self).i > old(self).i,
            r matches Err(e) ==> e.span.file@ == old(self).file@,
    {
        let start = self.pos();
        let first = self.i;
        self.advance(2);
        let mut closed = false;
        while self.i < self.src.len()
            invariant
                self.inv(),
                self.same_input(old(self)),
                self.i > old(self).i,
            decreases self.src.len() - self.i,
        {
            if self.src[self.i] == '*' && self.peek(1) == '/' {
                self.advance(2);
                closed = true;
                break;
            }
            self.advance(1);
        }
        if !closed {
            return Err(self.err(String::from_str("unterminated block comment"), start));
        }
        let mut whole = String::new();
        let mut k: usize = first;
        while k < self.i
            invariant
                first <= k <= self.i <= self.src.len(),
            decreases self.i - k,
        {
            push_char(&mut whole, self.src[k]);
            k += 1;
        }
        self.push_comment(whole, start);
        Ok(())
    }

    fn lex_word(&mut self)
        requires
            old(self).inv(),
            old(self).i < old(self).src.len(),
            spec_is_ident_start(old(self).src@[old(self).i as int]),
        ensures
            final(self).inv(),
            final(self).same_input(old(self)),
            final(self).i > old(self).i,
            final(self).i == word_end(old(self).src@, old(self).i as int),
            final(self).comments@ == old(self).comments@,
            final(self).tokens@.drop_last() == old(self).tokens@,
            final(self).tokens@.len() == old(self).tokens@.len() + 1,
            plain_token_is(
                final(self).tokens@.last(),
                old(self).src@,
                (old(self).i as int, word_end(old(self).src@, old(self).i as int), None::<Punct>),
            ),
    {
        let start = self.pos();
        let mut name = String::new();
        proof {
            lemma_word_end(self.src@, self.i as int);
        }
        while is_ident_char(self.peek(0))
            invariant
                self.inv(),
                self.same_input(old(self)),
                self.i >= old(self).i,
                self.i == old(self).i ==> self.i < self.src.len() && spec_is_ident_start(self.src@[self.i as int]),
                self.tokens@ == old(self).tokens@,
                self.comments@ == old(self).comments@,
                name@ == self.src@.subrange(old(self).i as int, self.i as int),
                word_end(self.src@, self.i as int) == word_end(old(self).src@, old(self).i as int),
            decreases self.src.len() - self.i,
        {
            let ghost at = self.i;
            push_char(&mut name, self.peek(0));
            self.advance(1);
            proof {
                assert(self.src@.subrange(old(self).i as int, self.i as int)
                    == self.src@.subrange(old(self).i as int, at as int).push(self.src@[at as int]));
            }
        }
        let kind = match keyword_kind(name.as_str()) {
            Some(k) => TokKind::Kw(k),
            None => TokKind::Ident(name.clone()),
        };
        self.push(kind, start, name);
    }

    fn lex_marker(&mut self) -> (r: Result<(), LexError>)
        requires
            old(self).inv(),
            old(self).i < old(self).src.len(),
        ensures
            final(self).inv(),
            final(self).same_input(old(self)),
            final(self).i > old(self).i,
            r matches Err(e) ==> e.span.file@ == old(self).file@,
            marker_at(old(self).src@, old(self).i as int) ==> {
                &&& r is Ok
                &&& final(self).i == word_end(old(self).src@, old(self).i + 1)
                &&& final(self).comments@ == old(self).comments@
                &&& final(self).tokens@.drop_last() == old(self).tokens@
                &&& final(self).tokens@.len() == old(self).tokens@.len() + 1
                &&& plain_token_is(
                    final(self).tokens@.last(),
                    old(self).src@,
                    (old(self).i as int, word_end(old(self).src@, old(self).i + 1), None::<Punct>),
                )
            },
    {
        let start = self.pos();
        self.advance(1);
        let mut name = String::new();
        proof {
            lemma_word_end(self.src@, self.i as int);
        }
        while is_ident_char(self.peek(0))
            invariant
                self.inv(),
                self.same_input(old(self)),
                self.i > old(self).i,
                self.i <= self.src.len(),
                old(self).i + 1 <= self.i,
                self.tokens@ == old(self).tokens@,
                self.comments@ == old(self).comments@,
                name@ == self.src@.subrange(old(self).i + 1, self.i as int),
                word_end(self.src@, self.i as int) == word_end(old(self).src@, old(self).i + 1),
            decreases self.src.len() - self.i,
        {
            let ghost at = self.i;
            push_char(&mut name, self.peek(0));
            self.advance(1);
            proof {
                assert(self.src@.subrange(old(self).i + 1, self.i as int)
                    == self.src@.subrange(old(self).i + 1, at as int).push(self.src@[at as int]));
            }
        }
        let marker = if crate::text::str_eq(name.as_str(), "cstruct") {
            Marker::Cstruct
        } else if crate::text::str_eq(name.as_str(), "export") {
            Marker::Export
        } else if crate::text::str_eq(name.as_str(), "interface") {
            Marker::Interface
        } else {
            let mut msg = String::new();
            push_str(&mut msg, "unknown attribute @");
            push_str(&mut msg, name.as_str());
            return Err(self.err(msg, start));
        };
        let mut text = String::new();
        push_char(&mut text, '@');
        push_str(&mut text, name.as_str());
        proof {
            if marker_at(old(self).src@, old(self).i as int) {
                assert(self.src@.subrange(old(self).i as int, self.i as int) =~= seq!['@'] + name@);
            }
        }
        self.push(TokKind::At(marker), start, text);
        Ok(())
    }

    /// Digits (and `_` separators) at the cursor: the text as written and
    /// the digits without the separators.
    fn take_digits(&mut self, hex: bool) -> (r: (String, Vec<char>))
        requires
            old(self).inv(),
        ensures
            final(self).inv(),
            final(self).same_input(old(self)),
            final(self).i >= old(self).i,
            final(self).tokens@ == old(self).tokens@,
            final(self).comments@ == old(self).comments@,
            forall|k: int| 0 <= k < r.1@.len() ==> #[trigger] spec_is_hex_digit(r.1@[k])
                && (!hex ==> spec_is_digit(r.1@[k])),
            (old(self).i < old(self).src.len() && spec_is_digit(old(self).src@[old(self).i as int]))
                ==> final(self).i > old(self).i,
            r.1@ == strip_underscores(r.0@),
            !hex ==> forall|k: int| 0 <= k < r.0@.len() ==> spec_is_digit(#[trigger] r.0@[k]) || r.0@[k] == '_',
    {
        let mut text = String::new();
        let mut digits: Vec<char> = Vec::new();
        loop
            invariant
                self.inv(),
                self.same_input(old(self)),
                self.i >= old(self).i,
                self.tokens@ == old(self).tokens@,
                self.comments@ == old(self).comments@,
                forall|k: int| 0 <= k < digits@.len() ==> spec_is_hex_digit(#[trigger] digits@[k])
                    && (!hex ==> spec_is_digit(digits@[k])),
                digits@ == strip_underscores(text@),
                !hex ==> forall|k: int| 0 <= k < text@.len() ==> spec_is_digit(#[trigger] text@[k]) || text@[k] == '_',
            ensures
                self.inv(),
                self.same_input(old(self)),
                self.i >= old(self).i,
                self.tokens@ == old(self).tokens@,
                self.comments@ == old(self).comments@,
                forall|k: int| 0 <= k < digits@.len() ==> spec_is_hex_digit(#[trigger] digits@[k])
                    && (!hex ==> spec_is_digit(digits@[k])),
                (old(self).i < old(self).src.len() && spec_is_digit(old(self).src@[old(self).i as int]))
                    ==> self.i > old(self).i,
                digits@ == strip_underscores(text@),
                !hex ==> forall|k: int| 0 <= k < text@.len() ==> spec_is_digit(#[trigger] text@[k]) || text@[k] == '_',
            decreases self.src.len() - self.i,
        {
            let c = self.peek(0);
            let ok = if hex { is_hex_digit(c) } else { is_ascii_digit(c) };
            if !(ok || c == '_') {
                break;
            }
            let ghost t0 = text@;
            push_char(&mut text, c);
            proof {
                assert(text@.drop_last() == t0);
            }
            if c != '_' {
                assert(ok);
                assert(spec_is_hex_digit(c));
                assert(!hex ==> spec_is_digit(c));
                digits.push(c);
                assert(digits@.last() == c);
            }
            self.advance(1);
        }
        (text, digits)
    }

    fn lex_number(&mut self) -> (r: Result<(), LexError>)
        requires
            old(self).inv(),
            old(self).i < old(self).src.len(),
            spec_is_digit(old(self).src@[old(self).i as int]),
        ensures
            final(self).inv(),
            final(self).same_input(old(self)),
            final(self).i > old(self).i,
            r matches Err(e) ==> e.span.file@ == old(self).file@,
            r is Ok ==> final(self).tokens@.drop_last() == old(self).tokens@ && final(self).tokens@.len()
                == old(self).tokens@.len() + 1,
            r is Ok ==> (final(self).tokens@.last().kind matches TokKind::Int(v) ==> v as nat == int_text_value(
                final(self).tokens@.last().text@,
            )),
    {
        let start = self.pos();
        let mut text = String::new();
        let mut digits: Vec<char> = Vec::new();
        let c = self.src[self.i];
        if c == '0' && (self.peek(1) == 'x' || self.peek(1) == 'X') {
            push_char(&mut text, c);
            self.advance(1);
            push_char(&mut text, self.peek(0));
            self.advance(1);
            let ghost head = text@;
            let (t, ds) = self.take_digits(true);
            push_str(&mut text, t.as_str());
            digits = ds;
            proof {
                assert(head.len() == 2 && head[0] == '0' && (head[1] == 'x' || head[1] == 'X'));
                assert(text@.subrange(2, text@.len() as int) =~= t@);
            }
            return match parse_hex(&digits) {
                Some(v) => {
                    self.push(TokKind::Int(v), start, text);
                    Ok(())
                }
                None => Err(self.err(String::from_str("integer literal does not fit in 64 bits"), start)),
            };
        }
        let (t0, ds0) = self.take_digits(false);
        push_str(&mut text, t0.as_str());
        digits = ds0;
        let mut is_float = false;
        let mut ftext: Vec<char> = digits.clone();
        if self.peek(0) == '.' && is_ascii_digit(self.peek(1)) {
            is_float = true;
            push_char(&mut text, '.');
            ftext.push('.');
            self.advance(1);
            let (tf, frac) = self.take_digits(false);
            push_str(&mut text, tf.as_str());
            let mut k: usize = 0;
            while k < frac.len()
                invariant
                    k <= frac.len(),
                decreases frac.len() - k,
            {
                ftext.push(frac[k]);
                k += 1;
            }
        }
        if self.peek(0) == 'e' || self.peek(0) == 'E' {
            let sign = self.peek(1) == '+' || self.peek(1) == '-';
            let j: usize = if sign { 2 } else { 1 };
            if is_ascii_digit(self.peek(j)) {
                is_float = true;
                let e = self.peek(0);
                push_char(&mut text, e);
                ftext.push(e);
                self.advance(1);
                if sign {
                    let s = self.peek(0);
                    push_char(&mut text, s);
                    ftext.push(s);
                    self.advance(1);
                }
                let (te, exp) = self.take_digits(false);
                push_str(&mut text, te.as_str());
                let mut k: usize = 0;
                while k < exp.len()
                    invariant
                        k <= exp.len(),
                    decreases exp.len() - k,
                {
                    ftext.push(exp[k]);
                    k += 1;
                }
            }
        }
        if is_float {
            self.push(TokKind::Float(string_of(&ftext)), start, text);
            Ok(())
        } else {
            match parse_digits(&digits, 10) {
                Some(v) => {
                    self.push(TokKind::Int(v), start, text);
                    Ok(())
                }
                None => Err(self.err(String::from_str("integer literal does not fit in 64 bits"), start)),
            }
        }
    }

    /// The character an escape letter stands for, for the escapes shared by
    /// string and character literals.
    fn simple_escape(e: char) -> (r: Option<char>)
        ensures
            r is Some <==> (e == 'n' || e == 't' || e == 'r' || e == '\\' || e == '"' || e == '\''),
            r == escape_meaning(e),
    {
        if e == 'n' { Some('\n') }
        else if e == 't' { Some('\t') }
        else if e == 'r' { Some('\r') }
        else if e == '\\' { Some('\\') }
        else if e == '"' { Some('"') }
        else if e == '\'' { Some('\'') }
        else { None }
    }

    fn unknown_escape(&self, e: char) -> (err: LexError)
        ensures
            err.span.file@ == self.file@,
    {
        let mut msg = String::new();
        push_str(&mut msg, "unknown escape \\");
        push_char(&mut msg, e);
        self.err(msg, self.pos())
    }

    fn lex_string(&mut self) -> (r: Result<(), LexError>)
        requires
            old(self).inv(),
            old(self).i < old(self).src.len(),
        ensures
            final(self).inv(),
            final(self).same_input(old(self)),
            final(self).i > old(self).i,
            r matches Err(e) ==> e.span.file@ == old(self).file@,
    {
        let start = self.pos();
        self.advance(1);
        let mut s = String::new();
        let mut closed = false;
        while self.i < self.src.len()
            invariant
                self.inv(),
                self.same_input(old(self)),
                self.i > old(self).i,
            decreases self.src.len() - self.i,
        {
            let ghost top = self.i;
            let ch = self.src[self.i];
            if ch == '"' {
                self.advance(1);
                closed = true;
                break;
            }
            if ch == '\n' {
                break;
            }
            if ch == '\\' {
                self.advance(1);
                if self.i >= self.src.len() {
                    break;
                }
                let e = self.src[self.i];
                if e == 'u' {
                    if self.peek(1) != '{' {
                        return Err(self.err(String::from_str("invalid unicode escape"), self.pos()));
                    }
                    self.advance(2);
                    let mut hex: Vec<char> = Vec::new();
                    let mut bad = false;
                    while self.i < self.src.len() && self.src[self.i] != '}'
                        invariant
                            self.inv(),
                            self.same_input(old(self)),
                            self.i > old(self).i,
                            self.i > top,
                            forall|k: int| 0 <= k < hex@.len() ==> #[trigger] spec_is_hex_digit(hex@[k]),
                        decreases self.src.len() - self.i,
                    {
                        let h = self.src[self.i];
                        if is_hex_digit(h) {
                            hex.push(h);
                        } else {
                            bad = true;
                        }
                        self.advance(1);
                    }
                    if self.peek(0) != '}' {
                        return Err(self.err(String::from_str("unterminated unicode escape"), self.pos()));
                    }
                    self.advance(1);
                    let cp = match parse_hex(&hex) {
                        Some(v) => v,
                        None => 0x110000,
                    };
                    if bad || cp > 0x10FFFF {
                        return Err(self.err(String::from_str("invalid unicode escape"), self.pos()));
                    }
                    match char_from_u32(cp as u32) {
                        Some(c) => push_char(&mut s, c),
                        None => {
                            return Err(self.err(String::from_str("invalid unicode escape"), self.pos()));
                        }
                    }
                    continue;
                }
                match Self::simple_escape(e) {
                    Some(c) => {
                        push_char(&mut s, c);
                        self.advance(1);
                    }
                    None => {
                        return Err(self.unknown_escape(e));
                    }
                }
                continue;
            }
            push_char(&mut s, ch);
            self.advance(1);
        }
        if !closed {
            return Err(self.err(String::from_str("unterminated string literal"), start));
        }
        self.push(TokKind::Str(s), start, String::new());
        Ok(())
    }

    fn lex_raw_string(&mut self) -> (r: Result<(), LexError>)
        requires
            old(self).inv(),
            old(self).i < old(self).src.len(),
        ensures
            final(self).inv(),
            final(self).same_input(old(self)),
            final(self).i > old(self).i,
            r matches Err(e) ==> e.span.file@ == old(self).file@,
    {
        let start = self.pos();
        self.advance(2);
        let mut s = String::new();
        let mut closed = false;
        while self.i < self.src.len()
            invariant
                self.inv(),
                self.same_input(old(self)),
                self.i > old(self).i,
            decreases self.src.len() - self.i,
        {
            let ch = self.src[self.i];
            if ch == '"' {
                self.advance(1);
                closed = true;
                break;
            }
            if ch == '\n' {
                break;
            }
            push_char(&mut s, ch);
            self.advance(1);
        }
        if !closed {
            return Err(self.err(String::from_str("unterminated raw string"), start));
        }
        self.push(TokKind::RawStr(s), start, String::new());
        Ok(())
    }

    fn lex_char(&mut self) -> (r: Result<(), LexError>)
        requires
            old(self).inv(),
            old(self).i < old(self).src.len(),
        ensures
            final(self).inv(),
            final(self).same_input(old(self)),
            final(self).i > old(self).i,
            r matches Err(e) ==> e.span.file@ == old(self).file@,
    {
        let start = self.pos();
        self.advance(1);
        if self.i >= self.src.len() {
            return Err(self.err(String::from_str("unterminated char literal"), start));
        }
        let ch = if self.src[self.i] == '\\' {
            self.advance(1);
            if self.i >= self.src.len() {
                return Err(self.err(String::from_str("unterminated char literal"), start));
            }
            let e = self.src[self.i];
            match Self::simple_escape(e) {
                Some(c) => {
                    self.advance(1);
                    c
                }
                None => {
                    return Err(self.unknown_escape(e));
                }
            }
        } else {
            let c = self.src[self.i];
            self.advance(1);
            c
        };
        if self.i >= self.src.len() || self.src[self.i] != '\'' {
            return Err(self.err(String::from_str("unterminated char literal"), start));
        }
        self.advance(1);
        self.push(TokKind::Char(ch), start, String::new());
        Ok(())
    }

    /// An operator or delimiter at the cursor.
    fn lex_punct(&mut self) -> (r: Result<(), LexError>)
        requires
            old(self).inv(),
            old(self).i < old(self).src.len(),
        ensures
            final(self).inv(),
            final(self).same_input(old(self)),
            final(self).i > old(self).i,
            r matches Err(e) ==> e.span.file@ == old(self).file@,
            punct_char(old(self).src@[old(self).i as int]) ==> r is Ok,
            punct_pair(old(self).src@[old(self).i as int], char_after(old(self).src@, old(self).i as int)) is None
                && punct_single(old(self).src@[old(self).i as int]) is None ==> (r matches Err(e) && e.message@
                == "unexpected character "@ + seq![old(self).src@[old(self).i as int]] && e.span.start == (
                old(self).line,
                old(self).col,
            ) && e.span.end == e.span.start),
            r is Ok ==> final(self).comments@ == old(self).comments@
                && final(self).tokens@.drop_last() == old(self).tokens@
                && final(self).tokens@.len() == old(self).tokens@.len() + 1
                && final(self).tokens@.last().text@.len() == 0
                && match punct_pair(old(self).src@[old(self).i as int], char_after(old(self).src@, old(self).i as int)) {
                    Some(p) => final(self).tokens@.last().kind == TokKind::Punct(p) && final(self).i == old(self).i + 2,
                    None => punct_single(old(self).src@[old(self).i as int]) matches Some(p)
                        && final(self).tokens@.last().kind == TokKind::Punct(p) && final(self).i == old(self).i + 1,
                },
    {
        let start = self.pos();
        let c = self.src[self.i];
        let d = self.peek(1);
        let two: Option<Punct> =
            if c == '=' && d == '=' { Some(Punct::EqEq) }
            else if c == '!' && d == '=' { Some(Punct::NotEq) }
            else if c == '<' && d == '=' { Some(Punct::Le) }
            else if c == '>' && d == '=' { Some(Punct::Ge) }
            else if c == '+' && d == '=' { Some(Punct::PlusEq) }
            else if c == '-' && d == '=' { Some(Punct::MinusEq) }
            else if c == '*' && d == '=' { Some(Punct::StarEq) }
            else if c == '/' && d == '=' { Some(Punct::SlashEq) }
            else if c == '-' && d == '>' { Some(Punct::Arrow) }
            else if c == '<' && d == '-' { Some(Punct::LeftArrow) }
            else { None };
        if let Some(p) = two {
            self.advance(2);
            self.push_punct(p);
            return Ok(());
        }
        let one: Option<Punct> =
            if c == '(' { Some(Punct::LParen) }
            else if c == ')' { Some(Punct::RParen) }
            else if c == '[' { Some(Punct::LBracket) }
            else if c == ']' { Some(Punct::RBracket) }
            else if c == '{' { Some(Punct::LBrace) }
            else if c == '}' { Some(Punct::RBrace) }
            else if c == ',' { Some(Punct::Comma) }
            else if c == ':' { Some(Punct::Colon) }
            else if c == '.' { Some(Punct::Dot) }
            else if c == '?' { Some(Punct::Question) }
            else if c == '+' { Some(Punct::Plus) }
            else if c == '-' { Some(Punct::Minus) }
            else if c == '*' { Some(Punct::Star) }
            else if c == '/' { Some(Punct::Slash) }
            else if c == '%' { Some(Punct::Percent) }
            else if c == '<' { Some(Punct::Lt) }
            else if c == '>' { Some(Punct::Gt) }
            else if c == '=' { Some(Punct::Assign) }
            else if c == '|' { Some(Punct::Pipe) }
            else if c == '_' { Some(Punct::Underscore) }
            else { None };
        match one {
            Some(p) => {
                self.advance(1);
                self.push_punct(p);
                Ok(())
            }
            None => {
                let mut msg = String::new();
                push_str(&mut msg, "unexpected character ");
                push_char(&mut msg, c);
                let e = self.err(msg, start);
                self.advance(1);
                Err(e)
            }
        }
    }

    fn run(&mut self) -> (r: Result<(), LexError>)
        requires
            old(self).inv(),
        ensures
            final(self).same_input(old(self)),
            comments_in_file(final(self).comments@, final(self).file@),
            r is Ok ==> final(self).tokens@.len() > 0 && final(self).tokens@.last().kind is Eof
                && tokens_in_file(final(self).tokens@.drop_last(), final(self).file@)
                && final(self).tokens@.last().span.file@ == final(self).file@,
            r matches Err(e) ==> e.span.file@ == old(self).file@,
            plain_text(old(self).src@) && old(self).i == 0 ==> r is Ok,
            blank_text(old(self).src@) ==> final(self).tokens@.len() == old(self).tokens@.len() + 1
                && final(self).comments@ == old(self).comments@,
            plain_text(old(self).src@) && old(self).i == 0 && old(self).tokens@.len() == 0
                ==> lexes_plainly(final(self).tokens@, old(self).src@),
    {
        let ghost src = self.src@;
        let ghost es0 = plain_tokens(src, 0);
        let ghost tracking = plain_text(src) && self.i == 0 && self.tokens@.len() == 0;
        while self.i < self.src.len()
            invariant
                self.inv(),
                self.same_input(old(self)),
                src == self.src@,
                es0 == plain_tokens(src, 0),
                blank_text(self.src@) ==> self.tokens@ == old(self).tokens@ && self.comments@ == old(self).comments@,
                tracking == (plain_text(src) && old(self).i == 0 && old(self).tokens@.len() == 0),
                plain_text(src) && old(self).i == 0 ==> (self.i < src.len() ==> !spec_is_digit(src[self.i as int])),
                tracking ==> self.tokens@.len() <= es0.len()
                    && es0.subrange(self.tokens@.len() as int, es0.len() as int) == plain_tokens(src, self.i as int)
                    && forall|k: int| 0 <= k < self.tokens@.len() ==> plain_token_is(#[trigger] self.tokens@[k], src, es0[k]),
            decreases self.src.len() - self.i,
        {
            let ghost m = self.tokens@.len() as int;
            let ghost at = self.i as int;
            let ghost toks = self.tokens@;
            let c = self.src[self.i];
            if c == ' ' || c == '\t' || c == '\r' || c == '\n' {
                self.advance(1);
                assert(plain_tokens(src, at) == plain_tokens(src, at + 1));
                proof {
                    if plain_text(src) && self.i < src.len() {
                        assert(is_blank_char(src[self.i as int]) || spec_is_ident_start(src[self.i as int])
                            || punct_char(src[self.i as int]) || (spec_is_digit(src[self.i as int]) && self.i > 0
                            && spec_is_ident_char(src[self.i - 1])) || marker_at(src, self.i as int));
                    }
                }
                continue;
            }
            assert(!is_blank_char(self.src@[self.i as int]));
            let d = self.peek(1);
            assert(plain_text(self.src@) && d == '"' ==> false) by {
                if plain_text(self.src@) && self.i + 1 < self.src.len() {
                    assert(is_blank_char(self.src@[self.i + 1]) || spec_is_ident_start(self.src@[self.i + 1])
                        || punct_char(self.src@[self.i + 1]) || (spec_is_digit(self.src@[self.i + 1]) && self.i + 1 > 0
                        && spec_is_ident_char(self.src@[self.i + 1 - 1])) || marker_at(self.src@, self.i + 1));
                }
            }
            let step = if c == '/' && d == '/' {
                self.lex_line_comment()
            } else if c == '/' && d == '*' {
                self.lex_block_comment()
            } else if is_ident_start(c) {
                self.lex_word();
                Ok(())
            } else if is_ascii_digit(c) {
                // a malformed literal is dropped; lexing goes on after it
                let _ = self.lex_number();
                Ok(())
            } else if c == '"' {
                let _ = self.lex_string();
                Ok(())
            } else if c == 'r' && d == '"' {
                let _ = self.lex_raw_string();
                Ok(())
            } else if c == '\'' {
                let _ = self.lex_char();
                Ok(())
            } else if c == '@' {
                proof {
                    if plain_text(src) {
                        assert(is_blank_char(src[at]) || spec_is_ident_start(src[at]) || punct_char(src[at])
                            || (spec_is_digit(src[at]) && at > 0 && spec_is_ident_char(src[at - 1])) || marker_at(src, at));
                        assert(marker_at(src, at));
                    }
                }
                self.lex_marker()
            } else {
                self.lex_punct()
            };
            if let Err(e) = step {
                return Err(e);
            }
            proof {
                if plain_text(src) && old(self).i == 0 {
                    lemma_word_end(src, at);
                    if at + 1 <= src.len() {
                        lemma_word_end(src, at + 1);
                    }
                    if self.i < src.len() {
                        assert(is_blank_char(src[self.i as int]) || spec_is_ident_start(src[self.i as int])
                            || punct_char(src[self.i as int]) || (spec_is_digit(src[self.i as int]) && self.i > 0
                            && spec_is_ident_char(src[self.i - 1])) || marker_at(src, self.i as int));
                    }
                }
                if tracking {
                    let e = plain_tokens(src, at)[0];
                    assert(plain_tokens(src, at) == seq![e] + plain_tokens(src, self.i as int));
                    lemma_take_next(es0, m, e, plain_tokens(src, self.i as int));
                    assert(self.tokens@.len() == m + 1);
                    assert(plain_token_is(self.tokens@[m], src, es0[m]));
                    assert forall|k: int| 0 <= k < self.tokens@.len() implies plain_token_is(#[trigger] self.tokens@[k], src, es0[k]) by {
                        if k < m {
                            assert(self.tokens@[k] == toks[k]);
                        }
                    }
                }
            }
        }
        let here = self.pos();
        let span = Span { file: self.file.clone(), start: here, end: here };
        let ghost before = self.tokens@;
        self.tokens.push(Token { kind: TokKind::Eof, span, text: String::new() });
        assert(self.tokens@.drop_last() == before);
        proof {
            if tracking {
                assert forall|k: int| 0 <= k < es0.len() implies plain_token_is(#[trigger] self.tokens@[k], src, es0[k]) by {
                    assert(self.tokens@[k] == before[k]);
                }
            }
        }
        Ok(())
    }
}

/// Lex `source` into tokens, keeping comments aside. On success the tokens
/// end with the end-of-file marker, which no other token is, and every token
/// and comment is tagged with `file`; a lexical error is tagged with `file`.
/// A text of words and operators lexes to exactly those words (keywords
/// recognised) and operators, longest operator first; a blank text is the
/// end marker alone.
pub fn lex_with_comments(source: String, file: String) -> (r: Result<(Vec<Token>, Vec<Comment>), LexError>)
    requires
        source@.len() < usize::MAX,
    ensures
        plain_text(source@) ==> (r matches Ok((ts, _)) && lexes_plainly(ts@, source@)),
        blank_text(source@) ==> (r matches Ok((ts, cs)) && ts@.len() == 1 && cs@.len() == 0),
        r matches Ok((ts, cs)) ==> {
            &&& well_formed_tokens(ts@)
            &&& forall|k: int| 0 <= k < ts@.len() ==> (#[trigger] ts@[k]).span.file@ == file@
            &&& comments_in_file(cs@, file@)
        },
        r matches Err(e) ==> e.span.file@ == file@,
{
    let src = crate::text::chars_of(source.as_str());
    let mut lx = Lexer { src, i: 0, line: 1, col: 1, file, tokens: Vec::new(), comments: Vec::new() };
    let ghost file_v = lx.file@;
    match lx.run() {
        Err(e) => Err(e),
        Ok(()) => {
            let ts = lx.tokens;
            let cs = lx.comments;
            proof {
                let n = ts@.len();
                assert forall|k: int| 0 <= k < n - 1 implies !(#[trigger] ts@[k].kind is Eof) by {
                    assert(ts@[k] == ts@.drop_last()[k]);
                }
                assert forall|k: int| 0 <= k < n implies (#[trigger] ts@[k]).span.file@ == file_v by {
                    if k < n - 1 {
                        assert(ts@[k] == ts@.drop_last()[k]);
                    }
                }
            }
            Ok((ts, cs))
        }
    }
}

/// Lex `source` into tokens (comments dropped), with the guarantees of
/// `lex_with_comments`.
pub fn lex(source: String, file: String) -> (r: Result<Vec<Token>, LexError>)
    requires
        source@.len() < usize::MAX,
    ensures
        plain_text(source@) ==> (r matches Ok(ts) && lexes_plainly(ts@, source@)),
        blank_text(source@) ==> (r matches Ok(ts) && ts@.len() == 1),
        r matches Ok(ts) ==> well_formed_tokens(ts@)
            && forall|k: int| 0 <= k < ts@.len() ==> (#[trigger] ts@[k]).span.file@ == file@,
        r matches Err(e) ==> e.span.file@ == file@,
{
    match lex_with_comments(source, file) {
        Ok((ts, _)) => Ok(ts),
        Err(e) => Err(e),
    }
}

} // verus!
