//! The language server: which documents are open, what each request is
//! answered with, and the JSON text of requests and replies. The fields of
//! a request are read through serde_json; replies are written here.
//!
//! Supported: initialize, initialized, shutdown, exit, the full-sync
//! didOpen / didChange / didClose notifications (which re-run the front-end
//! pipeline and publish its diagnostics), hover, completion, go to
//! definition and whole-document formatting. Diagnostic positions are sent
//! as UTF-16 code units; a request's position is read as a character offset
//! within its line.
use vstd::prelude::*;
use crate::ast::Program;
use crate::diagnostic::{Category, Diagnostic, Severity};
use crate::driver;
use crate::format::format_source;
use crate::names::NameMap;
use crate::chars::{digits_value, parse_digits, spec_is_digit, trim, trimmed};
use crate::rpc::{
    array_json, array_text, id_json, id_text, json_str, json_str_at, json_u64, json_u64_at, json_value,
    json_value_at, markdown_json, markdown_text, range_json, range_text, response_json, response_text, str_json,
    str_text,
};
use crate::symbols::{
    declaration_of, document_symbols, hover_markdown, item_view, items_view, opt_text, symbols_of, vocabulary,
    vocabulary_items, word_at, word_span, CompletionItem,
};
use crate::text::{chars_of, decimal, push_decimal, push_str};

verus! {

/// A decoded request or notification. `id` is the request id as raw JSON,
/// echoed back verbatim.
#[derive(Debug)]
pub enum LspRequest {
    Initialize { id: Option<String> },
    Initialized,
    Shutdown { id: Option<String> },
    Exit,
    DidOpen { uri: String, text: String },
    DidChange { uri: String, text: String },
    DidClose { uri: String },
    Hover { id: Option<String>, uri: String, line: usize, character: usize },
    Completion { id: Option<String>, uri: String },
    Definition { id: Option<String>, uri: String, line: usize, character: usize },
    Formatting { id: Option<String>, uri: String },
    /// Any other method.
    Other { id: Option<String> },
}

/// A request as values.
pub enum RequestV {
    Initialize(Option<Seq<char>>),
    Initialized,
    Shutdown(Option<Seq<char>>),
    Exit,
    DidOpen(Seq<char>, Seq<char>),
    DidChange(Seq<char>, Seq<char>),
    DidClose(Seq<char>),
    Hover(Option<Seq<char>>, Seq<char>, usize, usize),
    Completion(Option<Seq<char>>, Seq<char>),
    Definition(Option<Seq<char>>, Seq<char>, usize, usize),
    Formatting(Option<Seq<char>>, Seq<char>),
    Other(Option<Seq<char>>),
}

pub open spec fn request_view(q: LspRequest) -> RequestV {
    match q {
        LspRequest::Initialize { id } => RequestV::Initialize(opt_text(id)),
        LspRequest::Initialized => RequestV::Initialized,
        LspRequest::Shutdown { id } => RequestV::Shutdown(opt_text(id)),
        LspRequest::Exit => RequestV::Exit,
        LspRequest::DidOpen { uri, text } => RequestV::DidOpen(uri@, text@),
        LspRequest::DidChange { uri, text } => RequestV::DidChange(uri@, text@),
        LspRequest::DidClose { uri } => RequestV::DidClose(uri@),
        LspRequest::Hover { id, uri, line, character } => RequestV::Hover(opt_text(id), uri@, line, character),
        LspRequest::Completion { id, uri } => RequestV::Completion(opt_text(id), uri@),
        LspRequest::Definition { id, uri, line, character } => RequestV::Definition(
            opt_text(id),
            uri@,
            line,
            character,
        ),
        LspRequest::Formatting { id, uri } => RequestV::Formatting(opt_text(id), uri@),
        LspRequest::Other { id } => RequestV::Other(opt_text(id)),
    }
}

/// Both parts present.
pub open spec fn both<A, B>(a: Option<A>, b: Option<B>) -> Option<(A, B)> {
    match (a, b) {
        (Some(x), Some(y)) => Some((x, y)),
        _ => None,
    }
}

/// The document a request names.
pub open spec fn doc_uri(raw: Seq<char>) -> Option<Seq<char>> {
    json_str_at(raw, "/params/textDocument/uri"@)
}

/// The position a request names, as read from `raw`.
pub open spec fn position_of(raw: Seq<char>) -> Option<(usize, usize)> {
    match both(json_u64_at(raw, "/params/position/line"@), json_u64_at(raw, "/params/position/character"@)) {
        Some((l, c)) => Some((l as usize, c as usize)),
        None => None,
    }
}

/// What a JSON-RPC message asks: its method, and the fields that method
/// reads; none where the text is not JSON, has no method, or lacks a field
/// the method needs.
pub open spec fn decode_spec(raw: Seq<char>) -> Option<RequestV> {
    match json_str_at(raw, "/method"@) {
        None => None,
        Some(m) => {
            let id = json_value_at(raw, "/id"@);
            if m == "initialize"@ {
                Some(RequestV::Initialize(id))
            } else if m == "initialized"@ {
                Some(RequestV::Initialized)
            } else if m == "shutdown"@ {
                Some(RequestV::Shutdown(id))
            } else if m == "exit"@ {
                Some(RequestV::Exit)
            } else if m == "textDocument/didOpen"@ {
                match both(doc_uri(raw), json_str_at(raw, "/params/textDocument/text"@)) {
                    Some((u, t)) => Some(RequestV::DidOpen(u, t)),
                    None => None,
                }
            } else if m == "textDocument/didChange"@ {
                match both(doc_uri(raw), json_str_at(raw, "/params/contentChanges/0/text"@)) {
                    Some((u, t)) => Some(RequestV::DidChange(u, t)),
                    None => None,
                }
            } else if m == "textDocument/didClose"@ {
                match doc_uri(raw) {
                    Some(u) => Some(RequestV::DidClose(u)),
                    None => None,
                }
            } else if m == "textDocument/hover"@ {
                match both(doc_uri(raw), position_of(raw)) {
                    Some((u, (l, c))) => Some(RequestV::Hover(id, u, l, c)),
                    None => None,
                }
            } else if m == "textDocument/completion"@ {
                match doc_uri(raw) {
                    Some(u) => Some(RequestV::Completion(id, u)),
                    None => None,
                }
            } else if m == "textDocument/definition"@ {
                match both(doc_uri(raw), position_of(raw)) {
                    Some((u, (l, c))) => Some(RequestV::Definition(id, u, l, c)),
                    None => None,
                }
            } else if m == "textDocument/formatting"@ {
                match doc_uri(raw) {
                    Some(u) => Some(RequestV::Formatting(id, u)),
                    None => None,
                }
            } else {
                Some(RequestV::Other(id))
            }
        },
    }
}

fn doc_uri_of(raw: &str) -> (r: Option<String>)
    ensures
        opt_text(r) == doc_uri(raw@),
{
    json_str(raw, "/params/textDocument/uri")
}

fn position_in(raw: &str) -> (r: Option<(usize, usize)>)
    ensures
        r == position_of(raw@),
{
    let l = json_u64(raw, "/params/position/line");
    let c = json_u64(raw, "/params/position/character");
    match (l, c) {
        (Some(l), Some(c)) => Some((l as usize, c as usize)),
        _ => None,
    }
}

/// Reads a JSON-RPC message.
pub fn decode_request(raw: &str) -> (r: Option<LspRequest>)
    ensures
        match r {
            Some(q) => decode_spec(raw@) == Some(request_view(q)),
            None => decode_spec(raw@) is None,
        },
{
    let m = match json_str(raw, "/method") {
        Some(m) => m,
        None => return None,
    };
    let id = json_value(raw, "/id");
    let ms = m.as_str();
    if crate::text::str_eq(ms, "initialize") {
        Some(LspRequest::Initialize { id })
    } else if crate::text::str_eq(ms, "initialized") {
        Some(LspRequest::Initialized)
    } else if crate::text::str_eq(ms, "shutdown") {
        Some(LspRequest::Shutdown { id })
    } else if crate::text::str_eq(ms, "exit") {
        Some(LspRequest::Exit)
    } else if crate::text::str_eq(ms, "textDocument/didOpen") {
        match (doc_uri_of(raw), json_str(raw, "/params/textDocument/text")) {
            (Some(uri), Some(text)) => Some(LspRequest::DidOpen { uri, text }),
            _ => None,
        }
    } else if crate::text::str_eq(ms, "textDocument/didChange") {
        match (doc_uri_of(raw), json_str(raw, "/params/contentChanges/0/text")) {
            (Some(uri), Some(text)) => Some(LspRequest::DidChange { uri, text }),
            _ => None,
        }
    } else if crate::text::str_eq(ms, "textDocument/didClose") {
        match doc_uri_of(raw) {
            Some(uri) => Some(LspRequest::DidClose { uri }),
            None => None,
        }
    } else if crate::text::str_eq(ms, "textDocument/hover") {
        match (doc_uri_of(raw), position_in(raw)) {
            (Some(uri), Some((line, character))) => Some(LspRequest::Hover { id, uri, line, character }),
            _ => None,
        }
    } else if crate::text::str_eq(ms, "textDocument/completion") {
        match doc_uri_of(raw) {
            Some(uri) => Some(LspRequest::Completion { id, uri }),
            None => None,
        }
    } else if crate::text::str_eq(ms, "textDocument/definition") {
        match (doc_uri_of(raw), position_in(raw)) {
            (Some(uri), Some((line, character))) => Some(LspRequest::Definition { id, uri, line, character }),
            _ => None,
        }
    } else if crate::text::str_eq(ms, "textDocument/formatting") {
        match doc_uri_of(raw) {
            Some(uri) => Some(LspRequest::Formatting { id, uri }),
            None => None,
        }
    } else {
        Some(LspRequest::Other { id })
    }
}

/// One diagnostic as the client sees it: 0-based positions in UTF-16 code
/// units, severity 1 (error) or 2 (warning).
#[derive(Debug)]
pub struct LspDiagnostic {
    pub start: (usize, usize),
    pub end: (usize, usize),
    pub severity: u32,
    pub code: String,
    pub message: String,
}

/// What hovering shows: markdown text, over the identifier's range.
#[derive(Debug)]
pub struct HoverInfo {
    pub markdown: String,
    pub start: (usize, usize),
    pub end: (usize, usize),
}

/// Where a declaration stands: its document and range.
#[derive(Debug)]
pub struct Location {
    pub uri: String,
    pub start: (usize, usize),
    pub end: (usize, usize),
}

/// An edit that replaces the whole document, from its start to `end`.
#[derive(Debug)]
pub struct TextEdit {
    pub end: (usize, usize),
    pub new_text: String,
}

/// What to send back.
#[derive(Debug)]
pub enum LspReply {
    /// Nothing (a notification that needs no answer).
    Silent,
    /// The capabilities: full document sync, UTF-16 positions, hover,
    /// completion, definition and formatting.
    Capabilities { id: Option<String> },
    /// The null result acknowledging `shutdown`.
    ShutdownAck { id: Option<String> },
    /// A `publishDiagnostics` notification for a document.
    Publish { uri: String, diagnostics: Vec<LspDiagnostic> },
    /// A method-not-found error (code -32601) for a request with an id.
    MethodNotFound { id: Option<String> },
    /// A hover result (null where there is nothing to show).
    Hover { id: Option<String>, hover: Option<HoverInfo> },
    /// The completion list.
    Completion { id: Option<String>, items: Vec<CompletionItem> },
    /// A definition's location (null where none is found).
    Definition { id: Option<String>, location: Option<Location> },
    /// The formatting edits (null where the document does not format).
    Formatting { id: Option<String>, edit: Option<TextEdit> },
}

/// The diagnostics a pipeline run on `text` gives, one for one, as the
/// client sees them.
pub open spec fn published_from(text: Seq<char>, d: Seq<LspDiagnostic>) -> bool {
    exists|ds: Seq<Diagnostic>| driver::check_post(text, ds) && d.len() == ds.len() && forall|k: int| 0 <= k < ds.len()
        ==> lsp_diag_of(#[trigger] d[k], ds[k], text)
}

/// Published diagnostics are errors (severity 1) whose codes name the
/// pipeline stage that found them.
pub open spec fn published_ok(ds: Seq<LspDiagnostic>) -> bool {
    forall|k: int| 0 <= k < ds.len() ==> (#[trigger] ds[k]).severity == 1
        && exists|c: Category| driver::code_matches(ds[k].code@, c)
}

/// How many line breaks `s` holds.
pub open spec fn newlines(s: Seq<char>) -> nat
    decreases s.len(),
{
    if s.len() == 0 {
        0
    } else {
        newlines(s.drop_last()) + if s.last() == '\n' { 1nat } else { 0nat }
    }
}

/// The position just past the last character of `text`.
pub open spec fn doc_end(text: Seq<char>) -> (usize, usize) {
    lsp_position(text, (newlines(text) + 1) as int, usize::MAX as int)
}

pub struct Server {
    docs: NameMap<String>,
    shutdown: bool,
    exit: bool,
}

/// The flags are as they were.
pub open spec fn same_flags(a: Server, b: Server) -> bool {
    a.exit_requested() == b.exit_requested() && a.shutdown_requested() == b.shutdown_requested()
}

/// What hovering at (`line`, `c`) of document `uri` may show: nothing for a
/// closed document or off an identifier; otherwise the identifier's range.
pub open spec fn hover_ok(docs: Map<Seq<char>, Seq<char>>, uri: Seq<char>, line: usize, c: usize, h: Option<HoverInfo>) -> bool {
    &&& !docs.dom().contains(uri) ==> h is None
    &&& docs.dom().contains(uri) && word_span(docs[uri], line as int, c as int) is None ==> h is None
    &&& h matches Some(hi) ==> docs.dom().contains(uri) && (word_span(docs[uri], line as int, c as int) matches Some(
        (a, b),
    ) && hi.start == (line, a as usize) && hi.end == (line, b as usize) && exists|items: Seq<crate::ast::Item>|
        #[trigger] crate::symbols::hover_of(items, nth_line(docs[uri], line as int).subrange(a, b)) == Some(hi.markdown@))
}

/// What a definition request may find: nothing for a closed document or
/// off an identifier; otherwise a place in the same document.
pub open spec fn definition_ok(docs: Map<Seq<char>, Seq<char>>, uri: Seq<char>, line: usize, c: usize, l: Option<Location>) -> bool {
    &&& !docs.dom().contains(uri) ==> l is None
    &&& docs.dom().contains(uri) && word_span(docs[uri], line as int, c as int) is None ==> l is None
    &&& l matches Some(loc) ==> docs.dom().contains(uri) && loc.uri@ == uri && (word_span(docs[uri], line as int, c as int) matches Some(
        (a, b),
    ) && exists|items: Seq<crate::ast::Item>| (#[trigger] crate::symbols::decl_of(items, nth_line(docs[uri], line as int).subrange(
        a,
        b,
    )) matches Some(place) && loc.start == lsp_position(docs[uri], place.0.0 as int, place.0.1 as int) && loc.end
        == lsp_position(docs[uri], place.1.0 as int, place.1.1 as int)))
}

/// The completion list: empty for a closed document; otherwise the
/// vocabulary, then the symbols of the document's declarations when it
/// parses (only the vocabulary for a blank document).
pub open spec fn completion_ok(docs: Map<Seq<char>, Seq<char>>, uri: Seq<char>, items: Seq<CompletionItem>) -> bool {
    &&& !docs.dom().contains(uri) ==> items.len() == 0
    &&& docs.dom().contains(uri) ==> exists|decls: Seq<crate::ast::Item>| items_view(items) == vocabulary_items() + symbols_of(decls)
    &&& docs.dom().contains(uri) && crate::lexer::blank_text(docs[uri]) && docs[uri].len() < usize::MAX ==> items_view(items) == vocabulary_items()
}

/// The formatting edit: none for a closed document or one that does not
/// parse; a blank document formats to nothing; the edit spans the whole
/// document.
pub open spec fn formatting_ok(docs: Map<Seq<char>, Seq<char>>, uri: Seq<char>, e: Option<TextEdit>) -> bool {
    &&& !docs.dom().contains(uri) ==> e is None
    &&& docs.dom().contains(uri) && crate::parser::stray_plain_start(docs[uri]) ==> e is None
    &&& docs.dom().contains(uri) && crate::lexer::blank_text(docs[uri]) && docs[uri].len() <= usize::MAX / 2 ==> (e matches Some(te)
        && te.new_text@.len() == 0)
    &&& e matches Some(te) ==> docs.dom().contains(uri) && te.end == doc_end(docs[uri])
}

/// How the server's state and reply follow from one request.
pub open spec fn request_post(old: Server, new: Server, q: RequestV, reply: LspReply) -> bool {
    match q {
        RequestV::Initialize(id) => reply matches LspReply::Capabilities { id: rid } && opt_text(rid) == id
            && new.documents() == old.documents() && same_flags(old, new),
        RequestV::Initialized => reply is Silent && new.documents() == old.documents() && same_flags(old, new),
        RequestV::Shutdown(id) => reply matches LspReply::ShutdownAck { id: rid } && opt_text(rid) == id
            && new.shutdown_requested() && new.documents() == old.documents()
            && new.exit_requested() == old.exit_requested(),
        RequestV::Exit => reply is Silent && new.exit_requested() && new.documents() == old.documents()
            && new.shutdown_requested() == old.shutdown_requested(),
        RequestV::DidOpen(uri, text) | RequestV::DidChange(uri, text) => new.documents() == old.documents().insert(uri, text)
            && (reply matches LspReply::Publish { uri: u, diagnostics: d } && u@ == uri && published_ok(d@)
                && (crate::lexer::blank_text(text) ==> d@.len() == 0) && (text.len() <= usize::MAX / 2
                ==> published_from(text, d@))) && same_flags(old, new),
        RequestV::DidClose(uri) => new.documents() == old.documents().remove(uri)
            && (reply matches LspReply::Publish { uri: u, diagnostics: d } && u@ == uri && d@.len() == 0)
            && same_flags(old, new),
        RequestV::Hover(id, uri, line, c) => reply matches LspReply::Hover { id: rid, hover: h } && opt_text(rid) == id
            && hover_ok(old.documents(), uri, line, c, h) && new.documents() == old.documents() && same_flags(old, new),
        RequestV::Completion(id, uri) => reply matches LspReply::Completion { id: rid, items } && opt_text(rid) == id
            && completion_ok(old.documents(), uri, items@) && new.documents() == old.documents() && same_flags(old, new),
        RequestV::Definition(id, uri, line, c) => reply matches LspReply::Definition { id: rid, location: l }
            && opt_text(rid) == id && definition_ok(old.documents(), uri, line, c, l)
            && new.documents() == old.documents() && same_flags(old, new),
        RequestV::Formatting(id, uri) => reply matches LspReply::Formatting { id: rid, edit: e } && opt_text(rid) == id
            && formatting_ok(old.documents(), uri, e) && new.documents() == old.documents() && same_flags(old, new),
        RequestV::Other(id) => (if id is Some {
            reply matches LspReply::MethodNotFound { id: rid } && opt_text(rid) == id
        } else {
            reply is Silent
        }) && new.documents() == old.documents() && same_flags(old, new),
    }
}

/// The result object of `initialize`.
pub open spec fn capabilities_text() -> Seq<char> {
    "{\"capabilities\":{\"completionProvider\":{\"resolveProvider\":false},\"definitionProvider\":true,\"documentFormattingProvider\":true,\"hoverProvider\":true,\"positionEncoding\":\"utf-16\",\"textDocumentSync\":1},\"serverInfo\":{\"name\":\"xz\",\"version\":\"0.1.0\"}}"@
}

/// One published diagnostic.
pub open spec fn diag_text(d: LspDiagnostic) -> Seq<char> {
    "{\"code\":"@ + str_text(d.code@) + ",\"message\":"@ + str_text(d.message@) + ",\"range\":"@ + range_text(
        d.start,
        d.end,
    ) + ",\"severity\":"@ + decimal(d.severity as nat) + ",\"source\":\"xz\"}"@
}

/// A `publishDiagnostics` notification.
pub open spec fn publish_text(uri: Seq<char>, ds: Seq<LspDiagnostic>) -> Seq<char> {
    "{\"jsonrpc\":\"2.0\",\"method\":\"textDocument/publishDiagnostics\",\"params\":{\"diagnostics\":"@
        + array_text(ds.map_values(|d: LspDiagnostic| diag_text(d))) + ",\"uri\":"@ + str_text(uri) + "}}"@
}

/// One completion item.
pub open spec fn completion_item_text(c: CompletionItem) -> Seq<char> {
    let detail = match c.detail {
        Some(d) => "\"detail\":"@ + str_text(d@) + ","@,
        None => Seq::<char>::empty(),
    };
    let doc = match c.documentation {
        Some(d) => "\"documentation\":"@ + markdown_text(d@) + ","@,
        None => Seq::<char>::empty(),
    };
    "{"@ + detail + doc + "\"kind\":"@ + decimal(c.kind as nat) + ",\"label\":"@ + str_text(c.label@) + "}"@
}

/// The completion list.
pub open spec fn completion_text(cs: Seq<CompletionItem>) -> Seq<char> {
    "{\"isIncomplete\":false,\"items\":"@ + array_text(cs.map_values(|c: CompletionItem| completion_item_text(c)))
        + "}"@
}

/// A hover result.
pub open spec fn hover_text(h: Option<HoverInfo>) -> Seq<char> {
    match h {
        Some(hi) => "{\"contents\":"@ + markdown_text(hi.markdown@) + ",\"range\":"@ + range_text(hi.start, hi.end)
            + "}"@,
        None => "null"@,
    }
}

/// A definition result.
pub open spec fn location_text(l: Option<Location>) -> Seq<char> {
    match l {
        Some(loc) => "{\"range\":"@ + range_text(loc.start, loc.end) + ",\"uri\":"@ + str_text(loc.uri@) + "}"@,
        None => "null"@,
    }
}

/// A formatting result.
pub open spec fn edit_text(e: Option<TextEdit>) -> Seq<char> {
    match e {
        Some(te) => "[{\"newText\":"@ + str_text(te.new_text@) + ",\"range\":"@ + range_text((0, 0), te.end) + "}]"@,
        None => "null"@,
    }
}

/// The JSON text of a reply; none where nothing is sent.
pub open spec fn reply_text(reply: LspReply) -> Option<Seq<char>> {
    match reply {
        LspReply::Silent => None,
        LspReply::Capabilities { id } => Some(response_text(opt_text(id), capabilities_text())),
        LspReply::ShutdownAck { id } => Some(response_text(opt_text(id), "null"@)),
        LspReply::Publish { uri, diagnostics } => Some(publish_text(uri@, diagnostics@)),
        LspReply::MethodNotFound { id } => Some("{\"error\":{\"code\":-32601,\"message\":\"method not found\"},\"id\":"@
            + id_text(opt_text(id)) + ",\"jsonrpc\":\"2.0\"}"@),
        LspReply::Hover { id, hover } => Some(response_text(opt_text(id), hover_text(hover))),
        LspReply::Completion { id, items } => Some(response_text(opt_text(id), completion_text(items@))),
        LspReply::Definition { id, location } => Some(response_text(opt_text(id), location_text(location))),
        LspReply::Formatting { id, edit } => Some(response_text(opt_text(id), edit_text(edit))),
    }
}

fn diag_json(d: &LspDiagnostic) -> (r: String)
    ensures
        r@ == diag_text(*d),
{
    let mut r = String::new();
    push_str(&mut r, "{\"code\":");
    let c = str_json(d.code.as_str());
    push_str(&mut r, c.as_str());
    push_str(&mut r, ",\"message\":");
    let m = str_json(d.message.as_str());
    push_str(&mut r, m.as_str());
    push_str(&mut r, ",\"range\":");
    let g = range_json(d.start, d.end);
    push_str(&mut r, g.as_str());
    push_str(&mut r, ",\"severity\":");
    push_decimal(&mut r, d.severity as u64);
    push_str(&mut r, ",\"source\":\"xz\"}");
    r
}

fn publish_json(uri: &str, ds: &Vec<LspDiagnostic>) -> (r: String)
    ensures
        r@ == publish_text(uri@, ds@),
{
    let mut parts: Vec<String> = Vec::new();
    let mut i: usize = 0;
    while i < ds.len()
        invariant
            i <= ds.len(),
            parts@.len() == i,
            forall|k: int| 0 <= k < i ==> (#[trigger] parts@[k])@ == diag_text(ds@[k]),
        decreases ds.len() - i,
    {
        parts.push(diag_json(&ds[i]));
        i += 1;
    }
    proof {
        assert(parts@.map_values(|p: String| p@) =~= ds@.map_values(|d: LspDiagnostic| diag_text(d)));
    }
    let arr = array_json(&parts);
    let mut r = String::new();
    push_str(&mut r, "{\"jsonrpc\":\"2.0\",\"method\":\"textDocument/publishDiagnostics\",\"params\":{\"diagnostics\":");
    push_str(&mut r, arr.as_str());
    push_str(&mut r, ",\"uri\":");
    let u = str_json(uri);
    push_str(&mut r, u.as_str());
    push_str(&mut r, "}}");
    r
}

fn completion_item_json(c: &CompletionItem) -> (r: String)
    ensures
        r@ == completion_item_text(*c),
{
    let mut r = String::new();
    push_str(&mut r, "{");
    match &c.detail {
        Some(d) => {
            push_str(&mut r, "\"detail\":");
            let t = str_json(d.as_str());
            push_str(&mut r, t.as_str());
            push_str(&mut r, ",");
        }
        None => {}
    }
    match &c.documentation {
        Some(d) => {
            push_str(&mut r, "\"documentation\":");
            let t = markdown_json(d.as_str());
            push_str(&mut r, t.as_str());
            push_str(&mut r, ",");
        }
        None => {}
    }
    push_str(&mut r, "\"kind\":");
    push_decimal(&mut r, c.kind as u64);
    push_str(&mut r, ",\"label\":");
    let l = str_json(c.label.as_str());
    push_str(&mut r, l.as_str());
    push_str(&mut r, "}");
    r
}

fn completion_json(cs: &Vec<CompletionItem>) -> (r: String)
    ensures
        r@ == completion_text(cs@),
{
    let mut parts: Vec<String> = Vec::new();
    let mut i: usize = 0;
    while i < cs.len()
        invariant
            i <= cs.len(),
            parts@.len() == i,
            forall|k: int| 0 <= k < i ==> (#[trigger] parts@[k])@ == completion_item_text(cs@[k]),
        decreases cs.len() - i,
    {
        parts.push(completion_item_json(&cs[i]));
        i += 1;
    }
    proof {
        assert(parts@.map_values(|p: String| p@) =~= cs@.map_values(|c: CompletionItem| completion_item_text(c)));
    }
    let arr = array_json(&parts);
    let mut r = String::new();
    push_str(&mut r, "{\"isIncomplete\":false,\"items\":");
    push_str(&mut r, arr.as_str());
    push_str(&mut r, "}");
    r
}

fn hover_json(h: &Option<HoverInfo>) -> (r: String)
    ensures
        r@ == hover_text(*h),
{
    match h {
        Some(hi) => {
            let mut r = String::new();
            push_str(&mut r, "{\"contents\":");
            let m = markdown_json(hi.markdown.as_str());
            push_str(&mut r, m.as_str());
            push_str(&mut r, ",\"range\":");
            let g = range_json(hi.start, hi.end);
            push_str(&mut r, g.as_str());
            push_str(&mut r, "}");
            r
        }
        None => "null".to_string(),
    }
}

fn location_json(l: &Option<Location>) -> (r: String)
    ensures
        r@ == location_text(*l),
{
    match l {
        Some(loc) => {
            let mut r = String::new();
            push_str(&mut r, "{\"range\":");
            let g = range_json(loc.start, loc.end);
            push_str(&mut r, g.as_str());
            push_str(&mut r, ",\"uri\":");
            let u = str_json(loc.uri.as_str());
            push_str(&mut r, u.as_str());
            push_str(&mut r, "}");
            r
        }
        None => "null".to_string(),
    }
}

fn edit_json(e: &Option<TextEdit>) -> (r: String)
    ensures
        r@ == edit_text(*e),
{
    match e {
        Some(te) => {
            let mut r = String::new();
            push_str(&mut r, "[{\"newText\":");
            let t = str_json(te.new_text.as_str());
            push_str(&mut r, t.as_str());
            push_str(&mut r, ",\"range\":");
            let g = range_json((0, 0), te.end);
            push_str(&mut r, g.as_str());
            push_str(&mut r, "}]");
            r
        }
        None => "null".to_string(),
    }
}

/// The JSON text of a reply; none where nothing is sent.
pub fn encode_reply(reply: &LspReply) -> (r: Option<String>)
    ensures
        opt_text(r) == reply_text(*reply),
{
    match reply {
        LspReply::Silent => None,
        LspReply::Capabilities { id } => Some(response_json(
            id,
            "{\"capabilities\":{\"completionProvider\":{\"resolveProvider\":false},\"definitionProvider\":true,\"documentFormattingProvider\":true,\"hoverProvider\":true,\"positionEncoding\":\"utf-16\",\"textDocumentSync\":1},\"serverInfo\":{\"name\":\"xz\",\"version\":\"0.1.0\"}}",
        )),
        LspReply::ShutdownAck { id } => Some(response_json(id, "null")),
        LspReply::Publish { uri, diagnostics } => Some(publish_json(uri.as_str(), diagnostics)),
        LspReply::MethodNotFound { id } => {
            let mut r = String::new();
            push_str(&mut r, "{\"error\":{\"code\":-32601,\"message\":\"method not found\"},\"id\":");
            let i = id_json(id);
            push_str(&mut r, i.as_str());
            push_str(&mut r, ",\"jsonrpc\":\"2.0\"}");
            Some(r)
        }
        LspReply::Hover { id, hover } => {
            let h = hover_json(hover);
            Some(response_json(id, h.as_str()))
        }
        LspReply::Completion { id, items } => {
            let c = completion_json(items);
            Some(response_json(id, c.as_str()))
        }
        LspReply::Definition { id, location } => {
            let l = location_json(location);
            Some(response_json(id, l.as_str()))
        }
        LspReply::Formatting { id, edit } => {
            let e = edit_json(edit);
            Some(response_json(id, e.as_str()))
        }
    }
}

/// Lexes and parses a document; none where either fails.
fn parse_text(text: &str, uri: &str) -> (r: Option<Program>)
    requires
        text@.len() < usize::MAX,
    ensures
        crate::lexer::blank_text(text@) ==> (r matches Some(p) && p.items@.len() == 0),
{
    let tokens = match crate::lexer::lex(text.to_string(), uri.to_string()) {
        Ok(t) => t,
        Err(_) => return None,
    };
    match crate::parser::parse(tokens) {
        Ok(p) => Some(p),
        Err(_) => None,
    }
}

/// The number of line breaks in `cs`.
fn count_newlines(cs: &Vec<char>) -> (n: usize)
    ensures
        n == newlines(cs@),
        n <= cs@.len(),
{
    let mut n: usize = 0;
    let mut i: usize = 0;
    while i < cs.len()
        invariant
            i <= cs.len(),
            n == newlines(cs@.take(i as int)),
            n <= i,
        decreases cs.len() - i,
    {
        proof {
            assert(cs@.take(i + 1).drop_last() == cs@.take(i as int));
            assert(cs@.take(i + 1).last() == cs@[i as int]);
        }
        if cs[i] == '\n' {
            n += 1;
        }
        i += 1;
    }
    proof {
        assert(cs@.take(cs@.len() as int) == cs@);
    }
    n
}

/// The position just past the last character of `text`.
pub fn document_end(text: &str) -> (r: (usize, usize))
    requires
        text@.len() <= usize::MAX / 2,
    ensures
        r == doc_end(text@),
{
    let cs = chars_of(text);
    let n = count_newlines(&cs);
    to_lsp_position(text, n + 1, usize::MAX)
}

impl Server {
    /// The open documents: each URI's current text.
    pub closed spec fn documents(&self) -> Map<Seq<char>, Seq<char>> {
        self.docs@.map_values(|s: String| s@)
    }

    pub closed spec fn exit_requested(&self) -> bool {
        self.exit
    }

    pub closed spec fn shutdown_requested(&self) -> bool {
        self.shutdown
    }

    pub fn new() -> (s: Server)
        ensures
            s.documents() == Map::<Seq<char>, Seq<char>>::empty(),
            !s.exit_requested(),
            !s.shutdown_requested(),
    {
        let s = Server { docs: NameMap::new(), shutdown: false, exit: false };
        assert(s.documents() =~= Map::<Seq<char>, Seq<char>>::empty());
        s
    }

    pub fn should_exit(&self) -> (r: bool)
        ensures
            r == self.exit_requested(),
    {
        self.exit
    }

    pub fn shutdown_received(&self) -> (r: bool)
        ensures
            r == self.shutdown_requested(),
    {
        self.shutdown
    }

    /// Handles one JSON-RPC message: reads it, updates the open documents
    /// and flags, and gives the JSON text to send back, if any. A message
    /// that is not JSON, has no method, or lacks a field its method needs is
    /// ignored.
    pub fn handle(&mut self, raw: &str) -> (r: Option<String>)
        ensures
            match decode_spec(raw@) {
                None => r is None && final(self).documents() == old(self).documents() && same_flags(
                    *old(self),
                    *final(self),
                ),
                Some(q) => exists|reply: LspReply| request_post(*old(self), *final(self), q, reply) && opt_text(r)
                    == reply_text(reply),
            },
    {
        match decode_request(raw) {
            None => None,
            Some(req) => {
                let ghost q = request_view(req);
                let reply = self.handle_request(req);
                let r = encode_reply(&reply);
                assert(request_post(*old(self), *self, q, reply) && opt_text(r) == reply_text(reply));
                r
            }
        }
    }

    /// Handles one decoded request: updates the open documents and flags,
    /// and says what to send back.
    pub fn handle_request(&mut self, req: LspRequest) -> (reply: LspReply)
        ensures
            request_post(*old(self), *final(self), request_view(req), reply),
    {
        match req {
            LspRequest::Initialize { id } => LspReply::Capabilities { id },
            LspRequest::Initialized => LspReply::Silent,
            LspRequest::Shutdown { id } => {
                self.shutdown = true;
                LspReply::ShutdownAck { id }
            }
            LspRequest::Exit => {
                self.exit = true;
                LspReply::Silent
            }
            LspRequest::DidOpen { uri, text } | LspRequest::DidChange { uri, text } => {
                let ghost (u, t) = (uri@, text@);
                self.docs.insert(uri.clone(), text);
                proof {
                    assert(self.documents() =~= old(self).documents().insert(u, t));
                }
                self.publish(uri)
            }
            LspRequest::DidClose { uri } => {
                let ghost u = uri@;
                self.docs.remove(uri.as_str());
                proof {
                    assert(self.documents() =~= old(self).documents().remove(u));
                }
                LspReply::Publish { uri, diagnostics: Vec::new() }
            }
            LspRequest::Hover { id, uri, line, character } => {
                let hover = self.hover_at(uri.as_str(), line, character);
                LspReply::Hover { id, hover }
            }
            LspRequest::Completion { id, uri } => {
                let items = self.completion_items(uri.as_str());
                LspReply::Completion { id, items }
            }
            LspRequest::Definition { id, uri, line, character } => {
                let location = self.definition_at(uri.as_str(), line, character);
                LspReply::Definition { id, location }
            }
            LspRequest::Formatting { id, uri } => {
                let edit = self.format_edit(uri.as_str());
                LspReply::Formatting { id, edit }
            }
            LspRequest::Other { id } => {
                match id {
                    Some(_) => LspReply::MethodNotFound { id },
                    None => LspReply::Silent,
                }
            }
        }
    }

    fn hover_at(&self, uri: &str, line: usize, c: usize) -> (h: Option<HoverInfo>)
        ensures
            hover_ok(self.documents(), uri@, line, c, h),
    {
        let text = match self.docs.get(uri) {
            Some(t) => t,
            None => return None,
        };
        assert(self.documents().dom().contains(uri@) && self.documents()[uri@] == text@);
        let (w, a, b) = match word_at(text.as_str(), line, c) {
            Some(v) => v,
            None => return None,
        };
        if chars_of(text.as_str()).len() == usize::MAX {
            return None;
        }
        let program = match parse_text(text.as_str(), uri) {
            Some(p) => p,
            None => return None,
        };
        match hover_markdown(&program, w.as_str()) {
            Some(markdown) => Some(HoverInfo { markdown, start: (line, a), end: (line, b) }),
            None => None,
        }
    }

    fn definition_at(&self, uri: &str, line: usize, c: usize) -> (l: Option<Location>)
        ensures
            definition_ok(self.documents(), uri@, line, c, l),
    {
        let text = match self.docs.get(uri) {
            Some(t) => t,
            None => return None,
        };
        assert(self.documents().dom().contains(uri@) && self.documents()[uri@] == text@);
        let (w, _a, _b) = match word_at(text.as_str(), line, c) {
            Some(v) => v,
            None => return None,
        };
        if chars_of(text.as_str()).len() > usize::MAX / 2 {
            return None;
        }
        let program = match parse_text(text.as_str(), uri) {
            Some(p) => p,
            None => return None,
        };
        match declaration_of(&program, w.as_str()) {
            Some((s, e)) => Some(Location {
                uri: uri.to_string(),
                start: to_lsp_position(text.as_str(), s.0, s.1),
                end: to_lsp_position(text.as_str(), e.0, e.1),
            }),
            None => None,
        }
    }

    fn completion_items(&self, uri: &str) -> (items: Vec<CompletionItem>)
        ensures
            completion_ok(self.documents(), uri@, items@),
    {
        let text = match self.docs.get(uri) {
            Some(t) => t,
            None => return Vec::new(),
        };
        assert(self.documents().dom().contains(uri@) && self.documents()[uri@] == text@);
        let mut items = vocabulary();
        if chars_of(text.as_str()).len() == usize::MAX {
            assert(items_view(items@) == vocabulary_items() + symbols_of(Seq::empty()));
            return items;
        }
        match parse_text(text.as_str(), uri) {
            Some(p) => {
                let ghost before = items@;
                let mut syms = document_symbols(&p);
                let ghost sv = syms@;
                items.append(&mut syms);
                proof {
                    assert(items@ == before + sv);
                    assert(items_view(items@) =~= items_view(before) + items_view(sv));
                    if crate::lexer::blank_text(text@) {
                        assert(p.items@ =~= Seq::<crate::ast::Item>::empty());
                        assert(items_view(items@) =~= vocabulary_items());
                    }
                }
            }
            None => {
                assert(items_view(items@) =~= vocabulary_items() + symbols_of(Seq::empty()));
            }
        }
        items
    }

    fn format_edit(&self, uri: &str) -> (e: Option<TextEdit>)
        ensures
            formatting_ok(self.documents(), uri@, e),
    {
        let text = match self.docs.get(uri) {
            Some(t) => t,
            None => return None,
        };
        assert(self.documents().dom().contains(uri@) && self.documents()[uri@] == text@);
        if chars_of(text.as_str()).len() > usize::MAX / 2 {
            return None;
        }
        match format_source(text.as_str(), uri) {
            Ok(new_text) => Some(TextEdit { end: document_end(text.as_str()), new_text }),
            Err(_) => None,
        }
    }

    /// The diagnostics of an open document (none for a closed one).
    fn publish(&self, uri: String) -> (reply: LspReply)
        ensures
            reply matches LspReply::Publish { uri: u, diagnostics: d } && u@ == uri@
                && (!self.documents().dom().contains(uri@) ==> d@.len() == 0)
                && (self.documents().dom().contains(uri@) && crate::lexer::blank_text(self.documents()[uri@])
                    ==> d@.len() == 0)
                && published_ok(d@)
                && (self.documents().dom().contains(uri@) && self.documents()[uri@].len() <= usize::MAX / 2
                    ==> published_from(self.documents()[uri@], d@)),
    {
        let text = match self.docs.get(uri.as_str()) {
            Some(t) => t,
            None => {
                proof {
                    assert(!self.documents().dom().contains(uri@));
                }
                return LspReply::Publish { uri, diagnostics: Vec::new() };
            }
        };
        let n = chars_of(text.as_str()).len();
        if n > usize::MAX / 2 {
            // no document this large can be held; nothing to report
            return LspReply::Publish { uri, diagnostics: Vec::new() };
        }
        let diags = driver::check(text.as_str(), uri.as_str(), false);
        let items = lsp_diagnostics(&diags, text.as_str());
        proof {
            assert forall|k: int| 0 <= k < items@.len() implies (#[trigger] items@[k]).severity == 1
                && exists|c: Category| driver::code_matches(items@[k].code@, c) by {
                assert(lsp_diag_of(items@[k], diags@[k], text@));
                assert(driver::pipeline_diag(diags@[k]));
                assert(driver::code_matches(items@[k].code@, diags@[k].category));
            }
        }
        LspReply::Publish { uri, diagnostics: items }
    }
}

/// `r` is the pipeline diagnostic `d` as the client sees it.
pub open spec fn lsp_diag_of(r: LspDiagnostic, d: Diagnostic, text: Seq<char>) -> bool {
    &&& r.start == lsp_position(text, d.span.start.0 as int, d.span.start.1 as int)
    &&& r.end == lsp_position(text, d.span.end.0 as int, d.span.end.1 as int)
    &&& r.severity == (if d.severity == Severity::Error { 1u32 } else { 2u32 })
    &&& r.code@ == d.code@
    &&& r.message@ == d.message@
}

/// The pipeline's diagnostics as the client sees them, one for one.
pub fn lsp_diagnostics(diags: &Vec<Diagnostic>, text: &str) -> (items: Vec<LspDiagnostic>)
    requires
        text@.len() <= usize::MAX / 2,
    ensures
        items@.len() == diags@.len(),
        forall|k: int| 0 <= k < diags@.len() ==> lsp_diag_of(#[trigger] items@[k], diags@[k], text@),
{
    let mut items: Vec<LspDiagnostic> = Vec::new();
    let mut i: usize = 0;
    while i < diags.len()
        invariant
            i <= diags.len(),
            items@.len() == i,
            text@.len() <= usize::MAX / 2,
            forall|k: int| 0 <= k < i ==> lsp_diag_of(#[trigger] items@[k], diags@[k], text@),
        decreases diags.len() - i,
    {
        let item = diagnostic_item(&diags[i], text);
        let ghost before = items@;
        items.push(item);
        proof {
            assert forall|k: int| 0 <= k < i + 1 implies lsp_diag_of(#[trigger] items@[k], diags@[k], text@) by {
                if k < i {
                    assert(items@[k] == before[k]);
                }
            }
        }
        i += 1;
    }
    items
}

/// A pipeline diagnostic as the client sees it.
pub fn diagnostic_item(d: &Diagnostic, text: &str) -> (r: LspDiagnostic)
    requires
        text@.len() <= usize::MAX / 2,
    ensures
        r.start == lsp_position(text@, d.span.start.0 as int, d.span.start.1 as int),
        r.end == lsp_position(text@, d.span.end.0 as int, d.span.end.1 as int),
        r.severity == (if d.severity == Severity::Error { 1u32 } else { 2u32 }),
        r.code@ == d.code@,
        r.message@ == d.message@,
{
    let start = to_lsp_position(text, d.span.start.0, d.span.start.1);
    let end = to_lsp_position(text, d.span.end.0, d.span.end.1);
    let severity = match d.severity {
        Severity::Error => 1,
        Severity::Warning => 2,
    };
    LspDiagnostic { start, end, severity, code: d.code.clone(), message: d.message.clone() }
}

/// The text of line `n` (0-based) of `s`, lines split at `\n`; empty past
/// the last line.
pub open spec fn nth_line(s: Seq<char>, n: int) -> Seq<char>
    decreases s.len(),
{
    if s.len() == 0 {
        Seq::empty()
    } else if s[0] == '\n' {
        if n <= 0 {
            Seq::empty()
        } else {
            nth_line(s.drop_first(), n - 1)
        }
    } else if n <= 0 {
        seq![s[0]] + nth_line(s.drop_first(), 0)
    } else {
        nth_line(s.drop_first(), n)
    }
}

/// How many UTF-16 code units a character takes.
pub open spec fn utf16_width(c: char) -> nat {
    if (c as u32) < 0x10000 {
        1
    } else {
        2
    }
}

/// The UTF-16 length of `s`.
pub open spec fn utf16_len(s: Seq<char>) -> nat
    decreases s.len(),
{
    if s.len() == 0 {
        0
    } else {
        utf16_len(s.drop_last()) + utf16_width(s.last())
    }
}

/// A 1-based (line, character) position as a 0-based LSP position in UTF-16
/// code units.
pub open spec fn lsp_position(text: Seq<char>, line: int, col: int) -> (usize, usize) {
    let line0 = if line > 0 { line - 1 } else { 0 };
    let c = if col > 0 { col - 1 } else { 0 };
    let lt = nth_line(text, line0);
    let k = if c < lt.len() { c } else { lt.len() as int };
    (line0 as usize, utf16_len(lt.take(k)) as usize)
}

proof fn lemma_utf16_bound(s: Seq<char>)
    ensures
        utf16_len(s) <= 2 * s.len(),
    decreases s.len(),
{
    if s.len() > 0 {
        lemma_utf16_bound(s.drop_last());
    }
}

fn utf16_of(c: char) -> (w: usize)
    ensures
        w == utf16_width(c),
{
    if (c as u32) < 0x10000 {
        1
    } else {
        2
    }
}

/// The text of line `line0` (0-based) of `cs`.
pub(crate) fn line_text(cs: &Vec<char>, line0: usize) -> (lt: Vec<char>)
    ensures
        lt@ == nth_line(cs@, line0 as int),
{
    let mut k: usize = 0;
    let mut past = false;
    let mut lt: Vec<char> = Vec::new();
    let mut i: usize = 0;
    assert(cs@.skip(0) == cs@);
    assert(lt@ + cs@ == cs@);
    while i < cs.len() && !past
        invariant
            i <= cs.len(),
            k <= line0,
            !past ==> nth_line(cs@, line0 as int) == lt@ + nth_line(cs@.skip(i as int), line0 - k),
            past ==> nth_line(cs@, line0 as int) == lt@,
        decreases cs.len() - i,
    {
        let ghost r = cs@.skip(i as int);
        proof {
            assert(r[0] == cs@[i as int]);
            assert(r.drop_first() == cs@.skip(i + 1));
        }
        if cs[i] == '\n' {
            if k < line0 {
                k += 1;
            } else {
                past = true;
                assert(lt@ + Seq::<char>::empty() == lt@);
            }
        } else if k == line0 {
            lt.push(cs[i]);
        }
        i += 1;
    }
    proof {
        if !past {
            assert(cs@.skip(i as int).len() == 0);
            assert(lt@ + Seq::<char>::empty() == lt@);
        }
    }
    lt
}

/// Converts a 1-based Xz position (line, Unicode scalar column) to a
/// 0-based LSP position counted in UTF-16 code units.
pub fn to_lsp_position(text: &str, line: usize, col: usize) -> (r: (usize, usize))
    requires
        text@.len() <= usize::MAX / 2,
    ensures
        r == lsp_position(text@, line as int, col as int),
{
    let line0: usize = if line > 0 { line - 1 } else { 0 };
    let char_col: usize = if col > 0 { col - 1 } else { 0 };
    let cs = chars_of(text);
    let lt = line_text(&cs, line0);
    proof {
        lemma_line_len(cs@, line0 as int);
    }
    let mut utf16: usize = 0;
    let mut i: usize = 0;
    while i < char_col && i < lt.len()
        invariant
            i <= char_col,
            i <= lt.len(),
            lt.len() <= usize::MAX / 2,
            utf16 == utf16_len(lt@.take(i as int)),
            utf16 <= 2 * i,
        decreases char_col - i,
    {
        proof {
            assert(lt@.take(i + 1).drop_last() == lt@.take(i as int));
            assert(lt@.take(i + 1).last() == lt@[i as int]);
        }
        utf16 = utf16 + utf16_of(lt[i]);
        i += 1;
    }
    (line0, utf16)
}

proof fn lemma_line_len(s: Seq<char>, n: int)
    ensures
        nth_line(s, n).len() <= s.len(),
    decreases s.len(),
{
    if s.len() > 0 {
        if s[0] == '\n' {
            if n > 0 {
                lemma_line_len(s.drop_first(), n - 1);
            }
        } else if n <= 0 {
            lemma_line_len(s.drop_first(), 0);
        } else {
            lemma_line_len(s.drop_first(), n);
        }
    }
}

/// What one header line of a message says.
#[derive(Debug, PartialEq, Eq)]
pub enum HeaderLine {
    /// The blank line that ends the header.
    End,
    /// A `Content-Length` line: the length, or `None` when it is not a
    /// number that fits.
    Length(Option<usize>),
    /// Any other header.
    Other,
}

/// A line without its trailing carriage returns and newlines.
pub open spec fn strip_newlines(s: Seq<char>) -> Seq<char>
    decreases s.len(),
{
    if s.len() > 0 && (s.last() == '\r' || s.last() == '\n') {
        strip_newlines(s.drop_last())
    } else {
        s
    }
}

/// A number's digits: the text after an optional leading `+`.
pub open spec fn unsigned_digits(s: Seq<char>) -> Seq<char> {
    if s.len() > 0 && s[0] == '+' {
        s.drop_first()
    } else {
        s
    }
}

/// A decimal number as `usize` parsing reads it: an optional `+`, then one
/// or more digits, with a value that fits.
pub open spec fn parse_usize_spec(s: Seq<char>) -> Option<usize> {
    if unsigned_digits(s).len() > 0 && (forall|i: int|
        0 <= i < unsigned_digits(s).len() ==> spec_is_digit(#[trigger] unsigned_digits(s)[i])) && digits_value(
        unsigned_digits(s),
        10,
    ) <= usize::MAX {
        Some(digits_value(unsigned_digits(s), 10) as usize)
    } else {
        None
    }
}

/// The header key that gives a message's length.
pub open spec fn length_key() -> Seq<char> {
    "Content-Length:"@
}

/// What a header line says: the end of the header when it is blank (line
/// breaks aside); the length, read from the rest of the line with spaces
/// trimmed, when it starts with `Content-Length:`; otherwise nothing of use.
pub open spec fn header_line_is(line: Seq<char>, h: HeaderLine) -> bool {
    let t = strip_newlines(line);
    if t.len() == 0 {
        h == HeaderLine::End
    } else if t.len() >= length_key().len() && t.subrange(0, length_key().len() as int) == length_key() {
        h == HeaderLine::Length(parse_usize_spec(trimmed(t.subrange(length_key().len() as int, t.len() as int))))
    } else {
        h == HeaderLine::Other
    }
}

/// Reads a decimal `usize` as `str::parse` does.
fn parse_usize(s: &Vec<char>) -> (r: Option<usize>)
    ensures
        r == parse_usize_spec(s@),
{
    let mut d: Vec<char> = Vec::new();
    let start: usize = if s.len() > 0 && s[0] == '+' { 1 } else { 0 };
    let mut i = start;
    while i < s.len()
        invariant
            start <= i <= s.len(),
            start == (if s@.len() > 0 && s@[0] == '+' { 1int } else { 0int }),
            d@ == s@.subrange(start as int, i as int),
        decreases s.len() - i,
    {
        d.push(s[i]);
        i += 1;
    }
    proof {
        if start == 1 {
            assert(d@ =~= s@.drop_first());
        } else {
            assert(d@ =~= s@);
        }
    }
    if d.len() == 0 {
        return None;
    }
    let mut k: usize = 0;
    while k < d.len()
        invariant
            k <= d.len(),
            d@ == unsigned_digits(s@),
            forall|j: int| 0 <= j < k ==> spec_is_digit(#[trigger] d@[j]),
        decreases d.len() - k,
    {
        if !(d[k] >= '0' && d[k] <= '9') {
            assert(!spec_is_digit(d@[k as int]));
            assert(!spec_is_digit(unsigned_digits(s@)[k as int]));
            return None;
        }
        k += 1;
    }
    proof {
        assert forall|j: int| 0 <= j < d.len() implies #[trigger] crate::chars::spec_is_hex_digit(d@[j])
            && spec_is_digit(d@[j]) by {
            assert(spec_is_digit(d@[j]));
        }
    }
    match parse_digits(&d, 10) {
        Some(v) => {
            if v <= usize::MAX as u64 {
                Some(v as usize)
            } else {
                None
            }
        }
        None => None,
    }
}

/// What one header line of a JSON-RPC message says.
pub fn header_line(line: &str) -> (h: HeaderLine)
    ensures
        header_line_is(line@, h),
{
    let cs = chars_of(line);
    let mut n = cs.len();
    assert(cs@.take(cs.len() as int) =~= cs@);
    while n > 0 && (cs[n - 1] == '\r' || cs[n - 1] == '\n')
        invariant
            n <= cs.len(),
            cs@ == line@,
            strip_newlines(cs@.take(n as int)) == strip_newlines(line@),
        decreases n,
    {
        proof {
            assert(cs@.take(n as int).drop_last() == cs@.take(n - 1));
        }
        n -= 1;
    }
    let ghost t = cs@.take(n as int);
    proof {
        if n > 0 {
            assert(t.last() == cs@[n - 1]);
        }
        assert(strip_newlines(t) == t);
    }
    assert(strip_newlines(line@) == t);
    if n == 0 {
        return HeaderLine::End;
    }
    let key = chars_of("Content-Length:");
    proof {
        reveal_strlit("Content-Length:");
    }
    if n < key.len() {
        return HeaderLine::Other;
    }
    let mut k: usize = 0;
    while k < key.len()
        invariant
            k <= key.len(),
            key.len() <= n <= cs.len(),
            key@ == length_key(),
            t == cs@.take(n as int),
            strip_newlines(line@) == t,
            n > 0,
            forall|j: int| 0 <= j < k ==> cs@[j] == key@[j],
        decreases key.len() - k,
    {
        if cs[k] != key[k] {
            proof {
                assert(t.subrange(0, length_key().len() as int)[k as int] != length_key()[k as int]);
            }
            return HeaderLine::Other;
        }
        k += 1;
    }
    assert(t.subrange(0, length_key().len() as int) =~= length_key());
    let mut rest: Vec<char> = Vec::new();
    let mut j: usize = key.len();
    while j < n
        invariant
            key.len() <= j <= n <= cs.len(),
            key@ == length_key(),
            t == cs@.take(n as int),
            strip_newlines(line@) == t,
            n > 0,
            t.subrange(0, length_key().len() as int) == length_key(),
            rest@ == t.subrange(length_key().len() as int, j as int),
        decreases n - j,
    {
        rest.push(cs[j]);
        j += 1;
        assert(rest@ =~= t.subrange(length_key().len() as int, j as int));
    }
    let v = trim(&rest);
    HeaderLine::Length(parse_usize(&v))
}

} // verus!
