//! The front-end pipeline over source text: lex, parse, resolve, type-check
//! and intent-check, collecting structured diagnostics. The command line and
//! the language server share it, so both report the same errors.
use vstd::prelude::*;
use crate::diagnostic::{Category, Diagnostic, Severity, Span as DSpan, Suggestion};
use crate::intent::{check_intent, check_intent_strict, intent_fails, IntentError};
use crate::ast::{Item, Program};
use crate::parser::ParseError;
use crate::resolve::{duplicate_count, error_type_names, items_ok, type_symbols, value_symbols, ResolveError};
use crate::token::LexError;
use crate::typecheck::{bad_cstruct, bad_export, item_has_rejected_stmt, plain_program, TypeError};
use crate::lexer::lex;
use crate::parser::{lemma_stray_plain_start, parse, stray_plain_start, stray_top};
use crate::resolve::resolve;
use crate::token::{well_formed_tokens, Span, Token};
use crate::typecheck::typecheck;

verus! {

/// The stage a diagnostic code belongs to.
pub open spec fn code_matches(code: Seq<char>, c: Category) -> bool {
    match c {
        Category::Lex => code == "L0001"@,
        Category::Parse => code == "P0001"@,
        Category::Resolve => code == "R0001"@,
        Category::Type => code == "T0001"@,
        Category::Intent => code.len() > 0 && code[0] == 'I',
    }
}

/// Every diagnostic of the pipeline is a version-1 error whose code names
/// its stage.
pub open spec fn pipeline_diag(d: Diagnostic) -> bool {
    d.version == 1 && d.severity == Severity::Error && code_matches(d.code@, d.category)
}

/// One pipeline run reports from a single stage: the first that failed.
pub open spec fn single_stage(ds: Seq<Diagnostic>) -> bool {
    forall|i: int, j: int| 0 <= i < ds.len() && 0 <= j < ds.len() ==> (#[trigger] ds[i]).category == (#[trigger] ds[j]).category
}

/// `d` reports, for stage `c` under `code`, an error with this message and
/// span.
pub open spec fn diag_of(d: Diagnostic, code: Seq<char>, c: Category, message: Seq<char>, span: Span) -> bool {
    &&& pipeline_diag(d)
    &&& d.code@ == code
    &&& d.category == c
    &&& d.message@ == message
    &&& d.span.file@ == span.file@ && d.span.start == span.start && d.span.end == span.end
}

/// `d` reports the intent error `e` (its code, message, span and
/// suggestion).
pub open spec fn intent_diag_of(d: Diagnostic, e: IntentError) -> bool {
    &&& pipeline_diag(d)
    &&& d.code@ == e.code@
    &&& d.category == Category::Intent
    &&& d.message@ == e.message@
    &&& d.span.file@ == e.span.file@ && d.span.start == e.span.start && d.span.end == e.span.end
    &&& (d.suggestion is Some <==> e.suggestion is Some)
}

/// Every diagnostic is a pipeline error of stage `c`.
pub open spec fn all_of(ds: Seq<Diagnostic>, c: Category) -> bool {
    forall|i: int| 0 <= i < ds.len() ==> pipeline_diag(#[trigger] ds[i]) && ds[i].category == c
}

/// The diagnostics of the stages after type checking, for a program the
/// type checker accepted: the intent errors, none exactly when the intent
/// rules hold.
pub open spec fn after_types(items: Seq<Item>, strict: bool, r: Seq<Diagnostic>) -> bool {
    &&& all_of(r, Category::Intent)
    &&& (r.len() == 0 <==> !intent_fails(items, strict))
}

/// The diagnostics of the stages after name resolution, for a program
/// whose names resolve: type errors (some wherever a rejected statement,
/// bad export or bad cstruct stands), or else the intent stage's.
pub open spec fn after_resolve(items: Seq<Item>, strict: bool, r: Seq<Diagnostic>) -> bool {
    &&& (all_of(r, Category::Type) && r.len() > 0) || after_types(items, strict, r)
    &&& (exists|i: int| 0 <= i < items.len() && (#[trigger] item_has_rejected_stmt(items[i]) || bad_export(items[i])
        || bad_cstruct(items[i]))) ==> all_of(r, Category::Type) && r.len() > 0
    &&& plain_program(items) ==> after_types(items, strict, r)
}

/// The diagnostics of a parsed program: the resolver's errors where its
/// names do not resolve (one per duplicate where there are duplicates),
/// otherwise those of the later stages.
pub open spec fn after_parse(items: Seq<Item>, strict: bool, r: Seq<Diagnostic>) -> bool {
    let resolves = duplicate_count(items) == 0 && items_ok(
        items,
        value_symbols(items).to_set(),
        error_type_names().to_set() + type_symbols(items).to_set(),
    );
    &&& !resolves ==> all_of(r, Category::Resolve) && r.len() > 0
    &&& duplicate_count(items) > 0 ==> r.len() == duplicate_count(items)
    &&& resolves ==> after_resolve(items, strict, r)
}

/// The intent stage's diagnostics: one per intent error, in order.
pub fn intent_diagnostics(intent: Result<(), Vec<IntentError>>) -> (r: Vec<Diagnostic>)
    requires
        intent matches Err(v) ==> crate::intent::codes_ok(v@),
    ensures
        match intent {
            Ok(()) => r@.len() == 0,
            Err(v) => r@.len() == v@.len() && forall|k: int| 0 <= k < v@.len() ==> intent_diag_of(#[trigger] r@[k], v@[k]),
        },
{
    let mut diags: Vec<Diagnostic> = Vec::new();
    match intent {
        Ok(()) => {}
        Err(errors) => {
            let mut i: usize = 0;
            while i < errors.len()
                invariant
                    i <= errors.len(),
                    diags@.len() == i,
                    crate::intent::codes_ok(errors@),
                    forall|k: int| 0 <= k < i ==> intent_diag_of(#[trigger] diags@[k], errors@[k]),
                decreases errors.len() - i,
            {
                let err = &errors[i];
                let suggestion = match &err.suggestion {
                    Some(s) => Some(Suggestion { fix: s.fix.clone(), confidence_pct: s.confidence_pct }),
                    None => None,
                };
                diags.push(Diagnostic {
                    version: 1,
                    severity: Severity::Error,
                    code: err.code.clone(),
                    message: err.message.clone(),
                    category: Category::Intent,
                    span: dspan(err.span.clone()),
                    suggestion,
                });
                i += 1;
            }
        }
    }
    diags
}

/// The type stage's diagnostics: one `T0001` per type error, in order; the
/// intent stage's where the program type-checks.
pub fn typed_diagnostics(typed: Result<(), Vec<TypeError>>, program: &Program, strict: bool) -> (r: Vec<Diagnostic>)
    ensures
        match typed {
            Ok(()) => after_types(program.items@, strict, r@),
            Err(v) => r@.len() == v@.len() && forall|k: int| 0 <= k < v@.len() ==> diag_of(
                #[trigger] r@[k],
                "T0001"@,
                Category::Type,
                v@[k].message@,
                v@[k].span,
            ),
        },
{
    match typed {
        Ok(()) => {
            let intent = if strict {
                check_intent_strict(program)
            } else {
                check_intent(program)
            };
            let r = intent_diagnostics(intent);
            proof {
                assert forall|i: int| 0 <= i < r@.len() implies pipeline_diag(#[trigger] r@[i]) && r@[i].category
                    == Category::Intent by {}
            }
            r
        }
        Err(errors) => {
            let mut diags: Vec<Diagnostic> = Vec::new();
            let mut i: usize = 0;
            while i < errors.len()
                invariant
                    i <= errors.len(),
                    diags@.len() == i,
                    forall|k: int| 0 <= k < i ==> diag_of(
                        #[trigger] diags@[k],
                        "T0001"@,
                        Category::Type,
                        errors@[k].message@,
                        errors@[k].span,
                    ),
                decreases errors.len() - i,
            {
                diags.push(error("T0001", errors[i].message.clone(), Category::Type, errors[i].span.clone()));
                i += 1;
            }
            diags
        }
    }
}

/// The resolver's diagnostics: one `R0001` per resolution error, in order;
/// the later stages' where the names resolve.
pub fn resolved_diagnostics(resolved: Result<(), Vec<ResolveError>>, program: &Program, strict: bool) -> (r: Vec<Diagnostic>)
    ensures
        match resolved {
            Ok(()) => after_resolve(program.items@, strict, r@),
            Err(v) => r@.len() == v@.len() && forall|k: int| 0 <= k < v@.len() ==> diag_of(
                #[trigger] r@[k],
                "R0001"@,
                Category::Resolve,
                v@[k].message@,
                v@[k].span,
            ),
        },
{
    match resolved {
        Ok(()) => {
            let typed = typecheck(program);
            let r = typed_diagnostics(typed, program, strict);
            proof {
                if typed is Err {
                    assert(all_of(r@, Category::Type));
                }
            }
            r
        }
        Err(errors) => {
            let mut diags: Vec<Diagnostic> = Vec::new();
            let mut i: usize = 0;
            while i < errors.len()
                invariant
                    i <= errors.len(),
                    diags@.len() == i,
                    forall|k: int| 0 <= k < i ==> diag_of(
                        #[trigger] diags@[k],
                        "R0001"@,
                        Category::Resolve,
                        errors@[k].message@,
                        errors@[k].span,
                    ),
                decreases errors.len() - i,
            {
                diags.push(error("R0001", errors[i].message.clone(), Category::Resolve, errors[i].span.clone()));
                i += 1;
            }
            diags
        }
    }
}

/// The parser's diagnostic: its one `P0001` error; the later stages' where
/// the tokens parse.
pub fn parsed_diagnostics(parsed: Result<Program, ParseError>, strict: bool) -> (r: Vec<Diagnostic>)
    ensures
        match parsed {
            Ok(p) => after_parse(p.items@, strict, r@),
            Err(e) => r@.len() == 1 && diag_of(r@[0], "P0001"@, Category::Parse, e.message@, e.span),
        },
{
    match parsed {
        Err(e) => {
            let mut v: Vec<Diagnostic> = Vec::new();
            v.push(error("P0001", e.message, Category::Parse, e.span));
            v
        }
        Ok(program) => {
            let resolved = resolve(&program);
            let ghost g = resolved;
            let r = resolved_diagnostics(resolved, &program, strict);
            proof {
                if g matches Err(v) {
                    assert(all_of(r@, Category::Resolve));
                }
            }
            r
        }
    }
}

/// The lexer's diagnostic: its one `L0001` error; the later stages' where
/// the source lexes.
pub fn lexed_diagnostics(lexed: Result<Vec<Token>, LexError>, strict: bool) -> (r: Vec<Diagnostic>)
    requires
        lexed matches Ok(ts) ==> well_formed_tokens(ts@),
    ensures
        match lexed {
            Ok(ts) => tokens_post(ts@, r@),
            Err(e) => r@.len() == 1 && diag_of(r@[0], "L0001"@, Category::Lex, e.message@, e.span),
        },
{
    match lexed {
        Err(e) => {
            let mut v: Vec<Diagnostic> = Vec::new();
            v.push(error("L0001", e.message, Category::Lex, e.span));
            v
        }
        Ok(tokens) => check_tokens(tokens, strict),
    }
}

/// What the stages from parsing on report of a token stream: pipeline
/// errors of one stage, never a lexer's; a parse error alone; nothing for
/// the end marker alone; one parse error where the first token cannot
/// begin a declaration.
pub open spec fn tokens_post(ts: Seq<Token>, r: Seq<Diagnostic>) -> bool {
    &&& forall|i: int| 0 <= i < r.len() ==> pipeline_diag(#[trigger] r[i]) && r[i].category != Category::Lex
    &&& single_stage(r)
    &&& forall|i: int| 0 <= i < r.len() ==> (#[trigger] r[i]).category == Category::Parse ==> r.len() == 1
    &&& ts.len() == 1 ==> r.len() == 0
    &&& stray_top(ts[0].kind) ==> r.len() == 1 && r[0].category == Category::Parse
}

/// What a pipeline run on `source` reports: pipeline errors of one stage; a
/// lexer error alone; nothing for a blank source; no lexer error for words
/// and operators alone; one parse error where the first token cannot begin
/// a declaration.
pub open spec fn check_post(source: Seq<char>, r: Seq<Diagnostic>) -> bool {
    &&& forall|i: int| 0 <= i < r.len() ==> pipeline_diag(#[trigger] r[i])
    &&& single_stage(r)
    &&& forall|i: int| 0 <= i < r.len() ==> (#[trigger] r[i]).category == Category::Lex ==> r.len() == 1
    &&& crate::lexer::blank_text(source) ==> r.len() == 0
    &&& crate::lexer::plain_text(source) ==> forall|i: int| 0 <= i < r.len() ==> (#[trigger] r[i]).category != Category::Lex
    &&& stray_plain_start(source) ==> r.len() == 1 && r[0].category == Category::Parse
}

/// Lexes and runs the pipeline on `source`; every diagnostic found, in
/// pipeline order (a lexer error stops everything). A blank source is clean,
/// and words and operators alone never fail to lex.
pub fn check(source: &str, file: &str, strict: bool) -> (r: Vec<Diagnostic>)
    requires
        source@.len() < usize::MAX,
    ensures
        check_post(source@, r@),
{
    let lexed = lex(source.to_string(), file.to_string());
    proof {
        if stray_plain_start(source@) {
            if lexed is Ok {
                lemma_stray_plain_start(lexed->Ok_0@, source@);
            }
        }
    }
    lexed_diagnostics(lexed, strict)
}

/// The stages from parsing onward, for callers that lexed already. The end
/// marker alone is clean.
pub fn check_tokens(tokens: Vec<Token>, strict: bool) -> (r: Vec<Diagnostic>)
    requires
        well_formed_tokens(tokens@),
    ensures
        tokens_post(tokens@, r@),
{
    let ghost ts = tokens@;
    let parsed = parse(tokens);
    let ghost g = parsed;
    let r = parsed_diagnostics(parsed, strict);
    proof {
        if let Ok(p) = g {
            assert(p.items@.len() == 0 ==> p.items@ =~= Seq::<Item>::empty());
        }
    }
    r
}

/// One line of the plain `check` report: `  [code] message at file:l:c`.
pub open spec fn report_line(d: Diagnostic) -> Seq<char> {
    "  ["@ + d.code@ + "] "@ + d.message@ + " at "@ + d.span.file@ + ":"@ + crate::text::decimal(
        d.span.start.0 as nat,
    ) + ":"@ + crate::text::decimal(d.span.start.1 as nat)
}

/// The report lines, separated by newlines.
pub open spec fn report_lines(ds: Seq<Diagnostic>) -> Seq<char>
    decreases ds.len(),
{
    if ds.len() == 0 {
        Seq::empty()
    } else if ds.len() == 1 {
        report_line(ds[0])
    } else {
        report_lines(ds.drop_last()) + "\n"@ + report_line(ds.last())
    }
}

/// What `check` prints for a list of diagnostics, and its exit code: the
/// JSON array when asked for JSON; otherwise one line per diagnostic, or
/// `ok: all checks passed` when there is none. The code is 1 exactly when
/// there are diagnostics.
pub fn report(diags: &Vec<Diagnostic>, json: bool) -> (r: (String, i32))
    ensures
        r.1 == (if diags@.len() > 0 { 1i32 } else { 0i32 }),
        r.0@ == if json {
            crate::diagnostic::diagnostics_json(diags@)
        } else if diags@.len() == 0 {
            "ok: all checks passed"@
        } else {
            report_lines(diags@)
        },
{
    let code: i32 = if diags.len() > 0 { 1 } else { 0 };
    if json {
        return (crate::diagnostic::to_json_array(diags), code);
    }
    if diags.len() == 0 {
        return ("ok: all checks passed".to_string(), code);
    }
    let mut s = String::new();
    let mut i: usize = 0;
    while i < diags.len()
        invariant
            i <= diags.len(),
            s@ == report_lines(diags@.take(i as int)),
        decreases diags.len() - i,
    {
        proof {
            assert(diags@.take(i + 1).drop_last() == diags@.take(i as int));
            assert(diags@.take(i + 1).last() == diags@[i as int]);
        }
        if i > 0 {
            crate::text::push_str(&mut s, "\n");
        }
        let d = &diags[i];
        crate::text::push_str(&mut s, "  [");
        crate::text::push_str(&mut s, d.code.as_str());
        crate::text::push_str(&mut s, "] ");
        crate::text::push_str(&mut s, d.message.as_str());
        crate::text::push_str(&mut s, " at ");
        crate::text::push_str(&mut s, d.span.file.as_str());
        crate::text::push_str(&mut s, ":");
        crate::text::push_decimal(&mut s, d.span.start.0 as u64);
        crate::text::push_str(&mut s, ":");
        crate::text::push_decimal(&mut s, d.span.start.1 as u64);
        proof {
            if i == 0 {
                assert(diags@.take(1)[0] == diags@[0]);
                assert(s@ =~= report_line(diags@[0]));
            }
        }
        i += 1;
    }
    assert(diags@.take(diags.len() as int) == diags@);
    (s, code)
}

/// A pipeline error diagnostic for a stage.
pub fn error(code: &str, message: String, category: Category, span: Span) -> (d: Diagnostic)
    requires
        code_matches(code@, category),
    ensures
        pipeline_diag(d),
        d.code@ == code@,
        d.message == message,
        d.category == category,
        d.span.file == span.file && d.span.start == span.start && d.span.end == span.end,
        d.suggestion is None,
{
    Diagnostic {
        version: 1,
        severity: Severity::Error,
        code: code.to_string(),
        message,
        category,
        span: dspan(span),
        suggestion: None,
    }
}

/// A token span as a diagnostic span.
pub fn dspan(s: Span) -> (d: DSpan)
    ensures
        d.file == s.file && d.start == s.start && d.end == s.end,
{
    DSpan { file: s.file, start: s.start, end: s.end }
}

} // verus!
