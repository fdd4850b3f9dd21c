//! Pipeline checks whose expectations are stated as assertions, including
//! the exact wording of type errors.
use xz_cli::diagnostic::{to_json_array, Category, Diagnostic, Severity, Span, Suggestion};
use xz_cli::driver::check;
use xz_cli::intent::{check_intent, check_intent_strict};
use xz_cli::lexer::lex;
use xz_cli::parser::parse;
use xz_cli::resolve::resolve;
use xz_cli::typecheck::typecheck;

fn stage_errors(src: &str, strict: bool) -> Option<String> {
    let ts = match lex(src.to_string(), "t.xz".to_string()) {
        Ok(t) => t,
        Err(e) => return Some(format!("lex: {}", e.message)),
    };
    let p = match parse(ts) {
        Ok(p) => p,
        Err(e) => return Some(format!("parse: {}", e.message)),
    };
    if let Err(es) = resolve(&p) {
        return Some(format!("resolve: {}", es[0].message));
    }
    if let Err(es) = typecheck(&p) {
        return Some(format!("typecheck: {}", es[0].message));
    }
    let r = if strict { check_intent_strict(&p) } else { check_intent(&p) };
    if let Err(es) = r {
        return Some(format!("intent: {} {}", es[0].code, es[0].message));
    }
    None
}

fn assert_ok(src: &str) {
    let r = stage_errors(src, false);
    assert!(r.is_none(), "expected the program to check, got {:?}", r);
}

fn assert_err_contains(src: &str, strict: bool, needle: &str) {
    match stage_errors(src, strict) {
        Some(e) => assert!(e.contains(needle), "expected '{}' in: {}", needle, e),
        None => panic!("expected an error containing '{}'", needle),
    }
}

#[test]
fn greeting_program_checks() {
    assert_ok(
        "/// Prints a greeting.\n/// @intent  Writes a string and returns its length.\n/// @ensures result == 3\n/// @effects io\nfunc greet() -> Int\n    post result == 3\n{\n    print(\"hey\")\n    \"hey\".len()\n}\n\nfunc main() {\n    greet()\n}",
    );
}

#[test]
fn strict_mode_reports_unreviewed_trust() {
    let src = "/// Trusted but not reviewed.\n/// @intent  Returns one.\n/// @ensures result == 1  @trusted\n/// @effects none\nfunc f() -> Int\n    post result == 1\n{\n    1\n}";
    assert!(stage_errors(src, false).is_none());
    assert_err_contains(src, true, "I0004");
}

#[test]
fn reviewed_trust_passes_strict_mode() {
    let src = "/// Trusted and reviewed.\n/// @intent  Returns one.\n/// @ensures result == 1  @trusted  // reviewed by alice on 2026-09-08\n/// @effects none\nfunc f() -> Int\n    post result == 1\n{\n    1\n}";
    assert!(stage_errors(src, true).is_none(), "{:?}", stage_errors(src, true));
}

#[test]
fn bool_to_int_cast_is_refused_with_the_rule() {
    assert_err_contains(
        "func main() {\n    let b: Bool = true\n    let i: Int = b as Int\n    print(i.to_str())\n}",
        false,
        "cannot cast Bool to Int (allowed: Int<->usize, Int->Float, Float->Int, Str<->Bytes)",
    );
}

#[test]
fn int_to_usize_cast_passes() {
    assert_ok("extern func malloc(size: usize) -> Ptr\n\nfunc main() -> Result[Int, Err] {\n    let n: Int = 16\n    let p = malloc(n as usize)\n    if p == 0 {\n        err(\"oom\")\n    } else {\n        ok(0)\n    }\n}");
}

#[test]
fn generic_max_is_inferred() {
    assert_ok("/// Returns the larger.\n/// @intent  Compares and returns the max.\n/// @effects none\nfunc max[T: Ordered](a: T, b: T) -> T {\n    if a > b { a } else { b }\n}\n\nfunc main() {\n    let m: Int = max(3, 7)\n    let f: Float = max(1.5, 2.5)\n    print(m.to_str() + f.to_str())\n}");
}

#[test]
fn unconstrained_comparison_names_the_constraint() {
    assert_err_contains(
        "/// Compares.\n/// @intent  Returns the max.\n/// @effects none\nfunc max[T](a: T, b: T) -> T {\n    if a > b { a } else { b }\n}",
        false,
        "type parameter must be constrained (T: Ordered) to compare values of type TypeVar(0)/TypeVar(0)",
    );
}

#[test]
fn instantiated_return_is_checked_against_the_binding() {
    assert_err_contains(
        "/// Identity.\n/// @intent  Returns its argument.\n/// @effects none\nfunc id[T](x: T) -> T {\n    x\n}\n\nfunc main() {\n    let s: Str = id(1)\n    print(s)\n}",
        false,
        "binding 's' declared as Str but initializer is Int",
    );
}

#[test]
fn question_mark_into_a_foreign_channel_is_refused() {
    assert_err_contains(
        "record NetError { message: Str }\nrecord CfgError { message: Str }\n\n/// Reads.\n/// @intent  Returns a string.\n/// @effects none\nfunc read() -> Result[Str, NetError] {\n    err(NetError(\"nope\"))\n}\n\n/// Wraps read.\n/// @intent  Propagates.\n/// @effects none\nfunc wrap() -> Result[Str, CfgError] {\n    let s = read()?\n    ok(s)\n}",
        false,
        "cannot propagate Record(\"NetError\") via '?': the enclosing function's error channel is Record(\"CfgError\")",
    );
}

#[test]
fn question_mark_into_a_union_member_passes() {
    assert_ok("record NetError { message: Str }\nrecord CfgError { message: Str }\n\n/// Reads.\n/// @intent  Returns a string.\n/// @effects none\nfunc read() -> Result[Str, NetError] {\n    err(NetError(\"nope\"))\n}\n\n/// Wraps read.\n/// @intent  Propagates.\n/// @effects none\nfunc wrap() -> Result[Str, NetError | CfgError] {\n    let s = read()?\n    ok(s)\n}");
}

#[test]
fn method_on_an_unnarrowed_option_is_refused() {
    assert_err_contains(
        "/// Length.\n/// @intent  Returns the value length.\n/// @effects none\nfunc len(o: Option[Str]) -> Int {\n    o.to_upper()\n}",
        false,
        "no method 'to_upper' on Option(Str)",
    );
}

#[test]
fn narrowing_by_is_some_and_is_none_passes() {
    assert_ok("/// Normalizes.\n/// @intent  Uppercases if present, else returns \"none\".\n/// @effects none\nfunc norm(o: Option[Str]) -> Str {\n    if o is some {\n        o.to_upper()\n    } else {\n        \"none\"\n    }\n}");
    assert_ok("/// Length.\n/// @intent  Returns the value length, 0 if absent.\n/// @effects none\nfunc len(o: Option[Str]) -> Int {\n    if o is none {\n        0\n    } else {\n        o.to_upper()\n    }\n}");
}

#[test]
fn map_literal_program_checks() {
    assert_ok("func main() {\n    let counts: Map[Str, Int] = {\"a\": 1, \"b\": 2}\n    let n: Int = counts.len()\n    let empty: Bool = counts.is_empty()\n    let grown: Map[Str, Int] = counts.insert(\"c\", 3)\n    let o = grown.get(\"a\")\n    if o is some {\n        print(o.to_str())\n    }\n    let ks: List[Str] = grown.keys()\n    for k in ks {\n        print(k)\n    }\n    print(n.to_str() + empty.to_str())\n}");
}

#[test]
fn effect_mismatch_suggests_the_derived_profile() {
    let ts = lex("/// Prints.\n/// @intent  Writes something.\n/// @effects none\nfunc f() -> Int {\n    print(\"hi\")\n    0\n}".to_string(), "t.xz".to_string()).ok().unwrap();
    let p = parse(ts).ok().unwrap();
    let errs = match check_intent(&p) {
        Err(e) => e,
        Ok(_) => panic!("expected I0020"),
    };
    assert_eq!(errs[0].code, "I0020");
    assert_eq!(errs[0].message, "declared @effects 'none' does not match derived effects 'io' on 'f'");
    let s = errs[0].suggestion.as_ref().unwrap();
    assert_eq!(s.fix, "extend @effects on 'f' to include 'io'");
    assert_eq!(s.confidence_pct, 90);
}

#[test]
fn missing_effects_and_unknown_effects_are_reported() {
    assert_err_contains("/// Doc.\n/// @intent  Returns one.\nfunc f() -> Int {\n    1\n}", false, "I0023");
    assert_err_contains("/// Doc.\n/// @intent  Returns one.\n/// @effects sleepy\nfunc f() -> Int {\n    1\n}", false, "I0024");
}

#[test]
fn duplicate_symbols_are_counted_once_each() {
    let ts = lex("func a() {\n}\nfunc a() {\n}\nrecord R { x: Int }\nrecord R { x: Int }\nrecord IoError { m: Str }\n".to_string(), "t.xz".to_string()).ok().unwrap();
    let p = parse(ts).ok().unwrap();
    let errs = match resolve(&p) {
        Err(e) => e,
        Ok(_) => panic!("duplicates accepted"),
    };
    let msgs: Vec<String> = errs.iter().map(|e| e.message.clone()).collect();
    assert_eq!(msgs, vec!["duplicate symbol 'a'", "duplicate type 'R'", "duplicate type 'IoError'"]);
}

#[test]
fn unknown_names_are_reported() {
    assert_err_contains("func main() {\n    print(nope)\n}", false, "unknown name 'nope'");
    assert_err_contains("record R {\n    x: Nope\n}", false, "unknown type 'Nope'");
}

#[test]
fn driver_reports_one_stage() {
    let lexd = check("func main() {\n    let s = $\n}", "a.xz", false);
    assert_eq!(lexd.len(), 1);
    assert_eq!(lexd[0].code, "L0001");
    assert_eq!(lexd[0].category, Category::Lex);
    let parsed = check("func main( {\n", "a.xz", false);
    assert_eq!(parsed.len(), 1);
    assert_eq!(parsed[0].code, "P0001");
    let typed = check("func main() {\n    let x: Int = \"s\"\n}", "a.xz", false);
    assert!(typed.len() >= 1);
    assert!(typed.iter().all(|d| d.code == "T0001" && d.category == Category::Type));
    assert!(check("func main() {\n    print(\"ok\")\n}", "a.xz", false).is_empty());
}

#[test]
fn json_has_the_exact_shape() {
    let d = Diagnostic {
        version: 1,
        severity: Severity::Error,
        code: "T0001".to_string(),
        message: "say \"hi\"\n".to_string(),
        category: Category::Type,
        span: Span { file: "a\\b.xz".to_string(), start: (1, 2), end: (3, 4) },
        suggestion: None,
    };
    assert_eq!(
        d.to_json(),
        "{\"version\":1,\"severity\":\"error\",\"code\":\"T0001\",\"message\":\"say \\\"hi\\\"\\n\",\"category\":\"type\",\"span\":{\"file\":\"a\\\\b.xz\",\"start\":[1,2],\"end\":[3,4]}}"
    );
    let mut e = d;
    e.suggestion = Some(Suggestion { fix: "f".to_string(), confidence_pct: 75 });
    assert!(to_json_array(&vec![e]).ends_with(",\"suggestion\":{\"fix\":\"f\",\"confidence\":0.75}}]"));
    assert_eq!(to_json_array(&vec![]), "[]");
}

#[test]
fn json_escape_round_trips_the_specials() {
    assert_eq!(xz_cli::diagnostic::json_escape("a\"b\\c\nd\te\rf"), "a\\\"b\\\\c\\nd\\te\\rf");
}

#[test]
fn declared_effects_propagate_through_calls() {
    // `outer` calls `inner`, which declares `io`: `outer` has `io` too.
    let inner = "/// Logs.\n/// @intent  Writes a line.\n/// @effects io\nfunc inner() {\n    print(\"x\")\n}\n";
    let good = format!("{}/// Wraps.\n/// @intent  Calls inner.\n/// @effects io\nfunc outer() {{\n    inner()\n}}", inner);
    assert_ok(&good);
    let bad = format!("{}/// Wraps.\n/// @intent  Calls inner.\n/// @effects none\nfunc outer() {{\n    inner()\n}}", inner);
    assert_err_contains(&bad, false, "declared @effects 'none' does not match derived effects 'io' on 'outer'");
}

#[test]
fn mut_parameter_and_c_calls_are_effects() {
    assert_ok("/// Bumps.\n/// @intent  Adds one in place.\n/// @effects mut\nfunc bump(mut n: Int) {\n    n = n + 1\n}");
    assert_err_contains(
        "/// Bumps.\n/// @intent  Adds one in place.\n/// @effects none\nfunc bump(mut n: Int) {\n    n = n + 1\n}",
        false,
        "I0020",
    );
}

#[test]
fn literal_misuse_is_rejected_by_the_type_checker() {
    assert_err_contains(
        "func main() {\n    let x = \"a\"[0]\n    print(x.to_str())\n}",
        false,
        "typecheck: indexing is only defined for List[T], got Str",
    );
    assert_err_contains("func main() {\n    let x = 1?\n    print(x.to_str())\n}", false, "typecheck: '?' not allowed on Int");
    assert_err_contains(
        "func main() {\n    for c in \"abc\" {\n        print(c)\n    }\n}",
        false,
        "typecheck: for-in iterable must be an Int range, a List[T], or a Set[T], got Str",
    );
    assert_err_contains("func main() {\n    let s: Str = 1\n    print(s)\n}", false, "typecheck: binding 's' declared as Str but initializer is Int");
}

#[test]
fn a_stray_first_token_is_one_parse_error() {
    let ds = check("x = 1\n", "stray.xz", false);
    assert_eq!(ds.len(), 1);
    assert_eq!(ds[0].category, Category::Parse);
    assert_eq!(ds[0].code, "P0001");
}

#[test]
fn a_malformed_literal_is_dropped_and_lexing_goes_on() {
    let toks = lex("let x = \"abc".to_string(), "lit.xz".to_string()).unwrap();
    assert_eq!(toks.len(), 4);
}

#[test]
fn r_before_a_quote_is_a_word_then_a_string() {
    let toks = lex("r\"raw\"".to_string(), "raw.xz".to_string()).unwrap();
    assert_eq!(toks.len(), 3);
    assert_eq!(toks[0].text, "r");
}

#[test]
fn an_unexpected_character_is_reported_where_it_stands() {
    let e = lex("let x: Str = $".to_string(), "lex.xz".to_string()).unwrap_err();
    assert_eq!(e.message, "unexpected character $");
    assert_eq!(e.span.file, "lex.xz");
    assert_eq!(e.span.start, (1, 14));
}

#[test]
fn simple_functions_parse_to_their_declarations() {
    let toks = lex("func main() {\n    print(1)\n}\nfunc idle() {}".to_string(), "f.xz".to_string()).unwrap();
    let p = parse(toks).unwrap();
    assert_eq!(p.items.len(), 2);
    match &p.items[0] {
        xz_cli::ast::Item::Func(f) => {
            assert_eq!(f.name, "main");
            assert_eq!(f.body.stmts.len(), 1);
        }
        _ => panic!("expected a function"),
    }
    match &p.items[1] {
        xz_cli::ast::Item::Func(f) => {
            assert_eq!(f.name, "idle");
            assert!(f.body.stmts.is_empty());
        }
        _ => panic!("expected a function"),
    }
}

#[test]
fn integer_literals_carry_their_value() {
    let toks = lex("0x1F 1_000".to_string(), "n.xz".to_string()).unwrap();
    assert!(matches!(toks[0].kind, xz_cli::token::TokKind::Int(31)));
    assert!(matches!(toks[1].kind, xz_cli::token::TokKind::Int(1000)));
}

#[test]
fn braces_around_atoms_are_a_set_and_brackets_a_list() {
    let toks = lex("func main() {\n    let s = {a, b}\n    let l = [a, b, c]\n}".to_string(), "s.xz".to_string()).unwrap();
    let p = parse(toks).unwrap();
    match &p.items[0] {
        xz_cli::ast::Item::Func(f) => {
            match &f.body.stmts[0].kind {
                xz_cli::ast::StmtKind::Decl(d) => match d.init.as_deref() {
                    Some(xz_cli::ast::Expr::SetLit(es)) => assert_eq!(es.len(), 2),
                    _ => panic!("expected a set literal"),
                },
                _ => panic!("expected a binding"),
            }
            match &f.body.stmts[1].kind {
                xz_cli::ast::StmtKind::Decl(d) => match d.init.as_deref() {
                    Some(xz_cli::ast::Expr::ListLit(es)) => assert_eq!(es.len(), 3),
                    _ => panic!("expected a list literal"),
                },
                _ => panic!("expected a binding"),
            }
        }
        _ => panic!("expected a function"),
    }
}
