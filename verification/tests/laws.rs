//! Concrete instances of the library's laws.
use xz_cli::env::{apply_complement, apply_narrowing, Env, NarrowKind};
use xz_cli::intent::{effect_set_from_text, is_valid_effects, EffectSet};
use xz_cli::kind::{accepts_cast_kind, accepts_error_kind, accepts_kind, kind_string, subst, Kind};
use xz_cli::lsp::{header_line, to_lsp_position, HeaderLine, LspReply, LspRequest, Server};
use xz_cli::names::{NameMap, NameSet};
use xz_cli::token::{Keyword, Punct, TokKind};

#[test]
fn acceptance_is_reflexive_and_rooted() {
    let ks = vec![Kind::Int, Kind::Str, Kind::OptionOf(Box::new(Kind::Int)), Kind::Record("R".to_string())];
    for k in &ks {
        assert!(accepts_kind(k, k));
        assert!(accepts_kind(k, &Kind::ErrRoot));
        assert!(accepts_cast_kind(k, k));
    }
    assert!(!accepts_kind(&Kind::Int, &Kind::Str));
    assert!(accepts_kind(&Kind::OptionOf(Box::new(Kind::Unknown)), &Kind::OptionOf(Box::new(Kind::Str))));
    assert!(!accepts_kind(&Kind::OptionOf(Box::new(Kind::Int)), &Kind::OptionOf(Box::new(Kind::Str))));
}

#[test]
fn casts_are_symmetric() {
    assert!(accepts_cast_kind(&Kind::Int, &Kind::Float) && accepts_cast_kind(&Kind::Float, &Kind::Int));
    assert!(!accepts_cast_kind(&Kind::Bool, &Kind::Int) && !accepts_cast_kind(&Kind::Int, &Kind::Bool));
}

#[test]
fn unions_accept_their_members() {
    let a = Kind::Record("A".to_string());
    let u = Kind::ErrUnion(vec![Kind::Record("A".to_string()), Kind::Record("B".to_string())]);
    assert!(accepts_error_kind(&a, &u));
    assert!(!accepts_error_kind(&Kind::Record("C".to_string()), &u));
    assert_eq!(kind_string(&u), "ErrUnion([Record(\"A\"), Record(\"B\")])");
}

#[test]
fn substitution_without_bindings_is_identity() {
    let k = Kind::MapOf(Box::new(Kind::TypeVar(0)), Box::new(Kind::ListOf(Box::new(Kind::TypeVar(1)))));
    assert_eq!(kind_string(&subst(&k, &vec![])), kind_string(&k));
    let bound = subst(&k, &vec![Some(Kind::Str), None]);
    assert_eq!(kind_string(&bound), "Map(Str, List(TypeVar(1)))");
}

#[test]
fn narrowing_changes_only_the_tested_name() {
    let mut env = Env::new();
    env.insert_binding("o".to_string(), Kind::OptionOf(Box::new(Kind::Str)), false);
    env.insert_binding("n".to_string(), Kind::Int, true);
    let mut then_env = env.copy();
    apply_narrowing(&mut then_env, &Some(("o".to_string(), NarrowKind::SomeCase)));
    assert_eq!(kind_string(then_env.get("o").unwrap()), "Str");
    assert_eq!(kind_string(then_env.get("n").unwrap()), "Int");
    let mut else_env = env.copy();
    apply_complement(&mut else_env, &Some(("o".to_string(), NarrowKind::NoneCase)));
    assert_eq!(kind_string(else_env.get("o").unwrap()), "Str");
    assert!(else_env.is_mut("n") && !else_env.is_mut("o"));
}

#[test]
fn rebinding_without_mut_clears_mutability() {
    let mut env = Env::new();
    env.insert_binding("x".to_string(), Kind::Int, true);
    assert!(env.is_mut("x"));
    env.insert_binding("x".to_string(), Kind::Str, false);
    assert!(!env.is_mut("x"));
    assert_eq!(kind_string(env.get("x").unwrap()), "Str");
}

#[test]
fn merge_is_a_join() {
    let a = effect_set_from_text("io, mut");
    let b = effect_set_from_text("chan");
    let mut ab = a;
    ab.merge(&b);
    let mut ba = b;
    ba.merge(&a);
    assert_eq!(ab, ba);
    let mut aa = a;
    aa.merge(&a);
    assert_eq!(aa, a);
    assert_eq!(ab, EffectSet { io: true, chan: true, mut_: true, extern_: false });
}

#[test]
fn effects_text_parses_parts_and_none() {
    assert_eq!(effect_set_from_text("  none "), EffectSet::empty());
    assert_eq!(effect_set_from_text(""), EffectSet::empty());
    assert_eq!(effect_set_from_text("extern,io"), EffectSet { io: true, chan: false, mut_: false, extern_: true });
    assert!(is_valid_effects(" mut , io "));
    assert!(!is_valid_effects("io, net"));
    assert_eq!(EffectSet { io: true, chan: true, mut_: true, extern_: true }.labels(), vec!["mut", "io", "chan", "extern"]);
}

#[test]
fn a_set_remembers_what_was_inserted() {
    let mut s = NameSet::new();
    assert!(s.insert("a".to_string()));
    assert!(!s.insert("a".to_string()));
    assert!(s.contains("a") && !s.contains("b"));
    s.remove("a");
    assert!(!s.contains("a"));
}

#[test]
fn a_map_reads_back_the_last_write() {
    let mut m: NameMap<u32> = NameMap::new();
    m.insert("k".to_string(), 1);
    m.insert("k".to_string(), 2);
    assert_eq!(m.get("k"), Some(&2));
    m.remove("k");
    assert_eq!(m.get("k"), None);
}

#[test]
fn open_then_close_leaves_no_document() {
    let mut s = Server::new();
    match s.handle_request(LspRequest::DidOpen { uri: "file:///a.xz".to_string(), text: "func main() {\n    let x: Int = \"s\"\n}".to_string() }) {
        LspReply::Publish { uri, diagnostics } => {
            assert_eq!(uri, "file:///a.xz");
            assert_eq!(diagnostics.len(), 1);
            assert_eq!(diagnostics[0].code, "T0001");
            assert_eq!(diagnostics[0].severity, 1);
        }
        other => panic!("unexpected reply {:?}", other),
    }
    match s.handle_request(LspRequest::DidClose { uri: "file:///a.xz".to_string() }) {
        LspReply::Publish { diagnostics, .. } => assert!(diagnostics.is_empty()),
        other => panic!("unexpected reply {:?}", other),
    }
    assert!(!s.shutdown_received());
    let _ = s.handle_request(LspRequest::Shutdown { id: Some("2".to_string()) });
    assert!(s.shutdown_received() && !s.should_exit());
    let _ = s.handle_request(LspRequest::Exit);
    assert!(s.should_exit());
    match s.handle_request(LspRequest::Other { id: Some("7".to_string()) }) {
        LspReply::MethodNotFound { id } => assert_eq!(id, Some("7".to_string())),
        other => panic!("unexpected reply {:?}", other),
    }
    assert!(matches!(s.handle_request(LspRequest::Other { id: None }), LspReply::Silent));
}

#[test]
fn positions_count_utf16_units() {
    let text = "ab\n\u{1F600}x";
    assert_eq!(to_lsp_position(text, 1, 1), (0, 0));
    assert_eq!(to_lsp_position(text, 2, 2), (1, 2));
    assert_eq!(to_lsp_position(text, 2, 3), (1, 3));
    assert_eq!(to_lsp_position(text, 9, 4), (8, 0));
    assert_eq!(to_lsp_position(text, 0, 0), (0, 0));
}


#[test]
fn blank_and_plain_texts_always_lex() {
    let ts = xz_cli::lexer::lex(" \n\t\r\n".to_string(), "b.xz".to_string()).ok().unwrap();
    assert_eq!(ts.len(), 1);
    assert!(xz_cli::lexer::lex("let x = y + z * (w - v)".to_string(), "p.xz".to_string()).is_ok());
    assert!(xz_cli::lexer::lex("a | b <- c -> d".to_string(), "p.xz".to_string()).is_ok());
    let (ts, cs) = xz_cli::lexer::lex_with_comments("\n\n".to_string(), "b.xz".to_string()).ok().unwrap();
    assert_eq!((ts.len(), cs.len()), (1, 0));
}

#[test]
fn a_blank_file_is_clean_everywhere() {
    let ts = xz_cli::lexer::lex("   \n".to_string(), "b.xz".to_string()).ok().unwrap();
    let p = xz_cli::parser::parse(ts).ok().unwrap();
    assert_eq!(p.items.len(), 0);
    assert!(p.interface_kind.is_none());
    assert!(xz_cli::typecheck::typecheck(&p).is_ok());
    assert!(xz_cli::driver::check("  \n\n", "b.xz", true).is_empty());
    assert_eq!(xz_cli::format::format_source("\n \n", "b.xz"), Ok(String::new()));
    assert!(xz_cli::pkg::verify_interface_source("\n", "b.xzint").is_err());
}

#[test]
fn plain_programs_type_check() {
    let src = "record P {\n    x: Int\n    name: Str\n}\nfunc f(a: Int, b: Str) -> Int {\n    let y: Int = 3\n    let s = \"hi\"\n    let t: Float = 1.5\n    true\n}\ntask t {\n    let k: Bool = false\n}";
    let ts = xz_cli::lexer::lex(src.to_string(), "p.xz".to_string()).ok().unwrap();
    let p = xz_cli::parser::parse(ts).ok().unwrap();
    assert!(xz_cli::typecheck::typecheck(&p).is_ok());
}

#[test]
fn words_and_operators_lex_to_themselves() {
    let ts = xz_cli::lexer::lex("let x_1 = y->z >= w".to_string(), "p.xz".to_string()).ok().unwrap();
    assert_eq!(ts.len(), 9);
    assert!(matches!(ts[0].kind, TokKind::Kw(Keyword::Let)));
    assert_eq!(ts[0].text, "let");
    assert!(matches!(&ts[1].kind, TokKind::Ident(n) if n == "x_1"));
    assert!(matches!(ts[2].kind, TokKind::Punct(Punct::Assign)));
    assert!(matches!(&ts[3].kind, TokKind::Ident(n) if n == "y"));
    assert!(matches!(ts[4].kind, TokKind::Punct(Punct::Arrow)));
    assert!(matches!(&ts[5].kind, TokKind::Ident(n) if n == "z"));
    assert!(matches!(ts[6].kind, TokKind::Punct(Punct::Ge)));
    assert!(matches!(&ts[7].kind, TokKind::Ident(n) if n == "w"));
    assert!(matches!(ts[8].kind, TokKind::Eof));
}

#[test]
fn message_headers_are_read_as_parse_reads_them() {
    let cases = vec![
        ("Content-Length: 42\r\n", HeaderLine::Length(Some(42))),
        ("Content-Length:+7\n", HeaderLine::Length(Some(7))),
        ("Content-Length: abc\r\n", HeaderLine::Length(None)),
        ("Content-Length:\r\n", HeaderLine::Length(None)),
        ("Content-Length: -1\r\n", HeaderLine::Length(None)),
        ("Content-Length: 99999999999999999999999\r\n", HeaderLine::Length(None)),
        ("\r\n", HeaderLine::End),
        ("", HeaderLine::End),
        ("Content-Type: application/vscode-jsonrpc\r\n", HeaderLine::Other),
    ];
    for (line, want) in cases {
        assert_eq!(header_line(line), want, "line {:?}", line);
    }
}
