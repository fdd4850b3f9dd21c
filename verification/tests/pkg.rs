use xz_cli::pkg;

#[test]
fn pkg_add_builds_registry_url() {
    assert_eq!(
        pkg::interface_url("https://xz.example/interfaces/", "libcurl"),
        "https://xz.example/interfaces/libcurl.xzint"
    );
    assert_eq!(pkg::interface_file("libcurl"), "libcurl.xzint");
    assert_eq!(
        pkg::choose_registry_base(Some("https://xz.example/"), None).unwrap(),
        "https://xz.example"
    );
}

#[test]
fn pkg_add_rejects_unsafe_names() {
    assert!(pkg::validate_name("libcurl").is_ok());
    assert!(pkg::validate_name("libcurl-8").is_ok());
    assert!(pkg::validate_name("../evil").is_err());
    assert!(pkg::validate_name("a/b").is_err());
    assert!(pkg::validate_name("-rf").is_err());
    assert!(pkg::validate_name(".hidden").is_err());
    assert!(pkg::validate_name("").is_err());
}

#[test]
fn pkg_add_verifies_fetched_interface() {
    let src = "@interface foreign\nextern func puts(s: Str) -> Int\n";
    assert!(pkg::verify_interface_source(src, "libc.xzint").is_ok());
    let with_body = "@interface foreign\nextern func puts(s: Str) -> Int\nfunc helper() -> Int {\n    1\n}\n";
    let err = match pkg::verify_interface_source(with_body, "libc.xzint") {
        Ok(_) => panic!("a function body must be rejected"),
        Err(e) => e,
    };
    assert!(err.contains("'helper'"), "unexpected error: {}", err);

    let plain = "@interface foreign\nrecord Buffer {\n    ptr: Ptr\n}\n";
    let err = match pkg::verify_interface_source(plain, "libx.xzint") {
        Ok(_) => panic!("a plain record must be rejected"),
        Err(e) => e,
    };
    assert!(err.contains("'Buffer'"), "unexpected error: {}", err);
}

#[test]
fn fetching_tries_curl_then_wget() {
    let (prog, args) = pkg::fetcher_command(pkg::Fetcher::Curl, "https://r.example/a.xzint");
    assert_eq!(prog, "curl");
    assert_eq!(args, vec!["-fsSL", "--", "https://r.example/a.xzint"]);
    let (prog, args) = pkg::fetcher_command(pkg::Fetcher::Wget, "https://r.example/a.xzint");
    assert_eq!(prog, "wget");
    assert_eq!(args, vec!["-qO-", "https://r.example/a.xzint"]);
    let url = "https://r.example/a.xzint";
    assert!(matches!(
        pkg::fetch_next(url, pkg::Fetcher::Curl, pkg::FetchRun::Missing),
        pkg::FetchStep::Run(pkg::Fetcher::Wget)
    ));
    match pkg::fetch_next(url, pkg::Fetcher::Wget, pkg::FetchRun::Missing) {
        pkg::FetchStep::Done(Err(m)) => {
            assert_eq!(m, "no fetcher available: install 'curl' or 'wget' to fetch https://r.example/a.xzint")
        }
        _ => panic!("expected the no-fetcher error"),
    }
}

#[test]
fn fetch_outcomes_become_results() {
    let url = "u";
    match pkg::fetch_next(url, pkg::Fetcher::Curl, pkg::FetchRun::Fetched(Some("body".to_string()))) {
        pkg::FetchStep::Done(Ok(b)) => assert_eq!(b, "body"),
        _ => panic!("expected the body"),
    }
    match pkg::fetch_next(url, pkg::Fetcher::Wget, pkg::FetchRun::Fetched(None)) {
        pkg::FetchStep::Done(Err(m)) => assert_eq!(m, "the fetched interface is not valid UTF-8"),
        _ => panic!("expected the UTF-8 error"),
    }
    match pkg::fetch_next(url, pkg::Fetcher::Curl, pkg::FetchRun::Failed("  curl: (22) 404\n".to_string())) {
        pkg::FetchStep::Done(Err(m)) => assert_eq!(m, "curl failed to fetch: curl: (22) 404"),
        _ => panic!("expected the failure"),
    }
    match pkg::fetch_next(url, pkg::Fetcher::Wget, pkg::FetchRun::Failed(" \n".to_string())) {
        pkg::FetchStep::Done(Err(m)) => assert_eq!(m, "wget failed to fetch"),
        _ => panic!("expected the failure"),
    }
}

fn parse_interface(src: &str) -> xz_cli::ast::Program {
    let tokens = match xz_cli::lexer::lex(src.to_string(), "lib.xzint".to_string()) {
        Ok(t) => t,
        Err(e) => panic!("lex error: {}", e.message),
    };
    match xz_cli::parser::parse(tokens) {
        Ok(p) => p,
        Err(e) => panic!("parse error: {}", e.message),
    }
}

#[test]
fn pkg_gen_rejects_function_bodies() {
    let program = parse_interface(
        r#"@interface foreign
extern func puts(s: Str) -> Int
func helper() -> Int {
    1
}
"#,
    );
    let err = pkg::check_python_bindable(&program).unwrap_err();
    assert!(err.contains("func 'helper'"), "unexpected error: {}", err);
}

#[test]
fn pkg_gen_rejects_plain_record() {
    let program = parse_interface(
        r#"@interface foreign
record Buffer {
    ptr: Ptr
}
"#,
    );
    let err = pkg::check_python_bindable(&program).unwrap_err();
    assert!(err.contains("record 'Buffer'"), "unexpected error: {}", err);
}

#[test]
fn pkg_gen_rejects_transfer_param() {
    let program = parse_interface("@interface foreign\nextern func write(transfer frame: Bytes) -> Int\n");
    let err = pkg::check_python_bindable(&program).unwrap_err();
    assert!(err.contains("'transfer'"), "unexpected error: {}", err);
    assert!(err.contains("frame"), "error should name the parameter: {}", err);
}

#[test]
fn pkg_gen_rejects_transfer_return() {
    let program = parse_interface("@interface foreign\nextern func read(path: Str) -> transfer Str\n");
    let err = pkg::check_python_bindable(&program).unwrap_err();
    assert!(err.contains("'transfer'"), "unexpected error: {}", err);
    assert!(err.contains("return"), "error should name the return: {}", err);
}

#[test]
fn pkg_gen_requires_an_interface_kind_marker() {
    let program = parse_interface("extern func noop()\n");
    let err = pkg::check_python_bindable(&program).unwrap_err();
    assert!(err.contains("@interface export"), "unexpected error: {}", err);
}

#[test]
fn pkg_gen_rejects_transfer_on_an_export_interface() {
    let program = parse_interface("@interface export\nextern func write(transfer frame: Bytes) -> Int\n");
    let err = pkg::check_python_bindable(&program).unwrap_err();
    assert!(err.contains("frame"), "error should name the parameter: {}", err);
    assert!(err.contains("@export"), "unexpected error: {}", err);
}

#[test]
fn plain_foreign_interface_is_bindable() {
    let program = parse_interface("@interface foreign\nextern func puts(s: Str) -> Int\n");
    assert!(pkg::check_python_bindable(&program).is_ok());
}

#[test]
fn a_bare_interface_marker_verifies_with_no_declarations() {
    let p = pkg::verify_interface_source("@interface foreign\n", "empty.xzint").unwrap();
    assert_eq!(p.items.len(), 0);
    let p = pkg::verify_interface_source("  @interface   export  ", "empty.xzint").unwrap();
    assert_eq!(p.items.len(), 0);
}
