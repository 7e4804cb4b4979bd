use zeroc::ast::Import;
use zeroc::diag::{line_col, render_error, CompileError, Span};
use zeroc::import::{header_kind, missing_header, unreadable_header, HeaderKind, ImportStep, Loader};
use zeroc::parser::parse;

fn import(name: &str) -> Import {
    Import { name: name.to_string(), span: Span::new(0, 1) }
}

#[test]
fn io_import_loads_its_dependency_chain() {
    let mut l = Loader::new(".");
    assert_eq!(l.import_step(&import("io")), ImportStep::Done);
    assert!(l.io_imported);
    assert_eq!(l.std_set, vec!["io".to_string(), "stream_io".to_string(), "stream".to_string()]);
    let shown: Vec<&str> = l.rust_headers.iter().map(|(d, _)| d.as_str()).collect();
    assert_eq!(shown, vec!["std/stream.rs", "std/stream_io.rs", "std/io.rs"]);
    assert!(l.functions.contains("print"));
    assert!(l.functions.contains("set_stream"));
}

#[test]
fn loading_a_standard_header_twice_adds_nothing() {
    let mut l = Loader::new(".");
    l.load_std("io");
    let n = l.rust_headers.len();
    l.load_std("io");
    l.load_std("stream");
    assert_eq!(l.rust_headers.len(), n);
}

#[test]
fn control_and_builtin_aliases() {
    let mut l = Loader::new(".");
    assert_eq!(l.import_step(&import("control")), ImportStep::Done);
    assert!(l.rust_headers.is_empty());
    assert_eq!(l.import_step(&import("fs")), ImportStep::Done);
    assert_eq!(l.import_step(&import("fs")), ImportStep::Done);
    assert_eq!(l.builtins, vec!["fs".to_string()]);
    assert_eq!(l.import_step(&import("helpers")), ImportStep::File);
    assert_eq!(l.import_step(&import("stdio")), ImportStep::Done);
    assert_eq!(l.builtins, vec!["fs".to_string(), "stdio".to_string()]);
    assert_eq!(zeroc::import::stdlib::builtin_use("stdio"), Some("use std::io;"));
    assert_eq!(zeroc::import::stdlib::builtin_use("collections"), Some("use std::collections;"));
    assert_eq!(zeroc::import::stdlib::builtin_use("nope"), None);
}

#[test]
fn files_are_marked_once() {
    let mut l = Loader::new("/tmp");
    assert_eq!(l.root_dir(), "/tmp");
    assert!(l.mark_imported("/tmp/a.zh"));
    assert!(!l.mark_imported("/tmp/a.zh"));
    assert!(l.mark_imported("/tmp/b.zh"));
}

#[test]
fn rust_header_functions_become_callable() {
    let mut l = Loader::new(".");
    l.add_rust_header(
        "extra.rs".to_string(),
        "pub fn helper(a: i32) {}\nfn  other() {}\nlet afn_x = 1;".to_string(),
    );
    assert!(l.functions.contains("helper"));
    assert!(l.functions.contains("other"));
    assert!(!l.functions.contains("afn_x"));
    assert!(!l.functions.contains("x"));
    assert_eq!(l.functions.get("helper").unwrap().arity, None);
}

#[test]
fn zero_header_registers_all_but_main() {
    let mut l = Loader::new(".");
    let k = l.add_zero_header("lib.zh".to_string(), "fn twice(x) { return x }\nfn main() { }").unwrap();
    assert_eq!(k, 0);
    assert!(l.functions.contains("twice"));
    assert!(!l.functions.contains("main"));
    assert_eq!(l.zero_headers.len(), 1);
}

#[test]
fn zero_header_parse_errors_name_the_header() {
    let mut l = Loader::new(".");
    let err = l.add_zero_header("bad.zh".to_string(), "fn (").unwrap_err();
    assert_eq!(err.file, "bad.zh");
}

#[test]
fn duplicate_function_is_rejected() {
    let prog = parse("fn f() { }\nfn f() { }\nfn main() { }", "test.zero").unwrap();
    let mut l = Loader::new(".");
    let err = l.register_main(&prog, "test.zero").unwrap_err();
    assert!(err.message.contains("'f'"));
}

#[test]
fn header_kinds_by_extension() {
    let sp = Span::new(3, 5);
    assert_eq!(header_kind("rs", "m.zero", sp).unwrap(), HeaderKind::Rust);
    assert_eq!(header_kind("ZH", "m.zero", sp).unwrap(), HeaderKind::Zero);
    assert_eq!(header_kind("zero", "m.zero", sp).unwrap(), HeaderKind::Zero);
    let err = header_kind("TXT", "m.zero", sp).unwrap_err();
    assert_eq!(err.message, "unsupported header extension '.txt'");
    assert_eq!(err.file, "m.zero");
}

#[test]
fn header_error_messages() {
    let sp = Span::new(0, 4);
    let e = missing_header("util", &vec!["a/util.zh".to_string(), "a/util.rs".to_string()], "m.zero", sp);
    assert_eq!(e.message, "cannot find header 'util' (searched: a/util.zh, a/util.rs)");
    let e = unreadable_header("a.rs", "denied", "m.zero", sp);
    assert_eq!(e.message, "cannot read header 'a.rs': denied");
}

#[test]
fn line_and_column_of_offsets() {
    assert_eq!(line_col("ab\ncd", 0), (1, 1));
    assert_eq!(line_col("ab\ncd", 4), (2, 2));
    assert_eq!(line_col("ab\ncd", 100), (2, 3));
    assert_eq!(line_col("é\nx", 3), (2, 1));
}

#[test]
fn renders_error_with_caret() {
    let err = CompileError::at("boom", "m.zero", Span::new(4, 5));
    assert_eq!(render_error(&err, "ab\ncd"), "error: boom\n  --> m.zero:2:2\n   | cd\n   |  ^");
    let plain = CompileError::new("plain", "m.zero");
    assert_eq!(render_error(&plain, "x"), "error: plain");
}

#[test]
fn raw_header_keeps_known_functions() {
    let prog = parse("fn helper(a, b) { return a }\nfn main() { }", "test.zero").unwrap();
    let mut l = Loader::new(".");
    l.register_main(&prog, "test.zero").unwrap();
    l.add_rust_header("x.rs".to_string(), "fn helper() {}\nfn fresh() {}".to_string());
    assert_eq!(l.functions.get("helper").unwrap().arity, Some(2));
    assert_eq!(l.functions.get("fresh").unwrap().arity, None);
}

#[test]
fn imports_are_listed_in_order() {
    let prog = parse("import io\nfn main() { }\nimport \"extra.rs\"", "t.zero").unwrap();
    let names: Vec<String> = zeroc::pipeline::imports_of(&prog).into_iter().map(|i| i.name).collect();
    assert_eq!(names, vec!["io".to_string(), "extra.rs".to_string()]);
}

#[test]
fn header_candidates_in_order() {
    use_candidates();
}

fn use_candidates() {
    let plain = zeroc::import::paths::candidates("helpers");
    assert_eq!(plain, vec!["helpers", "helpers.zh", "helpers.zero", "helpers.rs"]);
    let with_ext = zeroc::import::paths::candidates("extra.rs");
    assert_eq!(with_ext, vec!["extra.rs"]);
    let nested = zeroc::import::paths::candidates("headers/helpers");
    assert_eq!(nested.len(), 4);
    assert_eq!(zeroc::import::paths::candidate_names("x", true), vec!["x"]);
    assert_eq!(zeroc::import::paths::candidates(".hidden").len(), 4);
    assert_eq!(zeroc::import::paths::candidates("v1.0"), vec!["v1.0"]);
}

#[test]
fn duplicate_registration_leaves_table() {
    let prog = parse("fn a() { }\nfn b() { }\nfn a() { }\nfn c() { }", "t.zero").unwrap();
    let mut l = Loader::new(".");
    assert!(l.register_main(&prog, "t.zero").is_err());
    assert!(l.functions.contains("a"));
    assert!(l.functions.contains("b"));
    assert!(!l.functions.contains("c"));
}

#[test]
fn lexer_position_after_errors() {
    use_lexer_positions();
}

fn use_lexer_positions() {
    let mut lx = zeroc::lexer::Lexer::new("& x");
    let e1 = lx.next_token().unwrap_err();
    let e2 = lx.next_token().unwrap_err();
    assert_eq!(e1.message, "unexpected character '&' (use the keyword 'and')");
    assert_eq!(e1.span, e2.span);
    assert_eq!(lx.position(), 0);
    let mut lx = zeroc::lexer::Lexer::new("\"ab\ncd");
    let e = lx.next_token().unwrap_err();
    assert_eq!(lx.position(), e.span.unwrap().end);
}
