use zeroc::ast::Item;
use zeroc::codegen::ready::ready_for_codegen;
use zeroc::codegen::runtime::ZVAL_RUNTIME;
use zeroc::lexer::{Lexer, TokKind};
use zeroc::pipeline::{check_entry, has_top_level};
use zeroc::codegen::emit::escape_rust_string;
use zeroc::codegen::generate;
use zeroc::import::{ImportStep, Loader};
use zeroc::parser::parse;

fn generate_for(src: &str) -> String {
    let prog = parse(src, "test.zero").unwrap();
    let mut loader = Loader::new(".");
    loader.register_main(&prog, "test.zero").unwrap();
    for item in &prog.items {
        if let Item::Import(imp) = item {
            assert_eq!(loader.import_step(imp), ImportStep::Done);
        }
    }
    generate(&prog, &loader, "test.zero")
}

#[test]
fn always_injects_zval_runtime() {
    let out = generate_for("fn main() { call_sys(\"echo hi\") }");
    assert!(out.contains("pub enum ZVal"));
    assert!(out.contains("fn __zero_sys(command: &str) -> i32"));
    assert!(out.contains("fn main() -> ZVal {"));
    assert!(out.contains("return ZVal::Nil;"));
}

#[test]
fn inlines_call_rust() {
    let out = generate_for(r#"fn main() { call_rust("println!(\"hi\");") }"#);
    assert!(out.contains("{ println!(\"hi\"); };"));
}

#[test]
fn variables_declare_then_reassign() {
    let out = generate_for("fn main() { x = 1\nx = 2 }");
    assert!(out.contains("let mut x: ZVal = ZVal::Int(1);"));
    assert!(out.contains("x = ZVal::Int(2);"));
}

#[test]
fn const_emits_immutable_let() {
    let out = generate_for("fn main() { x = 1<const>\nx = 2 }");
    assert!(out.contains("let x: ZVal = ZVal::Int(1);"));
    assert!(!out.contains("let mut x: ZVal"));
}

#[test]
fn function_params_and_return() {
    let out = generate_for("fn add(a, b) { return a }\nfn main() { add(1, 2) }");
    assert!(out.contains("fn add(mut a: ZVal, mut b: ZVal) -> ZVal {"));
    assert!(out.contains("add(ZVal::Int(1), ZVal::Int(2));"));
    assert!(!out.contains(
        "fn add(mut a: ZVal, mut b: ZVal) -> ZVal {\n    return a;\n    return ZVal::Nil;"
    ));
}

#[test]
fn io_functions_emit_std_calls() {
    let out = generate_for(
        "import io\nfn main() { print(\"hi {}\", 1)\ninput_s()\nset_stream(\"file\", \"a.txt\") }",
    );
    assert!(out.contains("print(\"hi {}\", &[ZVal::Int(1)]);"));
    assert!(out.contains("input_s();"));
    assert!(out.contains("set_stream(\"file\", Some(\"a.txt\"));"));
    assert!(out.contains("std/stream.rs"));
    assert!(out.contains("std/stream_io.rs"));
    assert!(out.contains("std/io.rs"));
}

#[test]
fn io_not_imported_keeps_user_fn() {
    let out = generate_for("fn print(a) { return a }\nfn main() { print(1) }");
    assert!(out.contains("fn print(mut a: ZVal) -> ZVal {"));
    assert!(out.contains("print(ZVal::Int(1));"));
}

#[test]
fn scopes_become_rust_blocks() {
    let out = generate_for(
        "fn main() { x = 1\nscope highlevel { x = 2 }\nscope lowlevel { let y = 3; } }",
    );
    assert_eq!(out.matches("let mut x: ZVal =").count(), 1);
    assert!(out.contains("x = ZVal::Int(2);"));
    assert!(out.contains("let y = 3;"));
}

#[test]
fn operators_emit_zval_calls() {
    let out = generate_for("fn main() { x = 1 + 2 * 3\ny = a == b\nz = a and b\nn = -x }");
    assert!(out.contains("let mut x: ZVal = ZVal::Int(1).add(&ZVal::Int(2).mul(&ZVal::Int(3)));"));
    assert!(out.contains("let mut y: ZVal = ZVal::Bool(a.clone() == b.clone());"));
    assert!(out
        .contains("let mut z: ZVal = ZVal::Bool(a.clone().to_bool() && b.clone().to_bool());"));
    assert!(out.contains("let mut n: ZVal = x.clone().neg();"));
}

#[test]
fn func_types_emit_runtime_checks() {
    let out = generate_for("func add(a<int>, b) -> int: a + b\nfn main() { add(1, 2) }");
    assert!(out.contains("fn add(mut a: ZVal, mut b: ZVal) -> ZVal {"));
    assert!(out.contains("__zero_check_type(&a, ZValType::Int);"));
    assert!(out.contains("return __zero_check_type(&a.clone().add(&b.clone()), ZValType::Int);"));
}

#[test]
fn bool_literal_emits_zval() {
    let out = generate_for("fn main() { x = true }");
    assert!(out.contains("let mut x: ZVal = ZVal::Bool(true);"));
}

#[test]
fn escapes_strings() {
    assert_eq!(escape_rust_string("a\"b\\c"), "\"a\\\"b\\\\c\"");
}

#[test]
fn lowlevel_math_works_without_math() {
    let out = generate_for("import lowlevel_math\nfn main() { x = zadd(1, 2) }");
    assert!(out.contains("std/lowlevel_math.rs"));
    assert!(out.contains("pub fn zsub(a: ZVal, b: ZVal) -> ZVal {"));
    assert!(!out.contains("std/math.zh"));
}

// Further cases.

#[test]
fn call_sys_helper_only_when_used() {
    let with = generate_for("fn main() { call_sys(\"ls\") }");
    let without = generate_for("fn main() { x = 1 }");
    assert!(with.contains("__zero_sys(\"ls\")"));
    assert!(!without.contains("fn __zero_sys(command: &str) -> i32"));
}

#[test]
fn escapes_control_characters() {
    assert_eq!(escape_rust_string("a\nb\tc"), "\"a\\nb\\tc\"");
    assert_eq!(escape_rust_string(""), "\"\"");
}

#[test]
fn generation_is_deterministic() {
    let src = "fn add(a, b) { return a }\nfn main() { x = add(1, 2) }";
    assert_eq!(generate_for(src), generate_for(src));
}

#[test]
fn escaped_strings_lex_back() {
    for s in ["plain", "a\"b\\c", "tab\tnew\nline\r\0end", "", "héllo"] {
        let lit = escape_rust_string(s);
        let t = Lexer::new(&lit).next_token().unwrap();
        assert_eq!(t.kind, TokKind::Str(s.to_string()));
        assert_eq!(t.span.end, lit.len());
    }
}

#[test]
fn runtime_follows_the_header_lines() {
    let out = generate_for("fn main() { x = 1 }");
    let head = "#![allow(unused, dead_code, nonstandard_style)]\n// Generated by Zero compiler (zeroc v0.3.0)\n// Source: test.zero\n\n";
    assert!(out.starts_with(head));
    assert!(out[head.len()..].starts_with(ZVAL_RUNTIME));
}

#[test]
fn raw_header_is_inlined_verbatim() {
    let prog = parse("fn main() { helper() }", "test.zero").unwrap();
    let mut loader = Loader::new(".");
    loader.register_main(&prog, "test.zero").unwrap();
    let content = "pub fn helper() -> ZVal {\n    ZVal::Nil\n}\n";
    loader.add_rust_header("extra.rs".to_string(), content.to_string());
    let out = generate(&prog, &loader, "test.zero");
    assert!(out.contains(content));
    assert!(out.contains("// ---- import: extra.rs ----\n"));
}

#[test]
fn readiness_of_programs() {
    let ok = parse("fn main() { call_sys(\"ls\")\nscope highlevel { x = 1 } }", "t.zero").unwrap();
    assert!(ready_for_codegen(&ok, false));
    let bad = parse("fn main() { call_rust() }", "t.zero").unwrap();
    assert!(!ready_for_codegen(&bad, false));
    let print_bare = parse("fn main() { print() }", "t.zero").unwrap();
    assert!(ready_for_codegen(&print_bare, false));
    assert!(!ready_for_codegen(&print_bare, true));
}

#[test]
fn entry_point_checks() {
    let with_main = parse("fn main() { }", "t.zero").unwrap();
    assert!(!has_top_level(&with_main));
    assert!(check_entry(&with_main, "t.zero").is_ok());
    let none = parse("fn helper() { }", "t.zero").unwrap();
    let err = check_entry(&none, "t.zero").unwrap_err();
    assert_eq!(err.message, "no top-level statements or 'fn main' function found");
    assert_eq!(err.file, "t.zero");
    assert!(err.span.is_none());
}

#[test]
fn implicit_nil_return_is_added() {
    let out = generate_for("fn f() { x = 1 }\nfn main() { f() }");
    assert!(out.contains("fn f() -> ZVal {\n    let mut x: ZVal = ZVal::Int(1);\n    return ZVal::Nil;\n}\n"));
    let typed = generate_for("func g() -> int: { x = 1 }\nfn main() { g() }");
    assert!(typed.contains("    return __zero_check_type(&ZVal::Nil, ZValType::Int);\n}\n"));
}
