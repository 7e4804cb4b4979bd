use zeroc::diag::CompileError;
use zeroc::parser::parse;
use zeroc::scope::callable::{io_functions, FnInfo, FnTable};
use zeroc::scope::ScopeAnalyzer;

fn functions_of(src: &str) -> FnTable {
    let prog = parse(src, "test.zero").unwrap();
    let mut table = FnTable::new();
    for f in prog.functions() {
        table.insert_if_absent(
            f.name.clone(),
            FnInfo { arity: Some(f.params.len()), params: f.params.iter().map(|p| p.ty).collect() },
        );
    }
    table
}

fn analyze(src: &str, io_imported: bool) -> Result<(), CompileError> {
    let prog = parse(src, "test.zero").unwrap();
    let fns = functions_of(src);
    ScopeAnalyzer::new(&fns, "test.zero", io_imported).analyze_program(&prog)
}

#[test]
fn resolves_variables_across_scopes() {
    analyze("fn main() { x = 1\nscope highlevel { y = x } }", false).unwrap();
}

#[test]
fn rejects_undefined_variable() {
    let err = analyze("fn main() { y = missing }", false).unwrap_err();
    assert!(err.message.contains("undefined variable 'missing'"));
}

#[test]
fn rejects_unknown_function() {
    let err = analyze("fn main() { nope() }", false).unwrap_err();
    assert!(err.message.contains("unknown function 'nope'"));
}

#[test]
fn call_rust_requires_literal_string() {
    let err = analyze("fn main() { code = \"x\"\ncall_rust(code) }", false).unwrap_err();
    assert!(err.message.contains("string literal"));
}

#[test]
fn checks_arity() {
    let err = analyze("fn add(a, b) { return a }\nfn main() { add(1) }", false).unwrap_err();
    assert!(err.message.contains("takes 2 argument(s)"));
}

#[test]
fn io_functions_require_import() {
    let err = analyze("fn main() { print(\"hi\") }", false).unwrap_err();
    assert!(err.message.contains("unknown function 'print'"));
}

#[test]
fn io_functions_work_when_imported() {
    analyze("fn main() { print(\"hi {}\", 1)\ninput_s()\nset_stream(\"shell\") }", true).unwrap();
}

#[test]
fn set_stream_arity() {
    let err = analyze("fn main() { set_stream(\"a\", \"b\", \"c\") }", true).unwrap_err();
    assert!(err.message.contains("optional filename"));
}

#[test]
fn const_cannot_be_reassigned() {
    let err = analyze("fn main() { x = 1<const>\nx = 2 }", false).unwrap_err();
    assert!(err.message.contains("cannot assign to immutable variable 'x'"));
}

#[test]
fn mutable_can_be_reassigned() {
    analyze("fn main() { x = 1\nx = 2 }", false).unwrap();
}

#[test]
fn cannot_redeclare_const_with_marker() {
    let err = analyze("fn main() { x = 1\nx = 2<const> }", false).unwrap_err();
    assert!(err.message.contains("it already exists"));
}

#[test]
fn const_cannot_be_reassigned_from_inner_scope() {
    let err = analyze("fn main() { x = 1<const>\nscope highlevel { x = 2 } }", false).unwrap_err();
    assert!(err.message.contains("cannot assign to immutable variable 'x'"));
}

#[test]
fn inner_scope_updates_outer_mutable() {
    analyze("fn main() { x = 1\nscope highlevel { x = 2 }\nscope highlevel { y = x } }", false)
        .unwrap();
}

#[test]
fn checks_argument_literal_types() {
    let err = analyze("func add(a<int>): { }\nfn main() { add(\"x\") }", false).unwrap_err();
    assert!(err.message.contains("argument 1 of 'add' expects int, found string"));
    analyze("func add(a<int>): { }\nfn main() { x = 5\nadd(1)\nadd(x) }", false).unwrap();
}

#[test]
fn checks_return_literal_types() {
    let err = analyze("func f() -> int: \"abc\"", false).unwrap_err();
    assert!(err.message.contains("returns string, but declared to return int"));
    analyze("func f() -> int: 1\nfunc g() -> string: \"ok\"", false).unwrap();
}

#[test]
fn operator_operands_are_checked() {
    let err = analyze("fn main() { x = a + 1 }", false).unwrap_err();
    assert!(err.message.contains("undefined variable 'a'"));
    analyze("fn main() { x = 1 + 2 * 3\ny = x > 1\nz = !y }", false).unwrap();
}

// Further cases.

#[test]
fn undefined_variable_error_carries_file_and_span() {
    let err = analyze("fn main() { y = missing }", false).unwrap_err();
    assert_eq!(err.file, "test.zero");
    assert!(err.span.is_some());
}

#[test]
fn analyzer_is_reusable_after_an_error() {
    let src = "fn main() { y = missing }";
    let prog = parse(src, "test.zero").unwrap();
    let fns = functions_of(src);
    let mut a = ScopeAnalyzer::new(&fns, "test.zero", false);
    let first = a.analyze_program(&prog).unwrap_err();
    let second = a.analyze_program(&prog).unwrap_err();
    assert_eq!(first.message, second.message);
}

#[test]
fn parameters_are_in_scope() {
    analyze("fn f(a, b) { c = a + b\nreturn c }\nfn main() { f(1, 2) }", false).unwrap();
}

#[test]
fn call_sys_takes_one_argument() {
    analyze("fn main() { call_sys(\"echo hi\") }", false).unwrap();
}

#[test]
fn fn_table_keeps_the_first_entry() {
    let mut t = FnTable::new();
    t.insert_if_absent("f".to_string(), FnInfo { arity: Some(1), params: vec![None] });
    t.insert_if_absent("f".to_string(), FnInfo { arity: Some(3), params: vec![None, None, None] });
    assert!(t.contains("f"));
    assert_eq!(t.get("f").unwrap().arity, Some(1));
    assert!(t.get("g").is_none());
}

#[test]
fn io_function_names_are_listed() {
    assert_eq!(io_functions(), vec!["print", "input_s", "input", "set_stream"]);
}
