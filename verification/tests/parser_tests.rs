use zeroc::ast::{BinOp, Block, Expr, Item, ScopeKind, Stmt, UnOp, ZType};
use zeroc::parser::parse;

#[test]
fn parses_a_minimal_program() {
    let prog = parse("import stdio\nfn main() { call_sys(\"echo hi\") }", "test.zero").unwrap();
    assert!(prog.has_main());
    assert_eq!(prog.items.len(), 2);
}

#[test]
fn parses_function_parameters() {
    let prog = parse("fn add(a, b) { return a } fn main() {}", "test.zero").unwrap();
    let Item::Function(f) = &prog.items[0] else {
        panic!("expected function");
    };
    assert_eq!(f.params.len(), 2);
    assert_eq!(f.params[0].name, "a");
    assert_eq!(f.params[1].name, "b");
    assert!(f.params.iter().all(|p| p.ty.is_none()));
}

#[test]
fn parses_func_with_types() {
    let prog = parse("func add(a<int>, b) -> int: a + b\nfunc main(): { }", "test.zero").unwrap();
    let Item::Function(f) = &prog.items[0] else {
        panic!("expected function");
    };
    assert_eq!(f.params[0].name, "a");
    assert_eq!(f.params[0].ty, Some(ZType::Int));
    assert_eq!(f.params[1].ty, None);
    assert_eq!(f.ret, Some(ZType::Int));
    let Block::Stmts(stmts) = &f.body else {
        panic!("expected stmts");
    };
    assert!(matches!(&stmts[0], Stmt::Return { value: Some(..) }));
}

#[test]
fn any_type_normalised_to_dynamic() {
    let prog = parse("func f(a<any>, b) -> any: a", "test.zero").unwrap();
    let Item::Function(f) = &prog.items[0] else {
        panic!("expected function");
    };
    assert!(f.params[0].ty.is_none());
    assert!(f.params[1].ty.is_none());
    assert!(f.ret.is_none());
}

#[test]
fn rejects_unknown_type() {
    let err = parse("func f(x<floats>): { }", "test.zero").unwrap_err();
    assert!(err.message.contains("unknown type 'floats'"));
}

#[test]
fn parses_variable_assignment() {
    let prog = parse("fn main() { x = 1\ny = \"hi\" }", "test.zero").unwrap();
    let Item::Function(f) = &prog.items[0] else {
        panic!("expected function");
    };
    let Block::Stmts(stmts) = &f.body else {
        panic!("expected stmts");
    };
    assert!(matches!(&stmts[0], Stmt::Assign { name, .. } if name == "x"));
    assert!(matches!(&stmts[1], Stmt::Assign { name, .. } if name == "y"));
}

#[test]
fn parses_const_marker() {
    let prog = parse("fn main() { pi = 3<const> }", "test.zero").unwrap();
    let Item::Function(f) = &prog.items[0] else {
        panic!("expected function");
    };
    let Block::Stmts(stmts) = &f.body else {
        panic!("expected stmts");
    };
    let Stmt::Assign { name, is_const, .. } = &stmts[0] else {
        panic!("expected assign");
    };
    assert_eq!(name, "pi");
    assert!(is_const);
}

#[test]
fn parses_lowlevel_raw_block() {
    let prog = parse(
        "fn main() { scope lowlevel { let x = 1; println!(\"{{}}\", x); } }",
        "test.zero",
    )
    .unwrap();
    let Item::Function(f) = &prog.items[0] else {
        panic!("expected function");
    };
    let Block::Stmts(stmts) = &f.body else {
        panic!("expected stmts");
    };
    let Stmt::Scope { kind, block, .. } = &stmts[0] else {
        panic!("expected scope");
    };
    assert_eq!(*kind, ScopeKind::LowLevel);
    let Block::Raw(text) = block else {
        panic!("expected raw");
    };
    assert!(text.contains("println!"));
}

#[test]
fn parses_operator_precedence() {
    let prog = parse("fn main() { x = 1 + 2 * 3 }", "test.zero").unwrap();
    let Item::Function(f) = &prog.items[0] else {
        panic!("expected function");
    };
    let Block::Stmts(stmts) = &f.body else {
        panic!("expected stmts");
    };
    let Stmt::Assign { value, .. } = &stmts[0] else {
        panic!("expected assign");
    };
    let Expr::Binary { op, lhs, rhs, .. } = value else {
        panic!("expected binary");
    };
    assert_eq!(*op, BinOp::Add);
    assert!(matches!(&**lhs, Expr::Int(1, _)));
    assert!(matches!(
        &**rhs,
        Expr::Binary { op: mop, .. } if *mop == BinOp::Mul
    ));
}

#[test]
fn parses_parens_and_unary() {
    let prog = parse("fn main() { x = (1 + 2) * -3\ny = !flag }", "test.zero").unwrap();
    let Item::Function(f) = &prog.items[0] else {
        panic!("expected function");
    };
    let Block::Stmts(stmts) = &f.body else {
        panic!("expected stmts");
    };
    let Stmt::Assign { value, .. } = &stmts[0] else {
        panic!("expected assign");
    };
    let Expr::Binary { op, lhs, .. } = value else {
        panic!("expected binary");
    };
    assert_eq!(*op, BinOp::Mul);
    let Expr::Binary { op: aop, .. } = &**lhs else {
        panic!("expected inner add");
    };
    assert_eq!(*aop, BinOp::Add);
    let Stmt::Assign { value: v2, .. } = &stmts[1] else {
        panic!("expected assign 2");
    };
    let Expr::Unary { op: uop, .. } = v2 else {
        panic!("expected unary");
    };
    assert_eq!(*uop, UnOp::Not);
}

#[test]
fn const_marker_not_a_comparison() {
    let prog = parse("fn main() { x = 1<const> }", "test.zero").unwrap();
    let Item::Function(f) = &prog.items[0] else {
        panic!("expected function");
    };
    let Block::Stmts(stmts) = &f.body else {
        panic!("expected stmts");
    };
    let Stmt::Assign { value, is_const, .. } = &stmts[0] else {
        panic!("expected assign");
    };
    assert!(*is_const);
    assert!(matches!(value, Expr::Int(1, _)));
}

#[test]
fn comparison_inside_expression() {
    let prog = parse("fn main() { x = a < b }", "test.zero").unwrap();
    let Item::Function(f) = &prog.items[0] else {
        panic!("expected function");
    };
    let Block::Stmts(stmts) = &f.body else {
        panic!("expected stmts");
    };
    let Stmt::Assign { value, is_const, .. } = &stmts[0] else {
        panic!("expected assign");
    };
    assert!(!is_const);
    let Expr::Binary { op, .. } = value else {
        panic!("expected comparison");
    };
    assert_eq!(*op, BinOp::Lt);
}

#[test]
fn parses_bool_literals() {
    let prog = parse("fn main() { t = true\nf = false }", "test.zero").unwrap();
    let Item::Function(f) = &prog.items[0] else {
        panic!("expected function");
    };
    let Block::Stmts(stmts) = &f.body else {
        panic!("expected stmts");
    };
    let Stmt::Assign { value, .. } = &stmts[0] else {
        panic!("expected assign");
    };
    assert!(matches!(value, Expr::Bool(true, _)));
    let Stmt::Assign { value: v2, .. } = &stmts[1] else {
        panic!("expected assign 2");
    };
    assert!(matches!(v2, Expr::Bool(false, _)));
}

#[test]
fn rejects_stray_top_level_statement() {
    let err = parse("call_sys(\"x\")", "test.zero").unwrap_err();
    assert!(err.message.contains("expected 'import', 'fn' or 'func'"));
}

// ---- further cases ----

#[test]
fn statements_need_a_terminator_on_one_line() {
    let err = parse("fn main() { x = 1 y = 2 }", "test.zero").unwrap_err();
    assert_eq!(err.message, "expected ';' or newline, found Ident(\"y\")");
    assert_eq!(err.file, "test.zero");
    let span = err.span.unwrap();
    assert_eq!((span.start, span.end), (18, 19));
    parse("fn main() { x = 1; y = 2 }", "test.zero").unwrap();
    parse("fn main() { x = 1\ny = 2 }", "test.zero").unwrap();
}

#[test]
fn expect_reports_the_token_found() {
    let err = parse("fn main( { }", "f.zero").unwrap_err();
    assert_eq!(err.message, "expected parameter name, found LBrace");
    let err = parse("fn main() }", "f.zero").unwrap_err();
    assert_eq!(err.message, "expected LBrace, found RBrace");
}

#[test]
fn lexer_errors_carry_the_parser_file() {
    let err = parse("fn main() { x = \"open }", "prog.zero").unwrap_err();
    assert_eq!(err.message, "unterminated string literal");
    assert_eq!(err.file, "prog.zero");
}

#[test]
fn imports_with_dotted_names() {
    let prog = parse("import std.io\nimport v1.0;\nimport \"extra.rs\"\nfn main() {}", "t.zero").unwrap();
    let names: Vec<String> = prog
        .items
        .iter()
        .filter_map(|i| match i {
            Item::Import(imp) => Some(imp.name.clone()),
            _ => None,
        })
        .collect();
    assert_eq!(names, vec!["std.io".to_string(), "v1.0".to_string(), "extra.rs".to_string()]);
    let Item::Import(second) = &prog.items[1] else {
        panic!("expected import");
    };
    assert_eq!((second.span.start, second.span.end), (14, 26));
}

#[test]
fn calls_and_scopes() {
    let prog = parse(
        "fn main() { f(1, \"a\", g())\nscope highlevel { y = 2 }\nreturn }",
        "t.zero",
    )
    .unwrap();
    let Item::Function(f) = &prog.items[0] else {
        panic!("expected function");
    };
    let Block::Stmts(stmts) = &f.body else {
        panic!("expected stmts");
    };
    let Stmt::Expr(Expr::Call { callee, args, span }) = &stmts[0] else {
        panic!("expected call");
    };
    assert_eq!(callee, "f");
    assert_eq!(args.len(), 3);
    assert_eq!((span.start, span.end), (12, 26));
    assert!(matches!(&stmts[1], Stmt::Scope { kind: ScopeKind::HighLevel, .. }));
    assert!(matches!(&stmts[2], Stmt::Return { value: None }));
    assert_eq!(prog.functions().len(), 1);
}

#[test]
fn unclosed_block_is_an_error() {
    let err = parse("fn main() { x = 1", "t.zero").unwrap_err();
    assert_eq!(err.message, "expected RBrace, found Eof");
}
