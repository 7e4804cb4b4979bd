use zeroc::lexer::raw::scan_raw_block;
use zeroc::lexer::{Lexer, TokKind};

fn kinds_of(src: &str) -> Vec<TokKind> {
    let mut lx = Lexer::new(src);
    let mut kinds = Vec::new();
    loop {
        let t = lx.next_token().unwrap();
        let done = t.kind == TokKind::Eof;
        kinds.push(t.kind);
        if done {
            break;
        }
    }
    kinds
}

#[test]
fn tokenizes_keywords_and_literals() {
    assert_eq!(
        kinds_of("fn main() { x = 42 }"),
        vec![
            TokKind::Fn,
            TokKind::Ident("main".into()),
            TokKind::LParen,
            TokKind::RParen,
            TokKind::LBrace,
            TokKind::Ident("x".into()),
            TokKind::Equal,
            TokKind::Int(42),
            TokKind::RBrace,
            TokKind::Eof,
        ]
    );
}

#[test]
fn string_escapes_are_decoded() {
    let mut lx = Lexer::new(r#""a\"b\nc""#);
    let t = lx.next_token().unwrap();
    assert_eq!(t.kind, TokKind::Str("a\"b\nc".into()));
}

fn float_value(k: &TokKind) -> f64 {
    match k {
        TokKind::Float(text) => text.parse::<f64>().unwrap(),
        other => panic!("expected a float, found {other:?}"),
    }
}

#[test]
fn lexes_float_literals() {
    let kinds = kinds_of("3.14 1.0 2.5e2 0.5");
    assert_eq!(kinds.len(), 5);
    assert_eq!(float_value(&kinds[0]), 3.14);
    assert_eq!(float_value(&kinds[1]), 1.0);
    assert_eq!(float_value(&kinds[2]), 250.0);
    assert_eq!(float_value(&kinds[3]), 0.5);
    assert_eq!(kinds[4], TokKind::Eof);
}

#[test]
fn ranges_are_not_floats() {
    let mut lx = Lexer::new("0..5");
    let t1 = lx.next_token().unwrap();
    assert_eq!(t1.kind, TokKind::Int(0));
    let t2 = lx.next_token().unwrap();
    assert_eq!(t2.kind, TokKind::DotDot);
    let t3 = lx.next_token().unwrap();
    assert_eq!(t3.kind, TokKind::Int(5));
}

#[test]
fn lexes_compound_assignment() {
    assert_eq!(
        kinds_of("x += 1\ny -= 2\nz *= 3"),
        vec![
            TokKind::Ident("x".into()),
            TokKind::PlusEq,
            TokKind::Int(1),
            TokKind::Ident("y".into()),
            TokKind::MinusEq,
            TokKind::Int(2),
            TokKind::Ident("z".into()),
            TokKind::StarEq,
            TokKind::Int(3),
            TokKind::Eof,
        ]
    );
}

#[test]
fn lexes_break_continue_null() {
    assert_eq!(
        kinds_of("break continue NULL null"),
        vec![
            TokKind::Break,
            TokKind::Continue,
            TokKind::Null,
            TokKind::Null,
            TokKind::Eof,
        ]
    );
}

#[test]
fn raw_block_ignores_braces_inside_strings() {
    let src = "{ println!(\"}}\"); if x { let y = 1; } }";
    let (text, end) = scan_raw_block(src, 0).unwrap();
    assert_eq!(text, " println!(\"}}\"); if x { let y = 1; } ");
    assert_eq!(&src[end - 1..end], "}");
}

#[test]
fn raw_block_handles_comments_and_lifetimes() {
    let src = "{ // { not a brace\n let r: &'a str = r#\"{\"#; /* } */ }";
    let (text, end) = scan_raw_block(src, 0).unwrap();
    assert!(text.contains("r#\"{\"#"));
    assert_eq!(&src[end - 1..end], "}");
}

#[test]
fn lexer_reports_spans_in_bytes() {
    let mut lx = Lexer::new("é x");
    let t = lx.next_token().unwrap();
    assert_eq!(t.kind, TokKind::Ident("é".into()));
    assert_eq!((t.span.start, t.span.end), (0, 2));
    let t = lx.next_token().unwrap();
    assert_eq!((t.span.start, t.span.end), (3, 4));
}

#[test]
fn lexer_errors() {
    assert!(Lexer::new("a & b").next_token().is_ok());
    let mut lx = Lexer::new("&");
    let err = lx.next_token().unwrap_err();
    assert_eq!(err.message, "unexpected character '&' (use the keyword 'and')");
    let err = Lexer::new("\"abc").next_token().unwrap_err();
    assert_eq!(err.message, "unterminated string literal");
    let err = Lexer::new("\"a\\qb\"").next_token().unwrap_err();
    assert_eq!(err.message, "unknown escape sequence '\\q'");
    let err = Lexer::new("/* open").next_token().unwrap_err();
    assert_eq!(err.message, "unterminated block comment");
    let err = Lexer::new("99999999999999999999").next_token().unwrap_err();
    assert_eq!(err.message, "integer literal is out of range");
    let err = Lexer::new("#").next_token().unwrap_err();
    assert_eq!(err.message, "unexpected character '#'");
    assert_eq!(kinds_of("/* a /* b */ c */ 7"), vec![TokKind::Int(7), TokKind::Eof]);
    assert_eq!(kinds_of("1E-3"), vec![TokKind::Float("1e-3".into()), TokKind::Eof]);
}

#[test]
fn raw_block_errors() {
    let err = scan_raw_block("{ \"abc", 0).unwrap_err();
    assert_eq!(err.message, "unterminated string literal in lowlevel block");
    let err = scan_raw_block("x", 0).unwrap_err();
    assert_eq!(err.message, "internal error: raw block does not start with '{'");
    let err = scan_raw_block("{ { }", 0).unwrap_err();
    assert_eq!(err.message, "unterminated lowlevel block (missing '}')");
    let err = scan_raw_block("{ r#x }", 0).unwrap_err();
    assert_eq!(err.message, "malformed raw string in lowlevel block");
    let (text, end) = scan_raw_block("ab{ 'x' '}' }z", 2).unwrap();
    assert_eq!(text, " 'x' '}' ");
    assert_eq!(end, 13);
}

#[test]
fn only_trivia_is_skipped_before_a_token() {
    let src = "  // note\n /* a /* b */ */\t7 x";
    let mut lx = Lexer::new(src);
    let t = lx.next_token().unwrap();
    assert_eq!(t.kind, TokKind::Int(7));
    assert_eq!(t.span.start, src.find('7').unwrap());
    let t2 = lx.next_token().unwrap();
    assert!(t2.span.start >= t.span.end);
    let end = lx.next_token().unwrap();
    assert_eq!(end.kind, TokKind::Eof);
    assert_eq!((end.span.start, end.span.end), (src.len(), src.len()));
}
