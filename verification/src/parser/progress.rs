//! Every grammar rule moves forward through the text, and every error it
//! reports has a message: so the grammar's no-progress guards always hold
//! and its `stalled()` branches are never taken.

use vstd::prelude::*;

use super::spec::{
    after, espan, found, p_arg_list, p_assign, p_binary, p_binloop, p_block, p_block_rest, p_body,
    p_call_args, p_end_stmt, p_expect, p_expect_ident, p_expr, p_function, p_import, p_import_segs,
    p_opt_ret, p_opt_type, p_params, p_peek_binop, p_primary, p_program, p_raw_block, p_stmt,
    p_type_name, p_unary, parse_spec, stalled, tok_at, PErr, PState, Tok,
};
use crate::ast::{ExprV, ParamV, StmtV};
use crate::lexer::raw::{lemma_scan_block_range, scan_raw_spec};
use crate::lexer::{lemma_lex_token, lex_spec, skip_trivia_spec, string_spec, TokView};
use crate::text::{byte_at, byte_len};

verus! {

/// A rule's result from state `st`: on success the state after it lies
/// within the text and not before `st` (strictly after it when `strict`);
/// on failure the message is not empty.
pub open spec fn moves<T>(s: Seq<char>, st: PState, r: Result<(T, PState), PErr>, strict: bool) -> bool {
    match r {
        Ok((_, st1)) => (st.i < st1.i || (!strict && st.i == st1.i)) && st1.i <= s.len(),
        Err(e) => e.0.len() > 0,
    }
}

proof fn lemma_skip_errors(s: Seq<char>, i: int)
    ensures
        skip_trivia_spec(s, i) matches Err((m, _, _)) ==> m.len() > 0,
    decreases s.len() - i,
{
    reveal_strlit("unterminated block comment");
    if 0 <= i < s.len() {
        if crate::text::unicode_whitespace(s[i]) {
            lemma_skip_errors(s, i + 1);
        } else if crate::lexer::raw::pair_at(s, i, '/', '/') {
            crate::lexer::raw::lemma_newline_from_range(s, i + 1);
            lemma_skip_errors(s, crate::lexer::raw::newline_from(s, i + 1));
        } else if crate::lexer::raw::pair_at(s, i, '/', '*') {
            crate::lexer::lemma_comment_close_range(s, i + 2, 1);
            if let Some(j) = crate::lexer::comment_close(s, i + 2, 1) {
                lemma_skip_errors(s, j);
            }
        }
    }
}

proof fn lemma_string_errors(s: Seq<char>, p: int, acc: Seq<char>, st: int)
    ensures
        string_spec(s, p, acc, st) matches Err((m, _, _)) ==> m.len() > 0,
    decreases s.len() - p,
{
    reveal(string_spec);
    reveal_strlit("unterminated string literal");
    reveal_strlit("unknown escape sequence '\\");
    if 0 <= p < s.len() && s[p] != '"' && s[p] != '\n' {
        if s[p] == '\\' {
            if p + 1 < s.len() {
                if let Some(v) = crate::lexer::escape_value(s[p + 1]) {
                    lemma_string_errors(s, p + 2, acc.push(v), st);
                }
            }
        } else {
            lemma_string_errors(s, p + 1, acc.push(s[p]), st);
        }
    }
}

proof fn lemma_lex_errors(s: Seq<char>, i: int)
    ensures
        lex_spec(s, i) matches Err((m, _, _)) ==> m.len() > 0,
{
    reveal(lex_spec);
    lemma_skip_errors(s, i);
    reveal_strlit("unexpected character '&' (use the keyword 'and')");
    reveal_strlit("unexpected character '|' (use the keyword 'or')");
    reveal_strlit("integer literal is out of range");
    reveal_strlit("unexpected character '");
    if let Ok(st) = skip_trivia_spec(s, i) {
        if 0 <= st < s.len() {
            lemma_string_errors(s, st + 1, Seq::empty(), byte_at(s, st) as int);
        }
    }
}

proof fn lemma_tok(s: Seq<char>, i: int)
    requires
        0 <= i <= s.len(),
    ensures
        tok_at(s, i) matches Ok(t) ==> {
            &&& i <= t.next <= s.len()
            &&& (!(t.kind is Eof) ==> i < t.next)
        },
        tok_at(s, i) matches Err(e) ==> e.0.len() > 0,
{
    lemma_lex_token(s, i);
    lemma_lex_errors(s, i);
}

proof fn lemma_found(prefix: Seq<char>, k: TokView)
    ensures
        found(prefix, k).len() > 0,
{
    reveal_strlit(", found ");
}

proof fn lemma_expect(s: Seq<char>, st: PState, want: TokView)
    requires
        0 <= st.i <= s.len(),
    ensures
        moves(s, st, p_expect(s, st, want), !(want is Eof)),
        p_expect(s, st, want) matches Ok((t, st1)) ==> st1.i == t.next && t.kind == want && tok_at(s, st.i)
            == Ok::<Tok, PErr>(t),
{
    lemma_tok(s, st.i);
    if let Ok(t) = tok_at(s, st.i) {
        lemma_found("expected "@ + crate::lexer::token::kind_debug(want), t.kind);
    }
}

proof fn lemma_expect_ident(s: Seq<char>, st: PState, what: Seq<char>)
    requires
        0 <= st.i <= s.len(),
    ensures
        moves(s, st, p_expect_ident(s, st, what), true),
{
    lemma_tok(s, st.i);
    if let Ok(t) = tok_at(s, st.i) {
        lemma_found("expected "@ + what, t.kind);
    }
}

proof fn lemma_end_stmt(s: Seq<char>, st: PState)
    requires
        0 <= st.i <= s.len(),
    ensures
        p_end_stmt(s, st) matches Ok(st1) ==> st.i <= st1.i <= s.len(),
        p_end_stmt(s, st) matches Err(e) ==> e.0.len() > 0,
{
    lemma_tok(s, st.i);
    if let Ok(t) = tok_at(s, st.i) {
        lemma_found("expected ';' or newline"@, t.kind);
    }
}

proof fn lemma_type_name(s: Seq<char>, st: PState)
    requires
        0 <= st.i <= s.len(),
    ensures
        moves(s, st, p_type_name(s, st), true),
{
    lemma_tok(s, st.i);
    reveal_strlit("unknown type '");
    if let Ok(t) = tok_at(s, st.i) {
        lemma_found("expected type name"@, t.kind);
    }
}

proof fn lemma_opt_type(s: Seq<char>, st: PState)
    requires
        0 <= st.i <= s.len(),
    ensures
        moves(s, st, p_opt_type(s, st), false),
{
    lemma_tok(s, st.i);
    if let Ok(t) = tok_at(s, st.i) {
        if t.kind is Lt {
            lemma_type_name(s, after(st, t));
            if let Ok((_, st2)) = p_type_name(s, after(st, t)) {
                lemma_expect(s, st2, TokView::Gt);
            }
        }
    }
}

proof fn lemma_opt_ret(s: Seq<char>, st: PState)
    requires
        0 <= st.i <= s.len(),
    ensures
        moves(s, st, p_opt_ret(s, st), false),
{
    lemma_tok(s, st.i);
    if let Ok(t) = tok_at(s, st.i) {
        if t.kind is Arrow {
            lemma_type_name(s, after(st, t));
        }
    }
}

proof fn lemma_peek(s: Seq<char>, st: PState)
    requires
        0 <= st.i <= s.len(),
    ensures
        p_peek_binop(s, st) matches Ok(Some((_, _, t))) ==> st.i < t.next <= s.len(),
        p_peek_binop(s, st) matches Err(e) ==> e.0.len() > 0,
{
    lemma_tok(s, st.i);
    if let Ok(t) = tok_at(s, st.i) {
        if t.kind is Lt {
            lemma_tok(s, t.next);
        }
    }
}

proof fn lemma_expr(s: Seq<char>, st: PState)
    requires
        0 <= st.i <= s.len(),
    ensures
        moves(s, st, p_expr(s, st), true),
    decreases s.len() - st.i, 4int,
{
    lemma_binary(s, st, 0);
}

proof fn lemma_binary(s: Seq<char>, st: PState, min: nat)
    requires
        0 <= st.i <= s.len(),
    ensures
        moves(s, st, p_binary(s, st, min), true),
    decreases s.len() - st.i, 3int,
{
    lemma_unary(s, st);
    if let Ok((lhs, st1)) = p_unary(s, st) {
        lemma_binloop(s, lhs, st1, min);
    }
}

proof fn lemma_binloop(s: Seq<char>, lhs: ExprV, st: PState, min: nat)
    requires
        0 <= st.i <= s.len(),
    ensures
        moves(s, st, p_binloop(s, lhs, st, min), false),
    decreases s.len() - st.i, 2int,
{
    lemma_peek(s, st);
    if let Ok(Some((op, prec, t))) = p_peek_binop(s, st) {
        if prec >= min {
            lemma_binary(s, after(st, t), prec + 1);
            if let Ok((rhs, st2)) = p_binary(s, after(st, t), prec + 1) {
                let e = ExprV::Binary {
                    op,
                    lhs: Box::new(lhs),
                    rhs: Box::new(rhs),
                    span: crate::diag::Span { start: espan(lhs).start, end: espan(rhs).end },
                };
                lemma_binloop(s, e, st2, min);
            }
        }
    }
}

proof fn lemma_unary(s: Seq<char>, st: PState)
    requires
        0 <= st.i <= s.len(),
    ensures
        moves(s, st, p_unary(s, st), true),
    decreases s.len() - st.i, 1int,
{
    lemma_tok(s, st.i);
    if let Ok(t) = tok_at(s, st.i) {
        if t.kind is Minus || t.kind is Bang {
            lemma_unary(s, after(st, t));
        } else {
            lemma_primary(s, st);
        }
    }
}

proof fn lemma_primary(s: Seq<char>, st: PState)
    requires
        0 <= st.i <= s.len(),
    ensures
        moves(s, st, p_primary(s, st), true),
    decreases s.len() - st.i, 0int,
{
    lemma_tok(s, st.i);
    if let Ok(t) = tok_at(s, st.i) {
        let st1 = after(st, t);
        lemma_found("expected expression"@, t.kind);
        match t.kind {
            TokView::Ident(name) => {
                lemma_tok(s, st1.i);
                if let Ok(t2) = tok_at(s, st1.i) {
                    if t2.kind is LParen {
                        let st2 = after(st1, t2);
                        lemma_call_args(s, st2);
                        if let Ok((args, st3)) = p_call_args(s, st2) {
                            lemma_expect(s, st3, TokView::RParen);
                        }
                    }
                }
            },
            TokView::LParen => {
                lemma_expr(s, st1);
                if let Ok((inner, st2)) = p_expr(s, st1) {
                    lemma_expect(s, st2, TokView::RParen);
                }
            },
            _ => {},
        }
    }
}

proof fn lemma_call_args(s: Seq<char>, st: PState)
    requires
        0 <= st.i <= s.len(),
    ensures
        moves(s, st, p_call_args(s, st), false),
    decreases s.len() - st.i, 6int,
{
    lemma_tok(s, st.i);
    if let Ok(t) = tok_at(s, st.i) {
        if !(t.kind is RParen) {
            lemma_arg_list(s, st, Seq::empty());
        }
    }
}

proof fn lemma_arg_list(s: Seq<char>, st: PState, acc: Seq<ExprV>)
    requires
        0 <= st.i <= s.len(),
    ensures
        moves(s, st, p_arg_list(s, st, acc), true),
    decreases s.len() - st.i, 5int,
{
    lemma_expr(s, st);
    if let Ok((arg, st1)) = p_expr(s, st) {
        lemma_tok(s, st1.i);
        if let Ok(t) = tok_at(s, st1.i) {
            if t.kind is Comma {
                lemma_arg_list(s, after(st1, t), acc.push(arg));
            }
        }
    }
}

proof fn lemma_assign(s: Seq<char>, st: PState)
    requires
        0 <= st.i <= s.len(),
    ensures
        moves(s, st, p_assign(s, st), true),
{
    lemma_expect_ident(s, st, "variable name"@);
    if let Ok(((name, name_span), st1)) = p_expect_ident(s, st, "variable name"@) {
        lemma_expect(s, st1, TokView::Equal);
        if let Ok((_, st2)) = p_expect(s, st1, TokView::Equal) {
            lemma_expr(s, st2);
            if let Ok((value, st3)) = p_expr(s, st2) {
                lemma_tok(s, st3.i);
                lemma_end_stmt(s, st3);
                if let Ok(t) = tok_at(s, st3.i) {
                    if t.kind is Lt {
                        lemma_expect(s, after(st3, t), TokView::Const);
                        if let Ok((_, st4)) = p_expect(s, after(st3, t), TokView::Const) {
                            lemma_expect(s, st4, TokView::Gt);
                            if let Ok((gt, st5)) = p_expect(s, st4, TokView::Gt) {
                                lemma_end_stmt(s, st5);
                            }
                        }
                    }
                }
            }
        }
    }
}

proof fn lemma_raw(s: Seq<char>, st: PState, open: crate::diag::Span, k: int)
    requires
        0 <= k < s.len(),
        s[k] == '{',
        open.start == byte_at(s, k),
        st.i == k + 1,
    ensures
        moves(s, st, p_raw_block(s, st, open), false),
{
    crate::text::lemma_boundary_index(s, k);
    reveal_strlit("internal error: raw block does not start with '{'");
    reveal_strlit("unterminated string literal in lowlevel block");
    reveal_strlit("malformed raw string in lowlevel block");
    reveal_strlit("unterminated raw string in lowlevel block");
    reveal_strlit("unterminated lowlevel block (missing '}')");
    if let Ok(close) = scan_raw_spec(s, k) {
        lemma_scan_block_range(s, k + 1, 1, byte_at(s, k) as int);
        crate::text::lemma_byte_len_take_step(s, close);
        crate::text::lemma_boundary_index(s, close + 1);
        if close + 1 == s.len() {
            assert(s.take(s.len() as int) =~= s);
        }
    }
}

#[verifier::rlimit(60)]
proof fn lemma_stmt(s: Seq<char>, st: PState)
    requires
        byte_len(s) < usize::MAX,
        0 <= st.i <= s.len(),
    ensures
        moves(s, st, p_stmt(s, st), true),
    decreases s.len() - st.i, 7int,
{
    lemma_tok(s, st.i);
    if let Ok(t) = tok_at(s, st.i) {
        if t.kind is Ident {
            lemma_tok(s, t.next);
        }
        lemma_assign(s, st);
        lemma_expr(s, st);
        if let Ok((e, st1)) = p_expr(s, st) {
            lemma_end_stmt(s, st1);
        }
        let st1 = after(st, t);
        if t.kind is Return {
            lemma_tok(s, st1.i);
            lemma_expr(s, st1);
            lemma_end_stmt(s, st1);
            if let Ok((e, st2)) = p_expr(s, st1) {
                lemma_end_stmt(s, st2);
            }
        } else if t.kind is Scope {
            lemma_tok(s, st1.i);
            if let Ok(kt) = tok_at(s, st1.i) {
                let st2 = after(st1, kt);
                lemma_found("expected 'highlevel' or 'lowlevel'"@, kt.kind);
                lemma_expect(s, st2, TokView::LBrace);
                if let Ok((open, st3)) = p_expect(s, st2, TokView::LBrace) {
                    if kt.kind is HighLevel {
                        lemma_block_rest(s, st3, Seq::empty());
                    } else {
                        let k = lemma_lex_token(s, st2.i);
                        crate::text::lemma_byte_at_bounded(s, k);
                        assert(open.span.start == byte_at(s, k));
                        lemma_raw(s, st3, open.span, k);
                    }
                }
            }
        }
    }
}

proof fn lemma_block_rest(s: Seq<char>, st: PState, acc: Seq<StmtV>)
    requires
        byte_len(s) < usize::MAX,
        0 <= st.i <= s.len(),
    ensures
        moves(s, st, p_block_rest(s, st, acc), true),
    decreases s.len() - st.i, 8int,
{
    lemma_tok(s, st.i);
    if let Ok(t) = tok_at(s, st.i) {
        if t.kind is RBrace || t.kind is Eof {
            lemma_expect(s, st, TokView::RBrace);
        } else {
            lemma_stmt(s, st);
            if let Ok((stmt, st1)) = p_stmt(s, st) {
                lemma_block_rest(s, st1, acc.push(stmt));
            }
        }
    }
}

proof fn lemma_block(s: Seq<char>, st: PState)
    requires
        byte_len(s) < usize::MAX,
        0 <= st.i <= s.len(),
    ensures
        moves(s, st, p_block(s, st), true),
{
    lemma_expect(s, st, TokView::LBrace);
    if let Ok((_, st1)) = p_expect(s, st, TokView::LBrace) {
        lemma_block_rest(s, st1, Seq::empty());
    }
}

proof fn lemma_params(s: Seq<char>, st: PState, acc: Seq<ParamV>)
    requires
        0 <= st.i <= s.len(),
    ensures
        moves(s, st, p_params(s, st, acc), true),
    decreases s.len() - st.i,
{
    lemma_expect_ident(s, st, "parameter name"@);
    if let Ok(((name, _), st1)) = p_expect_ident(s, st, "parameter name"@) {
        lemma_opt_type(s, st1);
        if let Ok((ty, st2)) = p_opt_type(s, st1) {
            lemma_tok(s, st2.i);
            if let Ok(t) = tok_at(s, st2.i) {
                if t.kind is Comma {
                    lemma_params(s, after(st2, t), acc.push(ParamV { name, ty }));
                }
            }
        }
    }
}

proof fn lemma_body(s: Seq<char>, st: PState, is_func: bool)
    requires
        byte_len(s) < usize::MAX,
        0 <= st.i <= s.len(),
    ensures
        moves(s, st, p_body(s, st, is_func), true),
{
    if is_func {
        lemma_expect(s, st, TokView::Colon);
        if let Ok((_, st1)) = p_expect(s, st, TokView::Colon) {
            lemma_tok(s, st1.i);
            lemma_block(s, st1);
            lemma_expr(s, st1);
        }
    } else {
        lemma_block(s, st);
    }
}

proof fn lemma_function(s: Seq<char>, st: PState)
    requires
        byte_len(s) < usize::MAX,
        0 <= st.i <= s.len(),
    ensures
        moves(s, st, p_function(s, st), true),
{
    lemma_tok(s, st.i);
    if let Ok(kw) = tok_at(s, st.i) {
        lemma_expect_ident(s, after(st, kw), "function name"@);
        if let Ok(((name, name_span), st1)) = p_expect_ident(s, after(st, kw), "function name"@) {
            lemma_expect(s, st1, TokView::LParen);
            if let Ok((_, st2)) = p_expect(s, st1, TokView::LParen) {
                lemma_tok(s, st2.i);
                lemma_params(s, st2, Seq::empty());
                let params: Result<(Seq<ParamV>, PState), PErr> = match tok_at(s, st2.i) {
                    Err(e) => Err(e),
                    Ok(t) => if t.kind is RParen {
                        Ok((Seq::empty(), st2))
                    } else {
                        p_params(s, st2, Seq::empty())
                    },
                };
                if let Ok((ps, st3)) = params {
                    lemma_expect(s, st3, TokView::RParen);
                    if let Ok((_, st4)) = p_expect(s, st3, TokView::RParen) {
                        lemma_opt_ret(s, st4);
                        if let Ok((ret, st5)) = p_opt_ret(s, st4) {
                            lemma_body(s, st5, kw.kind is Func);
                        }
                    }
                }
            }
        }
    }
}

proof fn lemma_import_segs(s: Seq<char>, st: PState, name: Seq<char>, end: int)
    requires
        0 <= st.i <= s.len(),
    ensures
        p_import_segs(s, st, name, end) matches Ok((_, _, st1)) ==> st.i <= st1.i <= s.len(),
        p_import_segs(s, st, name, end) matches Err(e) ==> e.0.len() > 0,
    decreases s.len() - st.i,
{
    lemma_tok(s, st.i);
    if let Ok(t) = tok_at(s, st.i) {
        if t.kind is Dot {
            let st1 = after(st, t);
            lemma_tok(s, st1.i);
            if let Ok(seg) = tok_at(s, st1.i) {
                lemma_found("expected header name segment"@, seg.kind);
                let st2 = after(st1, seg);
                match seg.kind {
                    TokView::Ident(x) => lemma_import_segs(s, st2, name + seq!['.'] + x, seg.span.end as int),
                    TokView::Int(n) => lemma_import_segs(
                        s,
                        st2,
                        name + seq!['.'] + crate::text::int_text(n as int),
                        seg.span.end as int,
                    ),
                    _ => {},
                }
            }
        }
    }
}

proof fn lemma_import(s: Seq<char>, st: PState)
    requires
        0 <= st.i <= s.len(),
    ensures
        p_import(s, st) matches Ok((_, st1)) ==> st.i < st1.i <= s.len(),
        p_import(s, st) matches Err(e) ==> e.0.len() > 0,
{
    lemma_expect(s, st, TokView::Import);
    if let Ok((kw, st1)) = p_expect(s, st, TokView::Import) {
        lemma_tok(s, st1.i);
        if let Ok(t) = tok_at(s, st1.i) {
            let st2 = after(st1, t);
            lemma_found("expected header name"@, t.kind);
            if let TokView::Ident(first) = t.kind {
                lemma_import_segs(s, st2, first, t.span.end as int);
                if let Ok((_, _, st3)) = p_import_segs(s, st2, first, t.span.end as int) {
                    lemma_tok(s, st3.i);
                }
            } else {
                lemma_tok(s, st2.i);
            }
        }
    }
}

proof fn lemma_program(s: Seq<char>, st: PState, acc: Seq<crate::ast::ItemV>)
    requires
        byte_len(s) < usize::MAX,
        0 <= st.i <= s.len(),
    ensures
        p_program(s, st, acc) matches Err(e) ==> e.0.len() > 0,
    decreases s.len() - st.i,
{
    lemma_tok(s, st.i);
    if let Ok(t) = tok_at(s, st.i) {
        lemma_found("expected 'import', 'fn' or 'func' at top level"@, t.kind);
        if t.kind is Import {
            lemma_import(s, st);
            if let Ok((imp, st1)) = p_import(s, st) {
                lemma_program(s, st1, acc.push(crate::ast::ItemV::Import(imp)));
            }
        } else if t.kind is Fn || t.kind is Func {
            lemma_function(s, st);
            if let Ok((f, st1)) = p_function(s, st) {
                lemma_program(s, st1, acc.push(crate::ast::ItemV::Function(f)));
            }
        }
    }
}

/// Parsing never takes a no-progress branch of the grammar: every rule
/// that succeeds moves forward through the text, so the guards hold, and
/// every error it reports carries a message, unlike `stalled()`.
pub proof fn parsing_never_stalls(s: Seq<char>)
    requires
        byte_len(s) < usize::MAX,
    ensures
        parse_spec(s) matches Err(e) ==> e.0.len() > 0,
        parse_spec(s) != Err::<Seq<crate::ast::ItemV>, PErr>(stalled()),
{
    lemma_program(s, PState { i: 0, le: 0 }, Seq::empty());
}

} // verus!
