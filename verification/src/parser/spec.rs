//! The grammar of the Zero language as a function from source text to a
//! program: recursive descent over the token stream that `lex_spec`
//! defines, one token of lookahead (two where the grammar needs them).
//!
//! Every function takes the parser state (the character index of the next
//! token and the byte offset where the last consumed token ended) and
//! gives the parsed value with the state after it, or the error. The
//! guards `.i > ...` only make termination evident; they always hold.

use vstd::prelude::*;

use crate::ast::{BinOp, BlockV, ExprV, ParamV, ScopeKind, StmtV, UnOp, ZType, ztype_of_name};
use crate::diag::{line_col_spec, Span};
use crate::lexer::raw::{raw_error_text, scan_raw_spec};
use crate::lexer::token::kind_debug;
use crate::lexer::{lex_spec, TokView};
use crate::text::{boundary_index, byte_at, byte_len, int_text};

verus! {

/// A parse error: message and span (the file is the parser's).
pub type PErr = (Seq<char>, Span);

/// Parser state: character index of the next token, and the byte offset
/// just past the last consumed token.
pub struct PState {
    pub i: int,
    pub le: int,
}

/// A token as the parser sees it: kind, byte span, and the character index
/// after it.
pub struct Tok {
    pub kind: TokView,
    pub span: Span,
    pub next: int,
}

pub open spec fn tok_at(s: Seq<char>, i: int) -> Result<Tok, PErr> {
    match lex_spec(s, i) {
        Ok((k, a, b, j)) => Ok(Tok { kind: k, span: Span { start: a as usize, end: b as usize }, next: j }),
        Err((m, a, b)) => Err((m, Span { start: a as usize, end: b as usize })),
    }
}

/// The state after consuming token `t`.
pub open spec fn after(st: PState, t: Tok) -> PState {
    PState {
        i: t.next,
        le: if t.kind is Eof {
            st.le
        } else {
            t.span.end as int
        },
    }
}

/// Placeholder error for branches that cannot happen (no progress made);
/// `progress::parsing_never_stalls` shows they are never taken.
pub open spec fn stalled() -> PErr {
    (Seq::empty(), Span { start: 0, end: 0 })
}

pub open spec fn found(prefix: Seq<char>, k: TokView) -> Seq<char> {
    prefix + ", found "@ + kind_debug(k)
}

pub open spec fn p_expect(s: Seq<char>, st: PState, want: TokView) -> Result<(Tok, PState), PErr> {
    match tok_at(s, st.i) {
        Err(e) => Err(e),
        Ok(t) => if t.kind == want {
            Ok((t, after(st, t)))
        } else {
            Err((found("expected "@ + kind_debug(want), t.kind), t.span))
        },
    }
}

pub open spec fn p_expect_ident(s: Seq<char>, st: PState, what: Seq<char>) -> Result<
    ((Seq<char>, Span), PState),
    PErr,
> {
    match tok_at(s, st.i) {
        Err(e) => Err(e),
        Ok(t) => match t.kind {
            TokView::Ident(name) => Ok(((name, t.span), after(st, t))),
            _ => Err((found("expected "@ + what, t.kind), t.span)),
        },
    }
}

/// Whether the next token has kind `k`.
pub open spec fn p_at(s: Seq<char>, st: PState, k: TokView) -> Result<bool, PErr> {
    match tok_at(s, st.i) {
        Err(e) => Err(e),
        Ok(t) => Ok(t.kind == k),
    }
}

/// A statement terminator: `;`, a newline, or nothing before `}` / EOF.
pub open spec fn p_end_stmt(s: Seq<char>, st: PState) -> Result<PState, PErr> {
    match tok_at(s, st.i) {
        Err(e) => Err(e),
        Ok(t) => if t.kind is Semi {
            Ok(after(st, t))
        } else if t.kind is RBrace || t.kind is Eof {
            Ok(st)
        } else if line_col_spec(s, t.span.start as int).0 > line_col_spec(s, st.le).0 {
            Ok(st)
        } else {
            Err((found("expected ';' or newline"@, t.kind), t.span))
        },
    }
}

pub open spec fn p_type_name(s: Seq<char>, st: PState) -> Result<(Option<ZType>, PState), PErr> {
    match tok_at(s, st.i) {
        Err(e) => Err(e),
        Ok(t) => match t.kind {
            TokView::Ident(name) => if name == "any"@ {
                Ok((None, after(st, t)))
            } else {
                match ztype_of_name(name) {
                    Some(ty) => Ok((Some(ty), after(st, t))),
                    None => Err(
                        (
                            "unknown type '"@ + name + "' (expected int, string, bool or any)"@,
                            t.span,
                        ),
                    ),
                }
            },
            _ => Err((found("expected type name"@, t.kind), t.span)),
        },
    }
}

/// Optional parameter type: `x<int>`.
pub open spec fn p_opt_type(s: Seq<char>, st: PState) -> Result<(Option<ZType>, PState), PErr> {
    match tok_at(s, st.i) {
        Err(e) => Err(e),
        Ok(t) => if t.kind is Lt {
            match p_type_name(s, after(st, t)) {
                Err(e) => Err(e),
                Ok((ty, st2)) => match p_expect(s, st2, TokView::Gt) {
                    Err(e) => Err(e),
                    Ok((_, st3)) => Ok((ty, st3)),
                },
            }
        } else {
            Ok((None, st))
        },
    }
}

/// Optional return type: `-> int`.
pub open spec fn p_opt_ret(s: Seq<char>, st: PState) -> Result<(Option<ZType>, PState), PErr> {
    match tok_at(s, st.i) {
        Err(e) => Err(e),
        Ok(t) => if t.kind is Arrow {
            p_type_name(s, after(st, t))
        } else {
            Ok((None, st))
        },
    }
}

/// Span of an expression.
pub open spec fn espan(e: ExprV) -> Span {
    match e {
        ExprV::Int(_, s) => s,
        ExprV::Float(_, s) => s,
        ExprV::Str(_, s) => s,
        ExprV::Bool(_, s) => s,
        ExprV::Nil(s) => s,
        ExprV::Ident(_, s) => s,
        ExprV::Call { span, .. } => span,
        ExprV::TypeTo { span, .. } => span,
        ExprV::Binary { span, .. } => span,
        ExprV::Unary { span, .. } => span,
    }
}

/// The binary operator a token denotes, with its precedence.
pub open spec fn binop_of(k: TokView) -> Option<(BinOp, nat)> {
    match k {
        TokView::Plus => Some((BinOp::Add, 5)),
        TokView::Minus => Some((BinOp::Sub, 5)),
        TokView::Star => Some((BinOp::Mul, 6)),
        TokView::Slash => Some((BinOp::Div, 6)),
        TokView::Percent => Some((BinOp::Rem, 6)),
        TokView::EqEq => Some((BinOp::Eq, 3)),
        TokView::BangEq => Some((BinOp::Ne, 3)),
        TokView::Lt => Some((BinOp::Lt, 4)),
        TokView::Gt => Some((BinOp::Gt, 4)),
        TokView::Le => Some((BinOp::Le, 4)),
        TokView::Ge => Some((BinOp::Ge, 4)),
        TokView::And => Some((BinOp::And, 2)),
        TokView::Or => Some((BinOp::Or, 1)),
        _ => None,
    }
}

/// The next binary operator, if any: `<` directly before `const` is the
/// immutability marker, not a comparison.
pub open spec fn p_peek_binop(s: Seq<char>, st: PState) -> Result<Option<(BinOp, nat, Tok)>, PErr> {
    match tok_at(s, st.i) {
        Err(e) => Err(e),
        Ok(t) => match binop_of(t.kind) {
            None => Ok(None),
            Some((op, prec)) => if t.kind is Lt {
                match tok_at(s, t.next) {
                    Err(e) => Err(e),
                    Ok(t2) => if t2.kind is Const {
                        Ok(None)
                    } else {
                        Ok(Some((op, prec, t)))
                    },
                }
            } else {
                Ok(Some((op, prec, t)))
            },
        },
    }
}

pub open spec fn p_expr(s: Seq<char>, st: PState) -> Result<(ExprV, PState), PErr>
    decreases s.len() - st.i, 4int,
{
    p_binary(s, st, 0)
}

/// Left-associative binary operators with precedence at least `min`.
pub open spec fn p_binary(s: Seq<char>, st: PState, min: nat) -> Result<(ExprV, PState), PErr>
    decreases s.len() - st.i, 3int,
{
    match p_unary(s, st) {
        Err(e) => Err(e),
        Ok((lhs, st1)) => if st.i <= st1.i <= s.len() {
            p_binloop(s, lhs, st1, min)
        } else {
            Err(stalled())
        },
    }
}

pub open spec fn p_binloop(s: Seq<char>, lhs: ExprV, st: PState, min: nat) -> Result<
    (ExprV, PState),
    PErr,
>
    decreases s.len() - st.i, 2int,
{
    match p_peek_binop(s, st) {
        Err(e) => Err(e),
        Ok(None) => Ok((lhs, st)),
        Ok(Some((op, prec, t))) => if prec < min {
            Ok((lhs, st))
        } else if st.i < t.next <= s.len() {
            match p_binary(s, after(st, t), prec + 1) {
                Err(e) => Err(e),
                Ok((rhs, st2)) => if t.next <= st2.i <= s.len() {
                    let e = ExprV::Binary {
                        op,
                        lhs: Box::new(lhs),
                        rhs: Box::new(rhs),
                        span: Span { start: espan(lhs).start, end: espan(rhs).end },
                    };
                    p_binloop(s, e, st2, min)
                } else {
                    Err(stalled())
                },
            }
        } else {
            Err(stalled())
        },
    }
}

pub open spec fn p_unary(s: Seq<char>, st: PState) -> Result<(ExprV, PState), PErr>
    decreases s.len() - st.i, 1int,
{
    match tok_at(s, st.i) {
        Err(e) => Err(e),
        Ok(t) => if t.kind is Minus || t.kind is Bang {
            if st.i < t.next <= s.len() {
                match p_unary(s, after(st, t)) {
                    Err(e) => Err(e),
                    Ok((operand, st2)) => {
                        let op = if t.kind is Minus {
                            UnOp::Neg
                        } else {
                            UnOp::Not
                        };
                        Ok(
                            (
                                ExprV::Unary {
                                    op,
                                    operand: Box::new(operand),
                                    span: Span { start: t.span.start, end: espan(operand).end },
                                },
                                st2,
                            ),
                        )
                    },
                }
            } else {
                Err(stalled())
            }
        } else {
            p_primary(s, st)
        },
    }
}

pub open spec fn p_primary(s: Seq<char>, st: PState) -> Result<(ExprV, PState), PErr>
    decreases s.len() - st.i, 0int,
{
    match tok_at(s, st.i) {
        Err(e) => Err(e),
        Ok(t) => {
            let st1 = after(st, t);
            match t.kind {
                TokView::Int(v) => Ok((ExprV::Int(v, t.span), st1)),
                TokView::Str(v) => Ok((ExprV::Str(v, t.span), st1)),
                TokView::True => Ok((ExprV::Bool(true, t.span), st1)),
                TokView::False => Ok((ExprV::Bool(false, t.span), st1)),
                TokView::Ident(name) => match tok_at(s, st1.i) {
                    Err(e) => Err(e),
                    Ok(t2) => if t2.kind is LParen {
                        let st2 = after(st1, t2);
                        if st.i < st2.i <= s.len() {
                            match p_call_args(s, st2) {
                                Err(e) => Err(e),
                                Ok((args, st3)) => match p_expect(s, st3, TokView::RParen) {
                                    Err(e) => Err(e),
                                    Ok((close, st4)) => Ok(
                                        (
                                            ExprV::Call {
                                                callee: name,
                                                args,
                                                span: Span {
                                                    start: t.span.start,
                                                    end: close.span.end,
                                                },
                                            },
                                            st4,
                                        ),
                                    ),
                                },
                            }
                        } else {
                            Err(stalled())
                        }
                    } else {
                        Ok((ExprV::Ident(name, t.span), st1))
                    },
                },
                TokView::LParen => if st.i < st1.i <= s.len() {
                    match p_expr(s, st1) {
                        Err(e) => Err(e),
                        Ok((inner, st2)) => match p_expect(s, st2, TokView::RParen) {
                            Err(e) => Err(e),
                            Ok((_, st3)) => Ok((inner, st3)),
                        },
                    }
                } else {
                    Err(stalled())
                },
                _ => Err((found("expected expression"@, t.kind), t.span)),
            }
        },
    }
}

/// Call arguments after `(`: nothing before `)`, or expressions separated
/// by commas.
pub open spec fn p_call_args(s: Seq<char>, st: PState) -> Result<(Seq<ExprV>, PState), PErr>
    decreases s.len() - st.i, 6int,
{
    match tok_at(s, st.i) {
        Err(e) => Err(e),
        Ok(t) => if t.kind is RParen {
            Ok((Seq::empty(), st))
        } else {
            p_arg_list(s, st, Seq::empty())
        },
    }
}

pub open spec fn p_arg_list(s: Seq<char>, st: PState, acc: Seq<ExprV>) -> Result<
    (Seq<ExprV>, PState),
    PErr,
>
    decreases s.len() - st.i, 5int,
{
    match p_expr(s, st) {
        Err(e) => Err(e),
        Ok((arg, st1)) => match tok_at(s, st1.i) {
            Err(e) => Err(e),
            Ok(t) => if t.kind is Comma {
                let st2 = after(st1, t);
                if st.i < st2.i <= s.len() {
                    p_arg_list(s, st2, acc.push(arg))
                } else {
                    Err(stalled())
                }
            } else {
                Ok((acc.push(arg), st1))
            },
        },
    }
}

/// `name = expr` with an optional `<const>` marker.
pub open spec fn p_assign(s: Seq<char>, st: PState) -> Result<(StmtV, PState), PErr> {
    match p_expect_ident(s, st, "variable name"@) {
        Err(e) => Err(e),
        Ok(((name, name_span), st1)) => match p_expect(s, st1, TokView::Equal) {
            Err(e) => Err(e),
            Ok((_, st2)) => match p_expr(s, st2) {
                Err(e) => Err(e),
                Ok((value, st3)) => {
                    let marker: Result<(bool, Span, PState), PErr> = match tok_at(s, st3.i) {
                        Err(e) => Err(e),
                        Ok(t) => if t.kind is Lt {
                            match p_expect(s, after(st3, t), TokView::Const) {
                                Err(e) => Err(e),
                                Ok((_, st4)) => match p_expect(s, st4, TokView::Gt) {
                                    Err(e) => Err(e),
                                    Ok((gt, st5)) => Ok(
                                        (
                                            true,
                                            Span { start: name_span.start, end: gt.span.end },
                                            st5,
                                        ),
                                    ),
                                },
                            }
                        } else {
                            Ok((false, name_span, st3))
                        },
                    };
                    match marker {
                        Err(e) => Err(e),
                        Ok((is_const, span, st6)) => match p_end_stmt(s, st6) {
                            Err(e) => Err(e),
                            Ok(st7) => Ok((StmtV::Assign { name, value, is_const, span }, st7)),
                        },
                    }
                },
            },
        },
    }
}

/// The raw block whose `{` token has span `open`: its text and the state
/// after it (the lexer moves past the closing brace; `le` stays).
pub open spec fn p_raw_block(s: Seq<char>, st: PState, open: Span) -> Result<
    (Seq<char>, PState),
    PErr,
> {
    let k = boundary_index(s, open.start as int);
    match scan_raw_spec(s, k) {
        Err((kind, a, b)) => Err((raw_error_text(kind), Span { start: a as usize, end: b as usize })),
        Ok(close) => Ok(
            (
                s.subrange(k + 1, close),
                PState {
                    i: if byte_at(s, close) + 1 >= byte_len(s) {
                        s.len() as int
                    } else {
                        boundary_index(s, byte_at(s, close) + 1int)
                    },
                    le: st.le,
                },
            ),
        ),
    }
}

pub open spec fn p_stmt(s: Seq<char>, st: PState) -> Result<(StmtV, PState), PErr>
    decreases s.len() - st.i, 7int,
{
    match tok_at(s, st.i) {
        Err(e) => Err(e),
        Ok(t) => {
            let assign: Result<bool, PErr> = if t.kind is Ident {
                match tok_at(s, t.next) {
                    Err(e) => Err(e),
                    Ok(t2) => Ok(t2.kind is Equal),
                }
            } else {
                Ok(false)
            };
            match assign {
                Err(e) => Err(e),
                Ok(true) => p_assign(s, st),
                Ok(false) => if t.kind is Return {
                    let st1 = after(st, t);
                    match tok_at(s, st1.i) {
                        Err(e) => Err(e),
                        Ok(t1) => {
                            let value: Result<(Option<ExprV>, PState), PErr> = if t1.kind is Semi
                                || t1.kind is RBrace {
                                Ok((None, st1))
                            } else {
                                match p_expr(s, st1) {
                                    Err(e) => Err(e),
                                    Ok((e, st2)) => Ok((Some(e), st2)),
                                }
                            };
                            match value {
                                Err(e) => Err(e),
                                Ok((v, st3)) => match p_end_stmt(s, st3) {
                                    Err(e) => Err(e),
                                    Ok(st4) => Ok((StmtV::Return { value: v }, st4)),
                                },
                            }
                        },
                    }
                } else if t.kind is Scope {
                    let st1 = after(st, t);
                    match tok_at(s, st1.i) {
                        Err(e) => Err(e),
                        Ok(kt) => {
                            let st2 = after(st1, kt);
                            let kind = if kt.kind is HighLevel {
                                Some(ScopeKind::HighLevel)
                            } else if kt.kind is LowLevel {
                                Some(ScopeKind::LowLevel)
                            } else {
                                None
                            };
                            match kind {
                                None => Err(
                                    (
                                        found("expected 'highlevel' or 'lowlevel'"@, kt.kind),
                                        kt.span,
                                    ),
                                ),
                                Some(kind) => match p_expect(s, st2, TokView::LBrace) {
                                    Err(e) => Err(e),
                                    Ok((open, st3)) => {
                                        let span = Span { start: t.span.start, end: open.span.end };
                                        if kind == ScopeKind::HighLevel {
                                            if st.i < st3.i <= s.len() {
                                                match p_block_rest(s, st3, Seq::empty()) {
                                                    Err(e) => Err(e),
                                                    Ok((b, st4)) => Ok(
                                                        (StmtV::Scope { kind, block: b, span }, st4),
                                                    ),
                                                }
                                            } else {
                                                Err(stalled())
                                            }
                                        } else {
                                            match p_raw_block(s, st3, open.span) {
                                                Err(e) => Err(e),
                                                Ok((text, st4)) => Ok(
                                                    (
                                                        StmtV::Scope {
                                                            kind,
                                                            block: BlockV::Raw(text),
                                                            span,
                                                        },
                                                        st4,
                                                    ),
                                                ),
                                            }
                                        }
                                    },
                                },
                            }
                        },
                    }
                } else {
                    match p_expr(s, st) {
                        Err(e) => Err(e),
                        Ok((e, st1)) => match p_end_stmt(s, st1) {
                            Err(e) => Err(e),
                            Ok(st2) => Ok((StmtV::Expr(e), st2)),
                        },
                    }
                },
            }
        },
    }
}

/// Statements up to the closing `}` of a block whose `{` is consumed.
pub open spec fn p_block_rest(s: Seq<char>, st: PState, acc: Seq<StmtV>) -> Result<
    (BlockV, PState),
    PErr,
>
    decreases s.len() - st.i, 8int,
{
    match tok_at(s, st.i) {
        Err(e) => Err(e),
        Ok(t) => if t.kind is RBrace || t.kind is Eof {
            match p_expect(s, st, TokView::RBrace) {
                Err(e) => Err(e),
                Ok((_, st1)) => Ok((BlockV::Stmts(acc), st1)),
            }
        } else {
            match p_stmt(s, st) {
                Err(e) => Err(e),
                Ok((stmt, st1)) => if st.i < st1.i <= s.len() {
                    p_block_rest(s, st1, acc.push(stmt))
                } else {
                    Err(stalled())
                },
            }
        },
    }
}

pub open spec fn p_block(s: Seq<char>, st: PState) -> Result<(BlockV, PState), PErr> {
    match p_expect(s, st, TokView::LBrace) {
        Err(e) => Err(e),
        Ok((_, st1)) => if st.i < st1.i <= s.len() {
            p_block_rest(s, st1, Seq::empty())
        } else {
            Err(stalled())
        },
    }
}

/// Parameters after `(`: `name<type>` separated by commas.
pub open spec fn p_params(s: Seq<char>, st: PState, acc: Seq<ParamV>) -> Result<
    (Seq<ParamV>, PState),
    PErr,
>
    decreases s.len() - st.i,
{
    match p_expect_ident(s, st, "parameter name"@) {
        Err(e) => Err(e),
        Ok(((name, _), st1)) => match p_opt_type(s, st1) {
            Err(e) => Err(e),
            Ok((ty, st2)) => {
                let acc2 = acc.push(ParamV { name, ty });
                match tok_at(s, st2.i) {
                    Err(e) => Err(e),
                    Ok(t) => if t.kind is Comma {
                        let st3 = after(st2, t);
                        if st.i < st3.i <= s.len() {
                            p_params(s, st3, acc2)
                        } else {
                            Err(stalled())
                        }
                    } else {
                        Ok((acc2, st2))
                    },
                }
            },
        },
    }
}

/// A function's body: a block, or for `func` a `:` followed by a block or
/// a single expression that is implicitly returned.
pub open spec fn p_body(s: Seq<char>, st: PState, is_func: bool) -> Result<(BlockV, PState), PErr> {
    if is_func {
        match p_expect(s, st, TokView::Colon) {
            Err(e) => Err(e),
            Ok((_, st1)) => match tok_at(s, st1.i) {
                Err(e) => Err(e),
                Ok(t) => if t.kind is LBrace {
                    p_block(s, st1)
                } else {
                    match p_expr(s, st1) {
                        Err(e) => Err(e),
                        Ok((e, st2)) => Ok(
                            (BlockV::Stmts(seq![StmtV::Return { value: Some(e) }]), st2),
                        ),
                    }
                },
            },
        }
    } else {
        p_block(s, st)
    }
}

pub open spec fn p_function(s: Seq<char>, st: PState) -> Result<(crate::ast::FunctionV, PState), PErr> {
    match tok_at(s, st.i) {
        Err(e) => Err(e),
        Ok(kw) => {
            let is_func = kw.kind is Func;
            match p_expect_ident(s, after(st, kw), "function name"@) {
                Err(e) => Err(e),
                Ok(((name, name_span), st1)) => match p_expect(s, st1, TokView::LParen) {
                    Err(e) => Err(e),
                    Ok((_, st2)) => {
                        let params: Result<(Seq<ParamV>, PState), PErr> = match tok_at(s, st2.i) {
                            Err(e) => Err(e),
                            Ok(t) => if t.kind is RParen {
                                Ok((Seq::empty(), st2))
                            } else {
                                p_params(s, st2, Seq::empty())
                            },
                        };
                        match params {
                            Err(e) => Err(e),
                            Ok((ps, st3)) => match p_expect(s, st3, TokView::RParen) {
                                Err(e) => Err(e),
                                Ok((_, st4)) => match p_opt_ret(s, st4) {
                                    Err(e) => Err(e),
                                    Ok((ret, st5)) => match p_body(s, st5, is_func) {
                                        Err(e) => Err(e),
                                        Ok((body, st6)) => Ok(
                                            (
                                                crate::ast::FunctionV {
                                                    name,
                                                    params: ps,
                                                    ret,
                                                    body,
                                                    span: Span {
                                                        start: kw.span.start,
                                                        end: name_span.end,
                                                    },
                                                },
                                                st6,
                                            ),
                                        ),
                                    },
                                },
                            },
                        }
                    },
                },
            }
        },
    }
}

/// Dotted segments of a header name: `.ident` or `.int`, appended to
/// `name`; `end` is the byte offset after the last segment.
pub open spec fn p_import_segs(s: Seq<char>, st: PState, name: Seq<char>, end: int) -> Result<
    (Seq<char>, int, PState),
    PErr,
>
    decreases s.len() - st.i,
{
    match tok_at(s, st.i) {
        Err(e) => Err(e),
        Ok(t) => if t.kind is Dot {
            let st1 = after(st, t);
            match tok_at(s, st1.i) {
                Err(e) => Err(e),
                Ok(seg) => {
                    let st2 = after(st1, seg);
                    let piece: Option<Seq<char>> = match seg.kind {
                        TokView::Ident(x) => Some(x),
                        TokView::Int(n) => Some(int_text(n as int)),
                        _ => None,
                    };
                    match piece {
                        None => Err((found("expected header name segment"@, seg.kind), seg.span)),
                        Some(x) => if st.i < st2.i <= s.len() {
                            p_import_segs(s, st2, name + seq!['.'] + x, seg.span.end as int)
                        } else {
                            Err(stalled())
                        },
                    }
                },
            }
        } else {
            Ok((name, end, st))
        },
    }
}

pub open spec fn p_import(s: Seq<char>, st: PState) -> Result<(crate::ast::ImportV, PState), PErr> {
    match p_expect(s, st, TokView::Import) {
        Err(e) => Err(e),
        Ok((kw, st1)) => match tok_at(s, st1.i) {
            Err(e) => Err(e),
            Ok(t) => {
                let st2 = after(st1, t);
                let named: Result<(Seq<char>, int, PState), PErr> = match t.kind {
                    TokView::Ident(first) => p_import_segs(s, st2, first, t.span.end as int),
                    TokView::Str(x) => Ok((x, t.span.end as int, st2)),
                    _ => Err((found("expected header name"@, t.kind), t.span)),
                };
                match named {
                    Err(e) => Err(e),
                    Ok((name, end, st3)) => match tok_at(s, st3.i) {
                        Err(e) => Err(e),
                        Ok(t3) => {
                            let (end2, st4) = if t3.kind is Semi {
                                (t3.span.end as int, after(st3, t3))
                            } else {
                                (end, st3)
                            };
                            Ok(
                                (
                                    crate::ast::ImportV {
                                        name,
                                        span: Span { start: kw.span.start, end: end2 as usize },
                                    },
                                    st4,
                                ),
                            )
                        },
                    },
                }
            },
        },
    }
}

pub open spec fn p_program(s: Seq<char>, st: PState, acc: Seq<crate::ast::ItemV>) -> Result<
    Seq<crate::ast::ItemV>,
    PErr,
>
    decreases s.len() - st.i,
{
    match tok_at(s, st.i) {
        Err(e) => Err(e),
        Ok(t) => if t.kind is Eof {
            Ok(acc)
        } else if t.kind is Import {
            match p_import(s, st) {
                Err(e) => Err(e),
                Ok((imp, st1)) => if st.i < st1.i <= s.len() {
                    p_program(s, st1, acc.push(crate::ast::ItemV::Import(imp)))
                } else {
                    Err(stalled())
                },
            }
        } else if t.kind is Fn || t.kind is Func {
            match p_function(s, st) {
                Err(e) => Err(e),
                Ok((f, st1)) => if st.i < st1.i <= s.len() {
                    p_program(s, st1, acc.push(crate::ast::ItemV::Function(f)))
                } else {
                    Err(stalled())
                },
            }
        } else {
            Err((found("expected 'import', 'fn' or 'func' at top level"@, t.kind), t.span))
        },
    }
}

/// The program a source text parses to.
pub open spec fn parse_spec(s: Seq<char>) -> Result<Seq<crate::ast::ItemV>, PErr> {
    p_program(s, PState { i: 0, le: 0 }, Seq::empty())
}

} // verus!
