//! Recursive-descent parser for the Zero language.
//!
//! Grammar (v0.3):
//! ```text
//! program    := item*
//! item       := import | function
//! import     := "import" (IDENT ("." IDENT | INT)* | STRING) [";"]
//! function   := ("fn" | "func") IDENT "(" [param ("," param)*] ")" ["->" type] body
//! param      := IDENT ["<" type ">"]
//! body       := block | ":" (block | expr)        (the colon form is `func`'s)
//! block      := "{" stmt* "}"
//! stmt       := assign | return | scope | expr [terminator]
//! assign     := IDENT "=" expr ["<" "const" ">"]
//! return     := "return" [expr]
//! scope      := "scope" ("highlevel" | "lowlevel") block
//! expr       := binary operators over unary ("-" | "!") over primaries
//! primary    := INT | STRING | "true" | "false" | IDENT ["(" [expr ("," expr)*] ")"] | "(" expr ")"
//! ```
//!
//! The exact language is the function `parse_spec` of the `spec` module;
//! every parsing method here is proved to compute its part of it.

pub mod progress;
pub mod spec;

use vstd::prelude::*;

use crate::ast::{
    BinOp, Block, Expr, Function, Import, Item, Param, Program, ScopeKind, Stmt, UnOp, ZType,
};
use crate::diag::{line_number, CompileError, Span};
use crate::lexer::token::{is_simple, kind_debug};
use crate::lexer::{lemma_lex_token, scan_raw_block, Lexer, TokKind, TokView, Token};
use crate::lexer::raw::scan_raw_spec;
use crate::text::{
    boundary_index, byte_at, byte_len, is_boundary, push_char, push_int, push_str, str_eq,
};
use crate::ast::{
    exprs_view, item_view, params_view, stmts_view, BlockV, ExprV, FunctionV, ImportV, ItemV,
    ParamV, ProgramV, StmtV,
};
use spec::{
    after, binop_of, found, p_arg_list, p_assign, p_at, p_binary, p_binloop, p_block, p_block_rest,
    p_body, p_call_args, p_end_stmt, p_expect, p_expect_ident, p_expr, p_function, p_opt_ret,
    p_import, p_import_segs, p_opt_type, p_params, p_program, p_type_name, parse_spec, p_peek_binop, p_primary, p_raw_block, p_stmt,
    p_unary, tok_at, PErr, PState, Tok,
};

verus! {

/// The error `e` is the grammar's error `pe`, reported in `file`.
pub open spec fn err_is(e: CompileError, pe: PErr, file: Seq<char>) -> bool {
    &&& e.message@ == pe.0
    &&& e.span == Some(pe.1)
    &&& e.file@ == file
}

pub struct Parser<'a> {
    src: &'a str,
    file: String,
    lexer: Lexer,
    /// Tokens lexed ahead of the parser (at most two).
    lookahead: Vec<Token>,
    /// End offset of the most recently consumed token.
    last_end: usize,
    /// Character index at which the first buffered token was lexed (the
    /// lexer's index when nothing is buffered).
    gi: Ghost<int>,
    /// Character index after each buffered token.
    gnext: Ghost<Seq<int>>,
}

impl<'a> Parser<'a> {
    /// The source characters.
    pub closed spec fn text(&self) -> Seq<char> {
        self.src@
    }

    pub closed spec fn file_name(&self) -> Seq<char> {
        self.file@
    }

    /// Where the parser stands, in the terms of the grammar.
    pub closed spec fn state(&self) -> PState {
        PState { i: self.gi@, le: self.last_end as int }
    }

    /// Buffered token `k`, as the grammar sees it.
    closed spec fn buffered(&self, k: int) -> Tok {
        Tok { kind: self.lookahead@[k].kind@, span: self.lookahead@[k].span, next: self.gnext@[k] }
    }

    pub closed spec fn inv(&self) -> bool {
        &&& self.lexer.wf()
        &&& self.lexer.text() == self.src@
        &&& byte_len(self.src@) < usize::MAX
        &&& self.lookahead@.len() == self.gnext@.len()
        &&& self.lookahead@.len() <= 2
        &&& 0 <= self.gi@ <= self.src@.len()
        &&& self.lookahead@.len() == 0 ==> self.lexer.index() == self.gi@
        &&& self.lookahead@.len() >= 1 ==> tok_at(self.src@, self.gi@) == Ok::<Tok, PErr>(self.buffered(0))
        &&& self.lookahead@.len() == 1 ==> self.lexer.index() == self.gnext@[0]
        &&& self.lookahead@.len() == 2 ==> {
            &&& tok_at(self.src@, self.gnext@[0]) == Ok::<Tok, PErr>(self.buffered(1))
            &&& self.lexer.index() == self.gnext@[1]
        }
    }

    /// `self` went on from `old` over the same source and file name.
    closed spec fn same_input(&self, old: Parser<'a>) -> bool {
        &&& self.src@ == old.src@
        &&& self.file@ == old.file@
    }

    /// The exec result `got` is what the grammar gives (`want`), and on
    /// success the parser stands where the grammar says.
    closed spec fn agrees<V>(
        &self,
        old: Parser<'a>,
        want: Result<(V, PState), PErr>,
        got: Result<V, CompileError>,
    ) -> bool {
        &&& self.same_input(old)
        &&& match (want, got) {
            (Ok((v, st)), Ok(w)) => {
                &&& w == v
                &&& self.inv()
                &&& self.state() == st
                &&& old.state().i <= st.i
            },
            (Err(pe), Err(e)) => err_is(e, pe, old.file@),
            _ => false,
        }
    }

    fn new(src: &'a str, file: &str) -> (p: Parser<'a>)
        requires
            byte_len(src@) < usize::MAX,
        ensures
            p.inv(),
            p.text() == src@,
            p.file_name() == file@,
            p.state() == (PState { i: 0, le: 0 }),
    {
        Parser {
            src,
            file: file.to_owned(),
            lexer: Lexer::new(src),
            lookahead: Vec::new(),
            last_end: 0,
            gi: Ghost(0),
            gnext: Ghost(Seq::empty()),
        }
    }

    /// A lexer error, reported in this parser's file.
    fn relabel(&self, e: CompileError) -> (r: CompileError)
        ensures
            r.message == e.message,
            r.span == e.span,
            r.file@ == self.file@,
    {
        CompileError { message: e.message, span: e.span, file: self.file.clone() }
    }

    /// A parse error at `span`.
    fn error(&self, message: String, span: Span) -> (e: CompileError)
        ensures
            e.message@ == message@,
            e.span == Some(span),
            e.file@ == self.file@,
    {
        CompileError { message, span: Some(span), file: self.file.clone() }
    }

    /// Lex one more token into the buffer.
    fn lex_more(&mut self) -> (r: Result<(), CompileError>)
        requires
            old(self).inv(),
            old(self).lookahead@.len() < 2,
        ensures
            final(self).same_input(*old(self)),
            ({
                let at = if old(self).lookahead@.len() == 0 {
                    old(self).gi@
                } else {
                    old(self).gnext@[0]
                };
                match (tok_at(old(self).src@, at), r) {
                    (Ok(t), Ok(())) => {
                        &&& final(self).inv()
                        &&& final(self).state() == old(self).state()
                        &&& final(self).lookahead@.len() == old(self).lookahead@.len() + 1
                        &&& final(self).lookahead@.len() >= 1
                        &&& final(self).buffered(0) == (if old(self).lookahead@.len() == 0 {
                            t
                        } else {
                            old(self).buffered(0)
                        })
                        &&& final(self).lookahead@.len() == 2 ==> final(self).buffered(1) == t
                    },
                    (Err(pe), Err(e)) => err_is(e, pe, old(self).file@),
                    _ => false,
                }
            }),
    {
        let ghost at = self.lexer.index();
        proof {
            self.lexer.lemma_index_bound();
            lemma_lex_token(self.src@, at);
        }
        match self.lexer.next_token() {
            Ok(tok) => {
                self.lookahead.push(tok);
                self.gnext = Ghost(self.gnext@.push(self.lexer.index()));
                proof {
                    assert(self.lookahead@.len() >= 1);
                }
                Ok(())
            },
            Err(e) => Err(self.relabel(e)),
        }
    }

    /// Make sure the next token is buffered.
    fn fill0(&mut self) -> (r: Result<(), CompileError>)
        requires
            old(self).inv(),
        ensures
            final(self).same_input(*old(self)),
            match (tok_at(old(self).src@, old(self).gi@), r) {
                (Ok(t), Ok(())) => {
                    &&& final(self).inv()
                    &&& final(self).state() == old(self).state()
                    &&& final(self).lookahead@.len() >= 1
                    &&& final(self).buffered(0) == t
                },
                (Err(pe), Err(e)) => err_is(e, pe, old(self).file@),
                _ => false,
            },
    {
        if self.lookahead.len() == 0 {
            self.lex_more()
        } else {
            Ok(())
        }
    }

    /// Make sure the next two tokens are buffered.
    fn fill1(&mut self) -> (r: Result<(), CompileError>)
        requires
            old(self).inv(),
            tok_at(old(self).src@, old(self).gi@) is Ok,
        ensures
            final(self).same_input(*old(self)),
            ({
                let t = tok_at(old(self).src@, old(self).gi@)->Ok_0;
                match (tok_at(old(self).src@, t.next), r) {
                    (Ok(t2), Ok(())) => {
                        &&& final(self).inv()
                        &&& final(self).state() == old(self).state()
                        &&& final(self).lookahead@.len() == 2
                        &&& final(self).buffered(0) == t
                        &&& final(self).buffered(1) == t2
                    },
                    (Err(pe), Err(e)) => err_is(e, pe, old(self).file@),
                    _ => false,
                }
            }),
    {
        match self.fill0() {
            Ok(()) => {},
            Err(e) => {
                return Err(e);
            },
        }
        if self.lookahead.len() == 1 {
            self.lex_more()
        } else {
            Ok(())
        }
    }

    /// Consume the next token.
    fn next(&mut self) -> (r: Result<Token, CompileError>)
        requires
            old(self).inv(),
        ensures
            final(self).same_input(*old(self)),
            match (tok_at(old(self).src@, old(self).gi@), r) {
                (Ok(t), Ok(tok)) => {
                    &&& final(self).inv()
                    &&& tok.kind@ == t.kind
                    &&& tok.span == t.span
                    &&& final(self).state() == after(old(self).state(), t)
                    &&& old(self).gi@ <= t.next
                    &&& !(t.kind is Eof) ==> old(self).gi@ < t.next
                    &&& t.kind is Eof ==> t.next == old(self).src@.len()
                },
                (Err(pe), Err(e)) => err_is(e, pe, old(self).file@),
                _ => false,
            },
    {
        proof {
            lemma_lex_token(self.src@, self.gi@);
        }
        match self.fill0() {
            Ok(()) => {},
            Err(e) => {
                return Err(e);
            },
        }
        let tok = self.lookahead.remove(0);
        self.gi = Ghost(self.gnext@[0]);
        self.gnext = Ghost(self.gnext@.drop_first());
        if !tok.kind.is(&TokKind::Eof) {
            self.last_end = tok.span.end;
        }
        Ok(tok)
    }

    /// Whether the next token has the payload-free kind `kind`.
    fn at(&mut self, kind: &TokKind) -> (r: Result<bool, CompileError>)
        requires
            old(self).inv(),
            is_simple(kind@),
        ensures
            final(self).same_input(*old(self)),
            match (p_at(old(self).src@, old(self).state(), kind@), r) {
                (Ok(b), Ok(c)) => {
                    &&& b == c
                    &&& final(self).inv()
                    &&& final(self).state() == old(self).state()
                },
                (Err(pe), Err(e)) => err_is(e, pe, old(self).file@),
                _ => false,
            },
    {
        match self.fill0() {
            Ok(()) => {},
            Err(e) => {
                return Err(e);
            },
        }
        Ok(self.lookahead[0].kind.is(kind))
    }

    /// Consume a token of the payload-free kind `kind`.
    fn expect(&mut self, kind: &TokKind) -> (r: Result<Token, CompileError>)
        requires
            old(self).inv(),
            is_simple(kind@),
            !(kind@ is Eof),
        ensures
            final(self).same_input(*old(self)),
            match p_expect(old(self).src@, old(self).state(), kind@) {
                Ok((t, st)) => r matches Ok(tok) && tok.kind@ == t.kind && tok.span == t.span
                    && final(self).state() == st && final(self).inv() && old(self).gi@ < t.next,
                Err(pe) => r matches Err(e) && err_is(e, pe, old(self).file@),
            },
    {
        proof {
            lemma_lex_token(self.src@, self.gi@);
        }
        let tok = match self.next() {
            Ok(t) => t,
            Err(e) => {
                return Err(e);
            },
        };
        if !tok.kind.is(kind) {
            proof {
                reveal_strlit("expected ");
            }
            let mut m = String::new();
            push_str(&mut m, "expected ");
            kind.push_debug(&mut m);
            let msg = found_message(m, &tok.kind);
            return Err(self.error(msg, tok.span));
        }
        Ok(tok)
    }
}

impl<'a> Parser<'a> {
    /// Consume an identifier; `what` names it in the error.
    fn expect_ident(&mut self, what: &str) -> (r: Result<(String, Span), CompileError>)
        requires
            old(self).inv(),
        ensures
            final(self).agrees(
                *old(self),
                p_expect_ident(old(self).src@, old(self).state(), what@),
                ok_name(r),
            ),
            r is Ok ==> old(self).gi@ < final(self).gi@,
    {
        let tok = match self.next() {
            Ok(t) => t,
            Err(e) => {
                return Err(e);
            },
        };
        match tok.kind {
            TokKind::Ident(name) => Ok((name, tok.span)),
            other => {
                proof {
                    reveal_strlit("expected ");
                }
                let mut m = String::new();
                push_str(&mut m, "expected ");
                push_str(&mut m, what);
                let msg = found_message(m, &other);
                Err(self.error(msg, tok.span))
            },
        }
    }

    /// Consume a statement terminator. A statement may end with `;`, with a
    /// newline, or right before `}` / EOF (no terminator needed).
    fn end_stmt(&mut self) -> (r: Result<(), CompileError>)
        requires
            old(self).inv(),
        ensures
            final(self).same_input(*old(self)),
            match (p_end_stmt(old(self).src@, old(self).state()), r) {
                (Ok(st), Ok(())) => {
                    &&& final(self).inv()
                    &&& final(self).state() == st
                    &&& old(self).gi@ <= final(self).gi@
                },
                (Err(pe), Err(e)) => err_is(e, pe, old(self).file@),
                _ => false,
            },
    {
        match self.fill0() {
            Ok(()) => {},
            Err(e) => {
                return Err(e);
            },
        }
        if self.lookahead[0].kind.is(&TokKind::Semi) {
            return match self.next() {
                Ok(_) => Ok(()),
                Err(e) => Err(e),
            };
        }
        if self.lookahead[0].kind.is(&TokKind::RBrace) || self.lookahead[0].kind.is(&TokKind::Eof) {
            return Ok(());
        }
        let start = self.lookahead[0].span.start;
        proof {
            crate::text::lemma_byte_len_ge_len(self.src@);
        }
        let last_line = line_number(self.src, self.last_end);
        let next_line = line_number(self.src, start);
        if next_line > last_line {
            return Ok(());
        }
        let msg = found_message(String::from_str("expected ';' or newline"), &self.lookahead[0].kind);
        Err(self.error(msg, self.lookahead[0].span))
    }

    /// The next binary operator and its precedence, if any. `<const>` is a
    /// variable marker, not a comparison, so `<` right before the keyword
    /// `const` is not treated as an operator.
    fn peek_binop(&mut self) -> (r: Result<Option<(BinOp, u8)>, CompileError>)
        requires
            old(self).inv(),
        ensures
            final(self).same_input(*old(self)),
            match (p_peek_binop(old(self).src@, old(self).state()), r) {
                (Ok(None), Ok(None)) => {
                    &&& final(self).inv()
                    &&& final(self).state() == old(self).state()
                },
                (Ok(Some((op, prec, t))), Ok(Some((op2, prec2)))) => {
                    &&& op2 == op
                    &&& prec2 == prec
                    &&& final(self).inv()
                    &&& final(self).state() == old(self).state()
                    &&& tok_at(old(self).src@, old(self).gi@) == Ok::<Tok, PErr>(t)
                },
                (Err(pe), Err(e)) => err_is(e, pe, old(self).file@),
                _ => false,
            },
    {
        match self.fill0() {
            Ok(()) => {},
            Err(e) => {
                return Err(e);
            },
        }
        let found = binop_of_kind(&self.lookahead[0].kind);
        match found {
            None => Ok(None),
            Some((op, prec)) => {
                if self.lookahead[0].kind.is(&TokKind::Lt) {
                    match self.fill1() {
                        Ok(()) => {},
                        Err(e) => {
                            return Err(e);
                        },
                    }
                    if self.lookahead[1].kind.is(&TokKind::Const) {
                        return Ok(None);
                    }
                }
                Ok(Some((op, prec)))
            },
        }
    }

    fn parse_expr(&mut self) -> (r: Result<Expr, CompileError>)
        requires
            old(self).inv(),
        ensures
            final(self).agrees(*old(self), p_expr(old(self).src@, old(self).state()), ok_expr(r)),
            r is Ok ==> old(self).gi@ < final(self).gi@,
        decreases old(self).src@.len() - old(self).gi@, 4int,
    {
        self.parse_binary(0)
    }

    /// Left-associative binary operators with precedence at least `min_prec`.
    fn parse_binary(&mut self, min_prec: u8) -> (r: Result<Expr, CompileError>)
        requires
            old(self).inv(),
            min_prec <= 7,
        ensures
            final(self).agrees(
                *old(self),
                p_binary(old(self).src@, old(self).state(), min_prec as nat),
                ok_expr(r),
            ),
            r is Ok ==> old(self).gi@ < final(self).gi@,
        decreases old(self).src@.len() - old(self).gi@, 3int,
    {
        let ghost s = self.src@;
        let ghost st0 = self.state();
        let mut lhs = match self.parse_unary() {
            Ok(e) => e,
            Err(e) => {
                return Err(e);
            },
        };
        loop
            invariant
                self.inv(),
                self.same_input(*old(self)),
                s == self.src@,
                st0 == old(self).state(),
                st0.i < self.gi@,
                min_prec <= 7,
                p_binary(s, st0, min_prec as nat) == p_binloop(s, lhs@, self.state(), min_prec as nat),
            decreases s.len() - self.gi@,
        {
            let ghost st1 = self.state();
            let (op, prec) = match self.peek_binop() {
                Ok(None) => {
                    return Ok(lhs);
                },
                Ok(Some(x)) => x,
                Err(e) => {
                    return Err(e);
                },
            };
            if prec < min_prec {
                return Ok(lhs);
            }
            proof {
                lemma_lex_token(s, self.gi@);
            }
            match self.next() {
                Ok(_) => {},
                Err(e) => {
                    return Err(e);
                },
            }
            let rhs = match self.parse_binary(prec + 1) {
                Ok(e) => e,
                Err(e) => {
                    return Err(e);
                },
            };
            let span = Span::new(lhs.span().start, rhs.span().end);
            lhs = Expr::Binary { op, lhs: Box::new(lhs), rhs: Box::new(rhs), span };
        }
    }

    fn parse_unary(&mut self) -> (r: Result<Expr, CompileError>)
        requires
            old(self).inv(),
        ensures
            final(self).agrees(*old(self), p_unary(old(self).src@, old(self).state()), ok_expr(r)),
            r is Ok ==> old(self).gi@ < final(self).gi@,
        decreases old(self).src@.len() - old(self).gi@, 1int,
    {
        match self.fill0() {
            Ok(()) => {},
            Err(e) => {
                return Err(e);
            },
        }
        let is_neg = self.lookahead[0].kind.is(&TokKind::Minus);
        let is_not = self.lookahead[0].kind.is(&TokKind::Bang);
        if !is_neg && !is_not {
            return self.parse_primary();
        }
        proof {
            lemma_lex_token(self.src@, self.gi@);
        }
        let tok = match self.next() {
            Ok(t) => t,
            Err(e) => {
                return Err(e);
            },
        };
        let operand = match self.parse_unary() {
            Ok(e) => e,
            Err(e) => {
                return Err(e);
            },
        };
        let op = if is_neg {
            UnOp::Neg
        } else {
            UnOp::Not
        };
        let end = operand.span().end;
        Ok(Expr::Unary { op, operand: Box::new(operand), span: Span::new(tok.span.start, end) })
    }

    fn parse_primary(&mut self) -> (r: Result<Expr, CompileError>)
        requires
            old(self).inv(),
        ensures
            final(self).agrees(*old(self), p_primary(old(self).src@, old(self).state()), ok_expr(r)),
            r is Ok ==> old(self).gi@ < final(self).gi@,
        decreases old(self).src@.len() - old(self).gi@, 0int,
    {
        let ghost s = self.src@;
        let ghost st0 = self.state();
        proof {
            lemma_lex_token(s, self.gi@);
        }
        let tok = match self.next() {
            Ok(t) => t,
            Err(e) => {
                return Err(e);
            },
        };
        match tok.kind {
            TokKind::Int(v) => Ok(Expr::Int(v, tok.span)),
            TokKind::Str(text) => Ok(Expr::Str(text, tok.span)),
            TokKind::True => Ok(Expr::Bool(true, tok.span)),
            TokKind::False => Ok(Expr::Bool(false, tok.span)),
            TokKind::Ident(name) => {
                let call = match self.at(&TokKind::LParen) {
                    Ok(b) => b,
                    Err(e) => {
                        return Err(e);
                    },
                };
                if !call {
                    return Ok(Expr::Ident(name, tok.span));
                }
                proof {
                    lemma_lex_token(s, self.gi@);
                }
                match self.next() {
                    Ok(_) => {},
                    Err(e) => {
                        return Err(e);
                    },
                }
                let args = match self.parse_call_args() {
                    Ok(a) => a,
                    Err(e) => {
                        return Err(e);
                    },
                };
                let close = match self.expect(&TokKind::RParen) {
                    Ok(t) => t,
                    Err(e) => {
                        return Err(e);
                    },
                };
                Ok(Expr::Call { callee: name, args, span: Span::new(tok.span.start, close.span.end) })
            },
            TokKind::LParen => {
                let inner = match self.parse_expr() {
                    Ok(e) => e,
                    Err(e) => {
                        return Err(e);
                    },
                };
                match self.expect(&TokKind::RParen) {
                    Ok(_) => {},
                    Err(e) => {
                        return Err(e);
                    },
                }
                Ok(inner)
            },
            other => {
                let msg = found_message(String::from_str("expected expression"), &other);
                Err(self.error(msg, tok.span))
            },
        }
    }

    /// Call arguments after `(`: nothing before `)`, or expressions
    /// separated by commas.
    fn parse_call_args(&mut self) -> (r: Result<Vec<Expr>, CompileError>)
        requires
            old(self).inv(),
        ensures
            final(self).agrees(*old(self), p_call_args(old(self).src@, old(self).state()), ok_exprs(r)),
        decreases old(self).src@.len() - old(self).gi@, 6int,
    {
        let ghost s = self.src@;
        let ghost st0 = self.state();
        let mut args: Vec<Expr> = Vec::new();
        let empty = match self.at(&TokKind::RParen) {
            Ok(b) => b,
            Err(e) => {
                return Err(e);
            },
        };
        if empty {
            return Ok(args);
        }
        loop
            invariant_except_break
                p_call_args(s, st0) == p_arg_list(s, self.state(), exprs_view(args@)),
            invariant
                self.inv(),
                self.same_input(*old(self)),
                s == self.src@,
                st0 == old(self).state(),
                st0.i <= self.gi@,
            ensures
                p_call_args(s, st0) == Ok::<(Seq<ExprV>, PState), PErr>((exprs_view(args@), self.state())),
            decreases s.len() - self.gi@,
        {
            let arg = match self.parse_expr() {
                Ok(e) => e,
                Err(e) => {
                    return Err(e);
                },
            };
            let more = match self.at(&TokKind::Comma) {
                Ok(b) => b,
                Err(e) => {
                    return Err(e);
                },
            };
            proof {
                lemma_exprs_view_push(args@, arg);
            }
            args.push(arg);
            if !more {
                break;
            }
            proof {
                lemma_lex_token(s, self.gi@);
            }
            match self.next() {
                Ok(_) => {},
                Err(e) => {
                    return Err(e);
                },
            }
        }
        Ok(args)
    }
}

impl<'a> Parser<'a> {
    /// Jump the token stream to an absolute byte offset (after raw blocks).
    fn seek(&mut self, pos: usize)
        requires
            old(self).inv(),
            pos >= byte_len(old(self).src@) || is_boundary(old(self).src@, pos as int),
        ensures
            final(self).inv(),
            final(self).same_input(*old(self)),
            final(self).state() == (PState {
                i: if pos >= byte_len(old(self).src@) {
                    old(self).src@.len() as int
                } else {
                    boundary_index(old(self).src@, pos as int)
                },
                le: old(self).state().le,
            }),
    {
        self.lookahead.clear();
        self.lexer.seek(pos);
        proof {
            self.lexer.lemma_index_bound();
        }
        self.gi = Ghost(self.lexer.index());
        self.gnext = Ghost(Seq::empty());
    }

    /// `name = expr`, with an optional `<const>` marker.
    fn parse_assign(&mut self) -> (r: Result<Stmt, CompileError>)
        requires
            old(self).inv(),
        ensures
            final(self).agrees(*old(self), p_assign(old(self).src@, old(self).state()), ok_stmt(r)),
            r is Ok ==> old(self).gi@ < final(self).gi@,
    {
        let ghost s = self.src@;
        let (name, name_span) = match self.expect_ident("variable name") {
            Ok(x) => x,
            Err(e) => {
                return Err(e);
            },
        };
        match self.expect(&TokKind::Equal) {
            Ok(_) => {},
            Err(e) => {
                return Err(e);
            },
        }
        let value = match self.parse_expr() {
            Ok(e) => e,
            Err(e) => {
                return Err(e);
            },
        };
        let marked = match self.at(&TokKind::Lt) {
            Ok(b) => b,
            Err(e) => {
                return Err(e);
            },
        };
        let (is_const, span) = if marked {
            proof {
                lemma_lex_token(s, self.gi@);
            }
            match self.next() {
                Ok(_) => {},
                Err(e) => {
                    return Err(e);
                },
            }
            match self.expect(&TokKind::Const) {
                Ok(_) => {},
                Err(e) => {
                    return Err(e);
                },
            }
            let gt = match self.expect(&TokKind::Gt) {
                Ok(t) => t,
                Err(e) => {
                    return Err(e);
                },
            };
            (true, Span::new(name_span.start, gt.span.end))
        } else {
            (false, name_span)
        };
        match self.end_stmt() {
            Ok(()) => {},
            Err(e) => {
                return Err(e);
            },
        }
        Ok(Stmt::Assign { name, value, is_const, span })
    }

    fn parse_stmt(&mut self) -> (r: Result<Stmt, CompileError>)
        requires
            old(self).inv(),
        ensures
            final(self).agrees(*old(self), p_stmt(old(self).src@, old(self).state()), ok_stmt(r)),
            r is Ok ==> old(self).gi@ < final(self).gi@,
        decreases old(self).src@.len() - old(self).gi@, 7int,
    {
        let ghost s = self.src@;
        let ghost st0 = self.state();
        match self.fill0() {
            Ok(()) => {},
            Err(e) => {
                return Err(e);
            },
        }
        let is_ident = match &self.lookahead[0].kind {
            TokKind::Ident(_) => true,
            _ => false,
        };
        let is_assign = if is_ident {
            match self.fill1() {
                Ok(()) => {},
                Err(e) => {
                    return Err(e);
                },
            }
            self.lookahead[1].kind.is(&TokKind::Equal)
        } else {
            false
        };
        if is_assign {
            return self.parse_assign();
        }
        if self.lookahead[0].kind.is(&TokKind::Return) {
            proof {
                lemma_lex_token(s, self.gi@);
            }
            match self.next() {
                Ok(_) => {},
                Err(e) => {
                    return Err(e);
                },
            }
            let semi = match self.at(&TokKind::Semi) {
                Ok(b) => b,
                Err(e) => {
                    return Err(e);
                },
            };
            let close = match self.at(&TokKind::RBrace) {
                Ok(b) => b,
                Err(e) => {
                    return Err(e);
                },
            };
            let value = if semi || close {
                None
            } else {
                match self.parse_expr() {
                    Ok(e) => Some(e),
                    Err(e) => {
                        return Err(e);
                    },
                }
            };
            match self.end_stmt() {
                Ok(()) => {},
                Err(e) => {
                    return Err(e);
                },
            }
            return Ok(Stmt::Return { value });
        }
        if self.lookahead[0].kind.is(&TokKind::Scope) {
            return self.parse_scope();
        }
        let expr = match self.parse_expr() {
            Ok(e) => e,
            Err(e) => {
                return Err(e);
            },
        };
        match self.end_stmt() {
            Ok(()) => {},
            Err(e) => {
                return Err(e);
            },
        }
        Ok(Stmt::Expr(expr))
    }

    /// `scope highlevel { ... }` or `scope lowlevel { raw Rust }`; the next
    /// token is `scope`.
    fn parse_scope(&mut self) -> (r: Result<Stmt, CompileError>)
        requires
            old(self).inv(),
            tok_at(old(self).src@, old(self).gi@) matches Ok(t) && t.kind is Scope,
        ensures
            final(self).agrees(*old(self), p_stmt(old(self).src@, old(self).state()), ok_stmt(r)),
            r is Ok ==> old(self).gi@ < final(self).gi@,
        decreases old(self).src@.len() - old(self).gi@, 6int,
    {
        let ghost s = self.src@;
        proof {
            lemma_lex_token(s, self.gi@);
        }
        let kw = match self.next() {
            Ok(t) => t,
            Err(e) => {
                return Err(e);
            },
        };
        proof {
            lemma_lex_token(s, self.gi@);
        }
        let scope_tok = match self.next() {
            Ok(t) => t,
            Err(e) => {
                return Err(e);
            },
        };
        let kind = if scope_tok.kind.is(&TokKind::HighLevel) {
            ScopeKind::HighLevel
        } else if scope_tok.kind.is(&TokKind::LowLevel) {
            ScopeKind::LowLevel
        } else {
            let msg = found_message(
                String::from_str("expected 'highlevel' or 'lowlevel'"),
                &scope_tok.kind,
            );
            return Err(self.error(msg, scope_tok.span));
        };
        let ghost open_at = lemma_lex_token(s, self.gi@);
        let open = match self.expect(&TokKind::LBrace) {
            Ok(t) => t,
            Err(e) => {
                return Err(e);
            },
        };
        proof {
            crate::text::lemma_byte_at_bounded(s, open_at);
        }
        let span = Span::new(kw.span.start, open.span.end);
        let block = match kind {
            ScopeKind::HighLevel => match self.parse_block_rest() {
                Ok(b) => b,
                Err(e) => {
                    return Err(e);
                },
            },
            ScopeKind::LowLevel => match self.parse_raw_block(open.span, Ghost(open_at)) {
                Ok(text) => Block::Raw(text),
                Err(e) => {
                    return Err(e);
                },
            },
        };
        Ok(Stmt::Scope { kind, block, span })
    }

    /// The raw Rust text of a `lowlevel` block whose `{` (at character
    /// index `k`, byte span `open`) was just consumed; the token stream
    /// moves past the matching `}`.
    fn parse_raw_block(&mut self, open: Span, Ghost(k): Ghost<int>) -> (r: Result<String, CompileError>)
        requires
            old(self).inv(),
            0 <= k < old(self).src@.len(),
            old(self).src@[k] == '{',
            open.start == byte_at(old(self).src@, k),
            old(self).gi@ == k + 1,
        ensures
            final(self).same_input(*old(self)),
            match (p_raw_block(old(self).src@, old(self).state(), open), r) {
                (Ok((text, st)), Ok(t)) => {
                    &&& t@ == text
                    &&& final(self).inv()
                    &&& final(self).state() == st
                    &&& old(self).gi@ < st.i
                },
                (Err(pe), Err(e)) => err_is(e, pe, old(self).file@),
                _ => false,
            },
    {
        let ghost s = self.src@;
        proof {
            crate::text::lemma_boundary_index(s, k);
            crate::text::lemma_byte_at_bounded(s, k);
        }
        let (raw, end) = match scan_raw_block(self.src, open.start) {
            Ok(x) => x,
            Err(e) => {
                return Err(self.relabel(e));
            },
        };
        proof {
            let close = scan_raw_spec(s, k)->Ok_0;
            crate::lexer::raw::lemma_scan_block_range(s, k + 1, 1, byte_at(s, k) as int);
            crate::text::lemma_byte_len_take_step(s, close);
            crate::text::lemma_boundary_index(s, close + 1);
            if close + 1 == s.len() {
                assert(s.take(s.len() as int) =~= s);
            }
        }
        self.seek(end);
        Ok(raw)
    }

    /// Statements up to the closing `}` of a block whose `{` is consumed.
    fn parse_block_rest(&mut self) -> (r: Result<Block, CompileError>)
        requires
            old(self).inv(),
        ensures
            final(self).agrees(
                *old(self),
                p_block_rest(old(self).src@, old(self).state(), Seq::empty()),
                ok_block(r),
            ),
        decreases old(self).src@.len() - old(self).gi@, 8int,
    {
        let ghost s = self.src@;
        let ghost st0 = self.state();
        let mut stmts: Vec<Stmt> = Vec::new();
        loop
            invariant
                self.inv(),
                self.same_input(*old(self)),
                s == self.src@,
                st0 == old(self).state(),
                st0.i <= self.gi@,
                p_block_rest(s, st0, Seq::empty()) == p_block_rest(
                    s,
                    self.state(),
                    stmts_view(stmts@),
                ),
            ensures
                tok_at(s, self.gi@) matches Ok(t) && (t.kind is RBrace || t.kind is Eof),
            decreases s.len() - self.gi@,
        {
            match self.fill0() {
                Ok(()) => {},
                Err(e) => {
                    return Err(e);
                },
            }
            if self.lookahead[0].kind.is(&TokKind::RBrace) || self.lookahead[0].kind.is(
                &TokKind::Eof,
            ) {
                break;
            }
            let stmt = match self.parse_stmt() {
                Ok(st) => st,
                Err(e) => {
                    return Err(e);
                },
            };
            proof {
                lemma_stmts_view_push(stmts@, stmt);
            }
            stmts.push(stmt);
        }
        match self.expect(&TokKind::RBrace) {
            Ok(_) => {},
            Err(e) => {
                return Err(e);
            },
        }
        Ok(Block::Stmts(stmts))
    }

    fn parse_block(&mut self) -> (r: Result<Block, CompileError>)
        requires
            old(self).inv(),
        ensures
            final(self).agrees(*old(self), p_block(old(self).src@, old(self).state()), ok_block(r)),
            r is Ok ==> old(self).gi@ < final(self).gi@,
    {
        match self.expect(&TokKind::LBrace) {
            Ok(_) => {},
            Err(e) => {
                return Err(e);
            },
        }
        self.parse_block_rest()
    }
}

impl<'a> Parser<'a> {
    fn parse_type_name(&mut self) -> (r: Result<Option<ZType>, CompileError>)
        requires
            old(self).inv(),
        ensures
            final(self).agrees(*old(self), p_type_name(old(self).src@, old(self).state()), r),
    {
        proof {
            lemma_lex_token(self.src@, self.gi@);
        }
        let tok = match self.next() {
            Ok(t) => t,
            Err(e) => {
                return Err(e);
            },
        };
        match tok.kind {
            TokKind::Ident(name) => {
                if str_eq(name.as_str(), "any") {
                    return Ok(None);
                }
                match ZType::from_name(name.as_str()) {
                    Some(ty) => Ok(Some(ty)),
                    None => {
                        proof {
                            reveal_strlit("unknown type '");
                            reveal_strlit("' (expected int, string, bool or any)");
                        }
                        let mut msg = String::from_str("unknown type '");
                        push_str(&mut msg, name.as_str());
                        push_str(&mut msg, "' (expected int, string, bool or any)");
                        Err(self.error(msg, tok.span))
                    },
                }
            },
            other => {
                let msg = found_message(String::from_str("expected type name"), &other);
                Err(self.error(msg, tok.span))
            },
        }
    }

    /// Optional parameter type: `x<int>` -> `Some(ZType::Int)`. The
    /// explicit `any` type is dynamic and normalised to `None`.
    fn parse_opt_type(&mut self) -> (r: Result<Option<ZType>, CompileError>)
        requires
            old(self).inv(),
        ensures
            final(self).agrees(*old(self), p_opt_type(old(self).src@, old(self).state()), r),
    {
        let marked = match self.at(&TokKind::Lt) {
            Ok(b) => b,
            Err(e) => {
                return Err(e);
            },
        };
        if !marked {
            return Ok(None);
        }
        proof {
            lemma_lex_token(self.src@, self.gi@);
        }
        match self.next() {
            Ok(_) => {},
            Err(e) => {
                return Err(e);
            },
        }
        let ty = match self.parse_type_name() {
            Ok(t) => t,
            Err(e) => {
                return Err(e);
            },
        };
        match self.expect(&TokKind::Gt) {
            Ok(_) => {},
            Err(e) => {
                return Err(e);
            },
        }
        Ok(ty)
    }

    /// Optional return type: `-> int` (or `-> any`, same as omitted).
    fn parse_opt_return_type(&mut self) -> (r: Result<Option<ZType>, CompileError>)
        requires
            old(self).inv(),
        ensures
            final(self).agrees(*old(self), p_opt_ret(old(self).src@, old(self).state()), r),
    {
        let marked = match self.at(&TokKind::Arrow) {
            Ok(b) => b,
            Err(e) => {
                return Err(e);
            },
        };
        if !marked {
            return Ok(None);
        }
        proof {
            lemma_lex_token(self.src@, self.gi@);
        }
        match self.next() {
            Ok(_) => {},
            Err(e) => {
                return Err(e);
            },
        }
        self.parse_type_name()
    }

    /// Parameters up to `)`: `name<type>` separated by commas.
    fn parse_params(&mut self) -> (r: Result<Vec<Param>, CompileError>)
        requires
            old(self).inv(),
        ensures
            final(self).agrees(
                *old(self),
                p_params(old(self).src@, old(self).state(), Seq::empty()),
                ok_params(r),
            ),
    {
        let ghost s = self.src@;
        let ghost st0 = self.state();
        let mut params: Vec<Param> = Vec::new();
        proof {
            assert(params_view(params@) =~= Seq::empty());
        }
        loop
            invariant_except_break
                p_params(s, st0, Seq::empty()) == p_params(s, self.state(), params_view(params@)),
            invariant
                self.inv(),
                self.same_input(*old(self)),
                s == self.src@,
                st0 == old(self).state(),
                st0.i <= self.gi@,
            ensures
                p_params(s, st0, Seq::empty()) == Ok::<(Seq<ParamV>, PState), PErr>(
                    (params_view(params@), self.state()),
                ),
            decreases s.len() - self.gi@,
        {
            let (name, _) = match self.expect_ident("parameter name") {
                Ok(x) => x,
                Err(e) => {
                    return Err(e);
                },
            };
            let ty = match self.parse_opt_type() {
                Ok(t) => t,
                Err(e) => {
                    return Err(e);
                },
            };
            let more = match self.at(&TokKind::Comma) {
                Ok(b) => b,
                Err(e) => {
                    return Err(e);
                },
            };
            let param = Param { name, ty };
            proof {
                assert(params_view(params@.push(param)) =~= params_view(params@).push(
                    ParamV { name: param.name@, ty: param.ty },
                ));
            }
            params.push(param);
            if !more {
                break;
            }
            proof {
                lemma_lex_token(s, self.gi@);
            }
            match self.next() {
                Ok(_) => {},
                Err(e) => {
                    return Err(e);
                },
            }
        }
        Ok(params)
    }

    /// A function: the next token is `fn` or `func`.
    fn parse_function(&mut self) -> (r: Result<Function, CompileError>)
        requires
            old(self).inv(),
            tok_at(old(self).src@, old(self).gi@) matches Ok(t) && (t.kind is Fn || t.kind is Func),
        ensures
            final(self).agrees(*old(self), p_function(old(self).src@, old(self).state()), ok_function(r)),
            r is Ok ==> old(self).gi@ < final(self).gi@,
    {
        proof {
            lemma_lex_token(self.src@, self.gi@);
        }
        let kw = match self.next() {
            Ok(t) => t,
            Err(e) => {
                return Err(e);
            },
        };
        let is_func = kw.kind.is(&TokKind::Func);
        let (name, name_span) = match self.expect_ident("function name") {
            Ok(x) => x,
            Err(e) => {
                return Err(e);
            },
        };
        match self.expect(&TokKind::LParen) {
            Ok(_) => {},
            Err(e) => {
                return Err(e);
            },
        }
        let empty = match self.at(&TokKind::RParen) {
            Ok(b) => b,
            Err(e) => {
                return Err(e);
            },
        };
        let params = if empty {
            let none: Vec<Param> = Vec::new();
            proof {
                assert(params_view(none@) =~= Seq::empty());
            }
            none
        } else {
            match self.parse_params() {
                Ok(p) => p,
                Err(e) => {
                    return Err(e);
                },
            }
        };
        match self.expect(&TokKind::RParen) {
            Ok(_) => {},
            Err(e) => {
                return Err(e);
            },
        }
        let ret = match self.parse_opt_return_type() {
            Ok(t) => t,
            Err(e) => {
                return Err(e);
            },
        };
        let body = match self.parse_body(is_func) {
            Ok(b) => b,
            Err(e) => {
                return Err(e);
            },
        };
        Ok(Function { name, params, ret, body, span: Span::new(kw.span.start, name_span.end) })
    }

    /// A function body: a block, or for `func` a `:` followed by a block or
    /// a single expression that is implicitly returned.
    fn parse_body(&mut self, is_func: bool) -> (r: Result<Block, CompileError>)
        requires
            old(self).inv(),
        ensures
            final(self).agrees(*old(self), p_body(old(self).src@, old(self).state(), is_func), ok_block(r)),
    {
        if !is_func {
            return self.parse_block();
        }
        match self.expect(&TokKind::Colon) {
            Ok(_) => {},
            Err(e) => {
                return Err(e);
            },
        }
        let braced = match self.at(&TokKind::LBrace) {
            Ok(b) => b,
            Err(e) => {
                return Err(e);
            },
        };
        if braced {
            return self.parse_block();
        }
        let expr = match self.parse_expr() {
            Ok(e) => e,
            Err(e) => {
                return Err(e);
            },
        };
        let mut stmts: Vec<Stmt> = Vec::new();
        stmts.push(Stmt::Return { value: Some(expr) });
        proof {
            lemma_stmts_view_push(Seq::empty(), stmts@[0]);
            assert(Seq::<Stmt>::empty().push(stmts@[0]) =~= stmts@);
        }
        Ok(Block::Stmts(stmts))
    }
}

/// Parse a source file into a program.
pub fn parse(src: &str, file: &str) -> (r: Result<Program, CompileError>)
    requires
        byte_len(src@) < usize::MAX,
    ensures
        match (parse_spec(src@), r) {
            (Ok(items), Ok(p)) => p@ == (ProgramV { items }),
            (Err(pe), Err(e)) => err_is(e, pe, file@),
            _ => false,
        },
{
    let mut parser = Parser::new(src, file);
    parser.parse_program()
}

impl<'a> Parser<'a> {
    fn parse_program(&mut self) -> (r: Result<Program, CompileError>)
        requires
            old(self).inv(),
        ensures
            match (p_program(old(self).src@, old(self).state(), Seq::empty()), r) {
                (Ok(items), Ok(p)) => p@ == (ProgramV { items }),
                (Err(pe), Err(e)) => err_is(e, pe, old(self).file@),
                _ => false,
            },
    {
        let ghost s = self.src@;
        let ghost st0 = self.state();
        let mut items: Vec<Item> = Vec::new();
        proof {
            assert(items_view(items@) =~= Seq::empty());
        }
        loop
            invariant_except_break
                p_program(s, st0, Seq::empty()) == p_program(s, self.state(), items_view(items@)),
            invariant
                self.inv(),
                self.same_input(*old(self)),
                s == self.src@,
                st0 == old(self).state(),
            ensures
                p_program(s, st0, Seq::empty()) == Ok::<Seq<ItemV>, PErr>(items_view(items@)),
            decreases s.len() - self.gi@,
        {
            match self.fill0() {
                Ok(()) => {},
                Err(e) => {
                    return Err(e);
                },
            }
            if self.lookahead[0].kind.is(&TokKind::Eof) {
                break;
            }
            let item = if self.lookahead[0].kind.is(&TokKind::Import) {
                match self.parse_import() {
                    Ok(imp) => Item::Import(imp),
                    Err(e) => {
                        return Err(e);
                    },
                }
            } else if self.lookahead[0].kind.is(&TokKind::Fn) || self.lookahead[0].kind.is(
                &TokKind::Func,
            ) {
                match self.parse_function() {
                    Ok(f) => Item::Function(f),
                    Err(e) => {
                        return Err(e);
                    },
                }
            } else {
                let msg = found_message(
                    String::from_str("expected 'import', 'fn' or 'func' at top level"),
                    &self.lookahead[0].kind,
                );
                return Err(self.error(msg, self.lookahead[0].span));
            };
            proof {
                assert(items_view(items@.push(item)) =~= items_view(items@).push(item_view(item)));
            }
            items.push(item);
        }
        Ok(Program { items })
    }

    fn parse_import(&mut self) -> (r: Result<Import, CompileError>)
        requires
            old(self).inv(),
        ensures
            final(self).agrees(*old(self), p_import(old(self).src@, old(self).state()), ok_import(r)),
            r is Ok ==> old(self).gi@ < final(self).gi@,
    {
        let ghost s = self.src@;
        let kw = match self.expect(&TokKind::Import) {
            Ok(t) => t,
            Err(e) => {
                return Err(e);
            },
        };
        proof {
            lemma_lex_token(s, self.gi@);
        }
        let tok = match self.next() {
            Ok(t) => t,
            Err(e) => {
                return Err(e);
            },
        };
        let ghost st2 = self.state();
        let mut end = tok.span.end;
        let name = match tok.kind {
            TokKind::Ident(first) => {
                let ghost first_v = first@;
                let mut name = first;
                loop
                    invariant_except_break
                        p_import_segs(s, st2, first_v, tok.span.end as int) == p_import_segs(
                            s,
                            self.state(),
                            name@,
                            end as int,
                        ),
                    invariant
                        self.inv(),
                        self.same_input(*old(self)),
                        s == self.src@,
                        st2.i <= self.gi@,
                        p_import_segs(s, st2, first_v, tok.span.end as int) matches Err(pe)
                            ==> p_import(s, old(self).state()) == Err::<(ImportV, PState), PErr>(pe),
                    ensures
                        p_import_segs(s, st2, first_v, tok.span.end as int) == Ok::<
                            (Seq<char>, int, PState),
                            PErr,
                        >((name@, end as int, self.state())),
                    decreases s.len() - self.gi@,
                {
                    let dotted = match self.at(&TokKind::Dot) {
                        Ok(b) => b,
                        Err(e) => {
                            return Err(e);
                        },
                    };
                    if !dotted {
                        break;
                    }
                    proof {
                        lemma_lex_token(s, self.gi@);
                    }
                    match self.next() {
                        Ok(_) => {},
                        Err(e) => {
                            return Err(e);
                        },
                    }
                    proof {
                        lemma_lex_token(s, self.gi@);
                    }
                    let seg = match self.next() {
                        Ok(t) => t,
                        Err(e) => {
                            return Err(e);
                        },
                    };
                    match seg.kind {
                        TokKind::Ident(x) => {
                            let ghost before = name@;
                            push_char(&mut name, '.');
                            push_str(&mut name, x.as_str());
                            assert(name@ =~= before + seq!['.'] + x@);
                        },
                        TokKind::Int(n) => {
                            let ghost before = name@;
                            push_char(&mut name, '.');
                            push_int(&mut name, n);
                            assert(name@ =~= before + seq!['.'] + crate::text::int_text(n as int));
                        },
                        other => {
                            let msg = found_message(
                                String::from_str("expected header name segment"),
                                &other,
                            );
                            return Err(self.error(msg, seg.span));
                        },
                    }
                    end = seg.span.end;
                }
                name
            },
            TokKind::Str(text) => text,
            other => {
                let msg = found_message(String::from_str("expected header name"), &other);
                return Err(self.error(msg, tok.span));
            },
        };
        let semi = match self.at(&TokKind::Semi) {
            Ok(b) => b,
            Err(e) => {
                return Err(e);
            },
        };
        if semi {
            proof {
                lemma_lex_token(s, self.gi@);
            }
            match self.next() {
                Ok(t) => {
                    end = t.span.end;
                },
                Err(e) => {
                    return Err(e);
                },
            }
        }
        Ok(Import { name, span: Span::new(kw.span.start, end) })
    }
}

/// The items a program's view holds.
pub open spec fn items_view(items: Seq<Item>) -> Seq<ItemV> {
    Seq::new(items.len(), |i: int| item_view(items[i]))
}

/// The exec result of parsing an import, viewed.
pub open spec fn ok_import(r: Result<Import, CompileError>) -> Result<ImportV, CompileError> {
    match r {
        Ok(i) => Ok(ImportV { name: i.name@, span: i.span }),
        Err(e) => Err(e),
    }
}

/// The exec result of parsing parameters, viewed.
pub open spec fn ok_params(r: Result<Vec<Param>, CompileError>) -> Result<Seq<ParamV>, CompileError> {
    match r {
        Ok(v) => Ok(params_view(v@)),
        Err(e) => Err(e),
    }
}

/// The exec result of parsing a function, viewed.
pub open spec fn ok_function(r: Result<Function, CompileError>) -> Result<FunctionV, CompileError> {
    match r {
        Ok(f) => Ok(f@),
        Err(e) => Err(e),
    }
}

/// The exec result of parsing a statement, viewed.
pub open spec fn ok_stmt(r: Result<Stmt, CompileError>) -> Result<StmtV, CompileError> {
    match r {
        Ok(s) => Ok(s@),
        Err(e) => Err(e),
    }
}

/// The exec result of parsing a block, viewed.
pub open spec fn ok_block(r: Result<Block, CompileError>) -> Result<BlockV, CompileError> {
    match r {
        Ok(b) => Ok(b@),
        Err(e) => Err(e),
    }
}

pub proof fn lemma_stmts_view_push(ss: Seq<Stmt>, st: Stmt)
    ensures
        stmts_view(ss.push(st)) == stmts_view(ss).push(st@),
{
    assert(ss.push(st).subrange(0, ss.len() as int) =~= ss);
}

/// The exec result of parsing call arguments, viewed.
pub open spec fn ok_exprs(r: Result<Vec<Expr>, CompileError>) -> Result<Seq<ExprV>, CompileError> {
    match r {
        Ok(v) => Ok(exprs_view(v@)),
        Err(e) => Err(e),
    }
}

/// The exec result of parsing an expression, viewed.
pub open spec fn ok_expr(r: Result<Expr, CompileError>) -> Result<ExprV, CompileError> {
    match r {
        Ok(e) => Ok(e@),
        Err(e) => Err(e),
    }
}

/// The exec result of consuming an identifier, viewed.
pub open spec fn ok_name(r: Result<(String, Span), CompileError>) -> Result<(Seq<char>, Span), CompileError> {
    match r {
        Ok((n, s)) => Ok((n@, s)),
        Err(e) => Err(e),
    }
}

pub proof fn lemma_exprs_view_push(es: Seq<Expr>, e: Expr)
    ensures
        exprs_view(es.push(e)) == exprs_view(es).push(e@),
{
    assert(es.push(e).subrange(0, es.len() as int) =~= es);
}

/// The operator a token kind denotes, with its precedence.
fn binop_of_kind(k: &TokKind) -> (r: Option<(BinOp, u8)>)
    ensures
        match (binop_of(k@), r) {
            (None, None) => true,
            (Some((op, prec)), Some((op2, prec2))) => op == op2 && prec == prec2 && prec <= 6,
            _ => false,
        },
{
    match k {
        TokKind::Plus => Some((BinOp::Add, 5)),
        TokKind::Minus => Some((BinOp::Sub, 5)),
        TokKind::Star => Some((BinOp::Mul, 6)),
        TokKind::Slash => Some((BinOp::Div, 6)),
        TokKind::Percent => Some((BinOp::Rem, 6)),
        TokKind::EqEq => Some((BinOp::Eq, 3)),
        TokKind::BangEq => Some((BinOp::Ne, 3)),
        TokKind::Lt => Some((BinOp::Lt, 4)),
        TokKind::Gt => Some((BinOp::Gt, 4)),
        TokKind::Le => Some((BinOp::Le, 4)),
        TokKind::Ge => Some((BinOp::Ge, 4)),
        TokKind::And => Some((BinOp::And, 2)),
        TokKind::Or => Some((BinOp::Or, 1)),
        _ => None,
    }
}

/// `prefix` followed by `, found` and the kind's rendering.
fn found_message(prefix: String, kind: &TokKind) -> (m: String)
    ensures
        m@ == found(prefix@, kind@),
{
    proof {
        reveal_strlit(", found ");
    }
    let mut m = prefix;
    push_str(&mut m, ", found ");
    kind.push_debug(&mut m);
    m
}

} // verus!
