//! Rust code generation for the Zero language.
//!
//! The generated output is a single self-contained `.rs` file:
//! ZVal runtime -> `use` imports -> inlined raw headers -> runtime helpers
//! -> functions. Every Zero variable is a dynamic `ZVal`; every function
//! takes `ZVal` parameters and returns `ZVal`.
//!
//! The text emitted for each construct is given by the `spec` module.

pub mod emit;
pub mod ready;
pub mod runtime;
pub mod spec;

use vstd::prelude::*;

use crate::ast::{
    Function, FunctionV, Item, ItemV, Program, arms_view, exprs_view, opt_expr_view, stmts_view, BinOp, Block, BlockV, Expr, ExprV, ScopeKind,
    Stmt, StmtV, UnOp, ZType,
};
use crate::import::stdlib::builtin_use;
use crate::import::{functions_of_items, Loader};
use crate::scope::spec::top_stmts;
use crate::scope::spec::{declare, lookup, param_scope, ScopeV};
use crate::scope::{top_level, chain_declare, chain_lookup, chain_view, lemma_arms_view_index, lemma_exprs_view_index, lemma_stmts_view_index, scope_view};
use crate::text::{push_char, push_int, push_str, str_eq};
use emit::{escape_rust_string, ends_with_return, join, lemma_join_push, lines_of, push_indent, rust_block, trim_end, INDENT};
use spec::{
    assembled, builtin_imports, g_headers, g_top, generated, header_imports, imports_text,
    start_state,
    g_function, g_functions, g_param_checks, gen_ready,
    arms_calls_ok, block_calls_ok, g_block_body, g_cases, g_else_ifs, g_nested, g_raw, g_raw_lines,
    g_stmt, g_stmts, g_try_catch, g_try_closure, nest_arms, nest_block, nest_stmt, nest_stmts, return_line, stmt_calls_ok,
    stmts_calls_ok,
    binop_code, calls_ok, calls_ok_all, conversion_helper, float_literal_spec, g_any_sys, g_codes,
    g_emit_expr, g_expr, g_first_arg, g_io_arg, g_line, any_float_mark, any_inf, ztype_code_spec, GenState,
};

verus! {

broadcast use vstd::seq_lib::group_seq_properties;

pub struct Codegen<'a> {
    src_name: &'a str,
    imports: Vec<String>,
    body: String,
    indent: usize,
    /// True when the `io` standard header has been imported.
    io_imported: bool,
    used_call_sys: bool,
    emitted_builtins: Vec<String>,
    /// Zero variables declared per active block: name -> immutable flag.
    /// Controls `let`/`let mut` on first declaration vs plain reassignment.
    blocks: Vec<Vec<(String, bool)>>,
    /// Declared return type of the function being generated (None outside).
    current_ret: Option<ZType>,
}

impl<'a> Codegen<'a> {
    /// The generation state, in the terms of the `spec` module.
    pub closed spec fn gstate(&self) -> GenState {
        GenState {
            body: self.body@,
            indent: self.indent as nat,
            blocks: chain_view(self.blocks@),
            ret: self.current_ret,
            io: self.io_imported,
            sys: self.used_call_sys,
        }
    }

    /// What generation leaves alone: the header parts of the output.
    closed spec fn same_frame(&self, old: Codegen<'a>) -> bool {
        &&& self.src_name == old.src_name
        &&& self.imports@ == old.imports@
        &&& self.emitted_builtins@ == old.emitted_builtins@
    }

    fn line(&mut self, text: &str)
        ensures
            final(self).gstate() == g_line(old(self).gstate(), text@),
            final(self).same_frame(*old(self)),
            final(self).blocks@ == old(self).blocks@,
    {
        push_indent(&mut self.body, self.indent);
        push_str(&mut self.body, text);
        push_char(&mut self.body, '\n');
        proof {
            assert(self.body@ =~= old(self).body@ + crate::codegen::emit::indent_text(
                old(self).indent as nat,
            ) + text@ + "\n"@) by {
                reveal_strlit("\n");
            }
        }
    }

    fn gen_expr(&mut self, expr: &Expr) -> (code: String)
        requires
            calls_ok(old(self).io_imported, expr@),
            old(self).indent < usize::MAX,
        ensures
            (code@, final(self).gstate()) == g_emit_expr(old(self).gstate(), expr@),
            final(self).same_frame(*old(self)),
            final(self).blocks@ == old(self).blocks@,
        decreases expr, 3int,
    {
        proof {
            reveal_strlit("ZVal::Int(");
            reveal_strlit(")");
            reveal_strlit("ZVal::Float(");
            reveal_strlit("ZVal::Str(");
            reveal_strlit(".into())");
            reveal_strlit("ZVal::Bool(");
            reveal_strlit("true");
            reveal_strlit("false");
            reveal_strlit("ZVal::Nil");
            reveal_strlit(".clone()");
            reveal_strlit("(&");
        }
        match expr {
            Expr::Int(v, _) => {
                let mut out = String::from_str("ZVal::Int(");
                push_int(&mut out, *v);
                push_str(&mut out, ")");
                out
            },
            Expr::Float(t, _) => {
                let mut out = String::from_str("ZVal::Float(");
                let lit = float_literal(t.as_str());
                push_str(&mut out, lit.as_str());
                push_str(&mut out, ")");
                out
            },
            Expr::Str(s, _) => {
                let mut out = String::from_str("ZVal::Str(");
                let esc = escape_rust_string(s.as_str());
                push_str(&mut out, esc.as_str());
                push_str(&mut out, ".into())");
                out
            },
            Expr::Bool(b, _) => {
                let mut out = String::from_str("ZVal::Bool(");
                push_str(&mut out, if *b { "true" } else { "false" });
                push_str(&mut out, ")");
                out
            },
            Expr::Nil(..) => String::from_str("ZVal::Nil"),
            Expr::Ident(name, _) => {
                let mut out = name.clone();
                push_str(&mut out, ".clone()");
                out
            },
            Expr::TypeTo { ty, value, .. } => {
                let arg = self.gen_expr(value);
                let mut out = String::from_str(conversion_name(*ty));
                push_str(&mut out, "(&");
                push_str(&mut out, arg.as_str());
                push_str(&mut out, ")");
                out
            },
            Expr::Call { .. } => self.gen_call(expr),
            Expr::Binary { op, lhs, rhs, .. } => {
                let l = self.gen_expr(lhs);
                let r = self.gen_expr(rhs);
                binop_text(*op, l, r)
            },
            Expr::Unary { op, operand, .. } => {
                let o = self.gen_expr(operand);
                match op {
                    UnOp::Neg => {
                        let mut out = o;
                        push_str(&mut out, ".neg()");
                        proof {
                            reveal_strlit(".neg()");
                        }
                        out
                    },
                    UnOp::Not => {
                        proof {
                            reveal_strlit("ZVal::Bool(!");
                            reveal_strlit(".to_bool())");
                        }
                        let mut out = String::from_str("ZVal::Bool(!");
                        push_str(&mut out, o.as_str());
                        push_str(&mut out, ".to_bool())");
                        out
                    },
                }
            },
        }
    }

    /// A call: builtins and `io` functions get their own shapes.
    fn gen_call(&mut self, expr: &Expr) -> (code: String)
        requires
            expr is Call,
            calls_ok(old(self).io_imported, expr@),
            old(self).indent < usize::MAX,
        ensures
            (code@, final(self).gstate()) == g_emit_expr(old(self).gstate(), expr@),
            final(self).same_frame(*old(self)),
            final(self).blocks@ == old(self).blocks@,
        decreases expr, 2int,
    {
        proof {
            reveal_strlit("call_rust");
            reveal_strlit("call_sys");
            reveal_strlit("print");
            reveal_strlit("input");
            reveal_strlit("input_s");
            reveal_strlit("set_stream");
            reveal_strlit("/* invalid call_rust */");
            reveal_strlit("__zero_sys(");
            reveal_strlit(")");
            reveal_strlit("(");
            reveal_strlit(", &[");
            reveal_strlit("])");
            reveal_strlit("input_s()");
            reveal_strlit("Some(");
            reveal_strlit("None");
            reveal_strlit("set_stream(");
            reveal_strlit(", ");
        }
        match expr {
            Expr::Call { callee, args, .. } => {
                let ghost av = exprs_view(args@);
                proof {
                    lemma_exprs_view_index(args@);
                    assert(calls_ok_all(self.io_imported, av));
                    lemma_calls_ok_all(self.io_imported, av);
                    if av.len() > 0 {
                        assert(calls_ok(self.io_imported, av[0]));
                        assert(av[0] == args@[0]@);
                        assert(g_first_arg(self.io_imported, self.indent as nat, av) == g_io_arg(
                            self.io_imported,
                            self.indent as nat,
                            av[0],
                        ));
                    }
                    if av.len() > 1 {
                        assert(calls_ok(self.io_imported, av[1]));
                        assert(av[1] == args@[1]@);
                    }
                }
                let c = callee.as_str();
                if str_eq(c, "call_rust") {
                    return match &args[0] {
                        Expr::Str(raw, _) => rust_block(raw.as_str(), self.indent),
                        _ => String::from_str("/* invalid call_rust */"),
                    };
                }
                if str_eq(c, "call_sys") {
                    proof {
                        assert(decreases_to!(args => args@));
                        assert(decreases_to!(args@ => args@[0]));
                    }
                    let arg = self.gen_io_str_arg(&args[0]);
                    self.used_call_sys = true;
                    let mut out = String::from_str("__zero_sys(");
                    push_str(&mut out, arg.as_str());
                    push_str(&mut out, ")");
                    return out;
                }
                if self.io_imported && (str_eq(c, "print") || str_eq(c, "input")) {
                    proof {
                        assert(decreases_to!(args => args@));
                        assert(decreases_to!(args@ => args@[0]));
                    }
                    let fmt = self.gen_io_str_arg(&args[0]);
                    let rest = self.gen_args(args, 1);
                    proof {
                        assert(av.subrange(1, av.len() as int) =~= av.subrange(1, av.len() as int));
                    }
                    let mut out = String::from_str(c);
                    push_str(&mut out, "(");
                    push_str(&mut out, fmt.as_str());
                    push_str(&mut out, ", &[");
                    push_str(&mut out, rest.as_str());
                    push_str(&mut out, "])");
                    return out;
                }
                if self.io_imported && str_eq(c, "input_s") {
                    return String::from_str("input_s()");
                }
                if self.io_imported && str_eq(c, "set_stream") {
                    proof {
                        assert(decreases_to!(args => args@));
                        assert(decreases_to!(args@ => args@[0]));
                    }
                    let kind = self.gen_io_str_arg(&args[0]);
                    let name = if args.len() >= 2 {
                        proof {
                            assert(decreases_to!(args@ => args@[1]));
                        }
                        let n = self.gen_io_str_arg(&args[1]);
                        let mut w = String::from_str("Some(");
                        push_str(&mut w, n.as_str());
                        push_str(&mut w, ")");
                        w
                    } else {
                        String::from_str("None")
                    };
                    let mut out = String::from_str("set_stream(");
                    push_str(&mut out, kind.as_str());
                    push_str(&mut out, ", ");
                    push_str(&mut out, name.as_str());
                    push_str(&mut out, ")");
                    return out;
                }
                let all = self.gen_args(args, 0);
                proof {
                    assert(av.subrange(0, av.len() as int) =~= av);
                }
                let mut out = String::from_str(c);
                push_str(&mut out, "(");
                push_str(&mut out, all.as_str());
                push_str(&mut out, ")");
                out
            },
            _ => String::new(),
        }
    }

    /// The codes of `args[from..]`, joined with `", "`.
    fn gen_args(&mut self, args: &Vec<Expr>, from: usize) -> (code: String)
        requires
            from <= args@.len(),
            calls_ok_all(old(self).io_imported, exprs_view(args@)),
            old(self).indent < usize::MAX,
        ensures
            ({
                let tail = exprs_view(args@).subrange(from as int, args@.len() as int);
                let g = old(self).gstate();
                &&& code@ == join(g_codes(g.io, g.indent, tail), ", "@)
                &&& final(self).gstate() == (GenState { sys: g.sys || g_any_sys(g.io, g.indent, tail), ..g })
            }),
            final(self).same_frame(*old(self)),
            final(self).blocks@ == old(self).blocks@,
        decreases args, 1int,
    {
        let ghost av = exprs_view(args@);
        let ghost g0 = self.gstate();
        proof {
            lemma_exprs_view_index(args@);
            lemma_calls_ok_all(self.io_imported, av);
        }
        let mut out = String::new();
        let mut k = from;
        let ghost tail = av.subrange(from as int, av.len() as int);
        proof {
            lemma_codes_split(g0.io, g0.indent, tail, 0);
            assert(tail.subrange(0, 0) =~= Seq::<ExprV>::empty());
        }
        while k < args.len()
            invariant
                from <= k <= args@.len(),
                av == exprs_view(args@),
                av.len() == args@.len(),
                forall|j: int| 0 <= j < args@.len() ==> #[trigger] av[j] == args@[j]@,
                forall|j: int| 0 <= j < av.len() ==> calls_ok(g0.io, #[trigger] av[j]),
                tail == av.subrange(from as int, av.len() as int),
                self.same_frame(*old(self)),
                self.blocks@ == old(self).blocks@,
                g0 == old(self).gstate(),
                g0.indent < usize::MAX,
                out@ == join(g_codes(g0.io, g0.indent, tail.subrange(0, k - from)), ", "@),
                self.gstate() == (GenState {
                    sys: g0.sys || g_any_sys(g0.io, g0.indent, tail.subrange(0, k - from)),
                    ..g0
                }),
            decreases args@.len() - k,
        {
            proof {
                assert(decreases_to!(args => args@));
                assert(decreases_to!(args@ => args@[k as int]));
            }
            let code = self.gen_expr(&args[k]);
            proof {
                assert(tail.subrange(0, k + 1 - from) =~= tail.subrange(0, k - from).push(av[k as int]));
                lemma_codes_push(g0.io, g0.indent, tail.subrange(0, k - from), av[k as int]);
                lemma_join_push(g_codes(g0.io, g0.indent, tail.subrange(0, k - from)), ", "@, code@);
            }
            if k > from {
                push_str(&mut out, ", ");
            }
            push_str(&mut out, code.as_str());
            proof {
                reveal_strlit(", ");
            }
            k = k + 1;
        }
        proof {
            assert(tail.subrange(0, args@.len() - from) =~= tail);
        }
        out
    }

    /// Render an argument that must reach Rust as a `&str`: string literals
    /// stay literals, everything else is stringified via the ZVal runtime.
    fn gen_io_str_arg(&mut self, expr: &Expr) -> (code: String)
        requires
            calls_ok(old(self).io_imported, expr@),
            old(self).indent < usize::MAX,
        ensures
            ({
                let (c, s) = g_io_arg(old(self).gstate().io, old(self).gstate().indent, expr@);
                &&& code@ == c
                &&& final(self).gstate() == (GenState { sys: old(self).gstate().sys || s, ..old(self).gstate() })
            }),
            final(self).same_frame(*old(self)),
            final(self).blocks@ == old(self).blocks@,
        decreases expr, 4int,
    {
        match expr {
            Expr::Str(s, _) => escape_rust_string(s.as_str()),
            _ => {
                proof {
                    reveal_strlit("&");
                    reveal_strlit(".to_rust_string()");
                }
                let code = self.gen_expr(expr);
                let mut out = String::from_str("&");
                push_str(&mut out, code.as_str());
                push_str(&mut out, ".to_rust_string()");
                out
            },
        }
    }
}

impl<'a> Codegen<'a> {
    /// Generation may enter `n` more indentation levels from here.
    closed spec fn room(&self, n: nat) -> bool {
        self.indent + n + 2 <= usize::MAX
    }

    /// `self` went on from `old` with the same blocks as before, bar the
    /// innermost one (which gained declarations).
    closed spec fn same_outer(&self, old: Codegen<'a>) -> bool {
        &&& self.same_frame(old)
        &&& self.blocks@.len() == old.blocks@.len()
        &&& self.blocks@.drop_last() == old.blocks@.drop_last()
        &&& self.indent == old.indent
        &&& self.current_ret == old.current_ret
    }

    /// `self` went on from `old` with blocks, indentation and return type
    /// restored.
    closed spec fn restored(&self, old: Codegen<'a>) -> bool {
        &&& self.same_frame(old)
        &&& self.blocks@ == old.blocks@
        &&& self.indent == old.indent
        &&& self.current_ret == old.current_ret
    }

    /// Open a Rust block declaring `fresh`.
    fn push_block(&mut self, fresh: Vec<(String, bool)>)
        ensures
            final(self).blocks@ == old(self).blocks@.push(fresh),
            final(self).gstate() == (GenState {
                blocks: old(self).gstate().blocks.push(scope_view(fresh@)),
                ..old(self).gstate()
            }),
            final(self).same_frame(*old(self)),
            final(self).indent == old(self).indent,
            final(self).current_ret == old(self).current_ret,
            final(self).io_imported == old(self).io_imported,
    {
        self.blocks.push(fresh);
        proof {
            assert(chain_view(self.blocks@) =~= chain_view(old(self).blocks@).push(scope_view(fresh@)));
        }
    }

    fn gen_stmts(&mut self, stmts: &Vec<Stmt>)
        requires
            old(self).blocks@.len() >= 1,
            stmts_calls_ok(old(self).io_imported, stmts_view(stmts@)),
            old(self).room(nest_stmts(stmts_view(stmts@))),
        ensures
            final(self).gstate() == g_stmts(old(self).gstate(), stmts_view(stmts@)),
            final(self).same_outer(*old(self)),
            final(self).io_imported == old(self).io_imported,
        decreases stmts, 0int,
    {
        let ghost sv = stmts_view(stmts@);
        let ghost g0 = self.gstate();
        proof {
            lemma_stmts_view_index(stmts@);
            assert(sv.subrange(0, sv.len() as int) =~= sv);
        }
        let mut k: usize = 0;
        while k < stmts.len()
            invariant
                k <= stmts@.len(),
                sv == stmts_view(stmts@),
                sv.len() == stmts@.len(),
                forall|j: int| 0 <= j < stmts@.len() ==> #[trigger] sv[j] == stmts@[j]@,
                g0 == old(self).gstate(),
                self.same_outer(*old(self)),
                self.io_imported == old(self).io_imported,
                old(self).blocks@.len() >= 1,
                stmts_calls_ok(self.io_imported, sv.subrange(k as int, sv.len() as int)),
                self.room(nest_stmts(sv.subrange(k as int, sv.len() as int))),
                g_stmts(g0, sv) == g_stmts(self.gstate(), sv.subrange(k as int, sv.len() as int)),
            decreases stmts@.len() - k,
        {
            proof {
                assert(sv.subrange(k as int, sv.len() as int).subrange(1, sv.len() - k) =~= sv.subrange(
                    k + 1,
                    sv.len() as int,
                ));
                assert(decreases_to!(stmts => stmts@));
                assert(decreases_to!(stmts@ => stmts@[k as int]));
            }
            self.gen_stmt(&stmts[k]);
            k = k + 1;
        }
    }

    fn gen_stmt(&mut self, stmt: &Stmt)
        requires
            old(self).blocks@.len() >= 1,
            stmt_calls_ok(old(self).io_imported, stmt@),
            old(self).room(nest_stmt(stmt@)),
        ensures
            final(self).gstate() == g_stmt(old(self).gstate(), stmt@),
            final(self).same_outer(*old(self)),
            final(self).io_imported == old(self).io_imported,
        decreases stmt, 1int,
    {
        match stmt {
            Stmt::Assign { name, value, is_const, span } => {
                let expr = self.gen_expr(value);
                let declared = chain_lookup(&self.blocks, name.as_str()).is_some();
                if declared {
                    let mut text = name.clone();
                    push_str(&mut text, " = ");
                    push_str(&mut text, expr.as_str());
                    push_str(&mut text, ";");
                    self.line(text.as_str());
                } else {
                    chain_declare(&mut self.blocks, name.clone(), *is_const);
                    let mut text = String::from_str(if *is_const { "let" } else { "let mut" });
                    push_str(&mut text, " ");
                    push_str(&mut text, name.as_str());
                    push_str(&mut text, ": ZVal = ");
                    push_str(&mut text, expr.as_str());
                    push_str(&mut text, ";");
                    self.line(text.as_str());
                }
            },
            Stmt::Expr(e) => {
                let mut code = self.gen_expr(e);
                push_str(&mut code, ";");
                self.line(code.as_str());
            },
            Stmt::Return { value } => {
                let expr = match value {
                    Some(e) => self.gen_expr(e),
                    None => String::from_str("ZVal::Nil"),
                };
                let text = return_text(self.current_ret, expr);
                self.line(text.as_str());
            },
            Stmt::Break { .. } => self.line("break;"),
            Stmt::Continue { .. } => self.line("continue;"),
            Stmt::Scope { .. } => self.gen_scope(stmt),
            Stmt::If { .. } => self.gen_if(stmt),
            Stmt::While { .. } => self.gen_loop(stmt),
            Stmt::For { .. } => self.gen_loop(stmt),
            Stmt::Each { .. } => self.gen_each(stmt),
            Stmt::Switch { .. } => self.gen_switch(stmt),
            Stmt::Try { .. } => self.gen_try(stmt),
        }
    }

    fn gen_scope(&mut self, stmt: &Stmt)
        requires
            stmt is Scope,
            old(self).blocks@.len() >= 1,
            stmt_calls_ok(old(self).io_imported, stmt@),
            old(self).room(nest_stmt(stmt@)),
        ensures
            final(self).gstate() == g_stmt(old(self).gstate(), stmt@),
            final(self).restored(*old(self)),
            final(self).io_imported == old(self).io_imported,
        decreases stmt, 0int,
    {
        match stmt {
            Stmt::Scope { kind, block, .. } => {
                self.line("{");
                self.indent = self.indent + 1;
                let fresh: Vec<(String, bool)> = Vec::new();
                proof {
                    assert(scope_view(fresh@) =~= Seq::empty());
                }
                self.push_block(fresh);
                match (kind, block) {
                    (ScopeKind::HighLevel, Block::Stmts(stmts)) => self.gen_stmts(stmts),
                    (ScopeKind::LowLevel, Block::Raw(text)) => self.gen_raw(text.as_str()),
                    _ => self.line("// unreachable: malformed scope block"),
                }
                let _ = self.blocks.pop();
                proof {
                    assert(self.blocks@ =~= old(self).blocks@);
                }
                self.indent = self.indent - 1;
                self.line("}");
            },
            _ => {},
        }
    }

    /// The lines of a raw block: each line without trailing whitespace,
    /// empty lines as bare newlines.
    fn gen_raw(&mut self, text: &str)
        ensures
            final(self).gstate() == g_raw(old(self).gstate(), text@),
            final(self).restored(*old(self)),
            final(self).io_imported == old(self).io_imported,
    {
        let lines = lines_of(text);
        let ghost ls = crate::codegen::emit::lines_from(text@, 0);
        let ghost g0 = self.gstate();
        proof {
            assert(ls.subrange(0, ls.len() as int) =~= ls);
        }
        let mut k: usize = 0;
        while k < lines.len()
            invariant
                k <= lines@.len(),
                ls.len() == lines@.len(),
                forall|j: int| 0 <= j < lines@.len() ==> #[trigger] lines@[j]@ == ls[j],
                self.restored(*old(self)),
                self.io_imported == old(self).io_imported,
                g0 == old(self).gstate(),
                g_raw_lines(g0, ls) == g_raw_lines(self.gstate(), ls.subrange(k as int, ls.len() as int)),
            decreases lines@.len() - k,
        {
            proof {
                assert(ls.subrange(k as int, ls.len() as int).subrange(1, ls.len() - k) =~= ls.subrange(
                    k + 1,
                    ls.len() as int,
                ));
            }
            let trimmed = trim_end(lines[k].as_str());
            if trimmed.as_str().is_empty() {
                let ghost before = self.body@;
                push_char(&mut self.body, '\n');
                proof {
                    assert(self.body@ =~= before + "\n"@) by {
                        reveal_strlit("\n");
                    }
                }
            } else {
                self.line(trimmed.as_str());
            }
            k = k + 1;
        }
    }

    fn gen_if(&mut self, stmt: &Stmt)
        requires
            stmt is If,
            old(self).blocks@.len() >= 1,
            stmt_calls_ok(old(self).io_imported, stmt@),
            old(self).room(nest_stmt(stmt@)),
        ensures
            final(self).gstate() == g_stmt(old(self).gstate(), stmt@),
            final(self).restored(*old(self)),
            final(self).io_imported == old(self).io_imported,
        decreases stmt, 0int,
    {
        match stmt {
            Stmt::If { cond, then, else_ifs, else_branch } => {
                let c = self.gen_expr(cond);
                let mut head = String::from_str("if ");
                push_str(&mut head, c.as_str());
                push_str(&mut head, ".to_bool() {");
                self.line(head.as_str());
                self.gen_nested(then, None);
                self.gen_else_ifs(else_ifs);
                match else_branch {
                    Some(b) => {
                        self.line("} else {");
                        self.gen_nested(b, None);
                    },
                    None => {},
                }
                self.line("}");
            },
            _ => {},
        }
    }

    /// `} else if cond {` arms of an `if`.
    fn gen_else_ifs(&mut self, arms: &Vec<(Expr, Block)>)
        requires
            old(self).blocks@.len() >= 1,
            arms_calls_ok(old(self).io_imported, arms_view(arms@)),
            old(self).room(1 + nest_arms(arms_view(arms@))),
        ensures
            final(self).gstate() == g_else_ifs(old(self).gstate(), arms_view(arms@)),
            final(self).restored(*old(self)),
            final(self).io_imported == old(self).io_imported,
        decreases arms, 0int,
    {
        let ghost av = arms_view(arms@);
        let ghost g0 = self.gstate();
        proof {
            lemma_arms_view_index(arms@);
            assert(av.subrange(0, av.len() as int) =~= av);
        }
        let mut k: usize = 0;
        while k < arms.len()
            invariant
                k <= arms@.len(),
                av == arms_view(arms@),
                av.len() == arms@.len(),
                forall|j: int| 0 <= j < arms@.len() ==> #[trigger] av[j] == (arms@[j].0@, arms@[j].1@),
                self.restored(*old(self)),
                self.io_imported == old(self).io_imported,
                old(self).blocks@.len() >= 1,
                g0 == old(self).gstate(),
                self.gstate().indent == g0.indent,
                arms_calls_ok(self.io_imported, av.subrange(k as int, av.len() as int)),
                self.room(1 + nest_arms(av.subrange(k as int, av.len() as int))),
                g_else_ifs(g0, av) == g_else_ifs(self.gstate(), av.subrange(k as int, av.len() as int)),
            decreases arms@.len() - k,
        {
            proof {
                assert(av.subrange(k as int, av.len() as int).subrange(1, av.len() - k) =~= av.subrange(
                    k + 1,
                    av.len() as int,
                ));
                assert(decreases_to!(arms => arms@));
                assert(decreases_to!(arms@ => arms@[k as int]));
                assert(decreases_to!(arms@[k as int] => arms@[k as int].1));
            }
            let c = self.gen_expr(&arms[k].0);
            let mut head = String::from_str("} else if ");
            push_str(&mut head, c.as_str());
            push_str(&mut head, ".to_bool() {");
            self.line(head.as_str());
            self.gen_nested(&arms[k].1, None);
            k = k + 1;
        }
    }

    /// The `case` arms of a `switch`.
    fn gen_cases(&mut self, arms: &Vec<(Expr, Block)>)
        requires
            old(self).blocks@.len() >= 1,
            arms_calls_ok(old(self).io_imported, arms_view(arms@)),
            old(self).room(1 + nest_arms(arms_view(arms@))),
        ensures
            final(self).gstate() == g_cases(old(self).gstate(), arms_view(arms@), true),
            final(self).restored(*old(self)),
            final(self).io_imported == old(self).io_imported,
        decreases arms, 0int,
    {
        let ghost av = arms_view(arms@);
        let ghost g0 = self.gstate();
        proof {
            lemma_arms_view_index(arms@);
            assert(av.subrange(0, av.len() as int) =~= av);
        }
        let mut k: usize = 0;
        while k < arms.len()
            invariant
                k <= arms@.len(),
                av == arms_view(arms@),
                av.len() == arms@.len(),
                forall|j: int| 0 <= j < arms@.len() ==> #[trigger] av[j] == (arms@[j].0@, arms@[j].1@),
                self.restored(*old(self)),
                self.io_imported == old(self).io_imported,
                old(self).blocks@.len() >= 1,
                g0 == old(self).gstate(),
                self.gstate().indent == g0.indent,
                arms_calls_ok(self.io_imported, av.subrange(k as int, av.len() as int)),
                self.room(1 + nest_arms(av.subrange(k as int, av.len() as int))),
                g_cases(g0, av, true) == g_cases(self.gstate(), av.subrange(k as int, av.len() as int), k == 0),
            decreases arms@.len() - k,
        {
            proof {
                assert(av.subrange(k as int, av.len() as int).subrange(1, av.len() - k) =~= av.subrange(
                    k + 1,
                    av.len() as int,
                ));
                assert(decreases_to!(arms => arms@));
                assert(decreases_to!(arms@ => arms@[k as int]));
                assert(decreases_to!(arms@[k as int] => arms@[k as int].1));
            }
            let a = self.gen_expr(&arms[k].0);
            let mut head = String::from_str(if k == 0 { "if __zero_sw == " } else { "} else if __zero_sw == " });
            push_str(&mut head, a.as_str());
            push_str(&mut head, " {");
            self.line(head.as_str());
            self.gen_nested(&arms[k].1, None);
            k = k + 1;
        }
    }

    /// A block one indentation level deeper, then back.
    fn gen_nested(&mut self, block: &Block, extra: Option<(&str, &str)>)
        requires
            old(self).blocks@.len() >= 1,
            block_calls_ok(old(self).io_imported, block@),
            old(self).room(1 + nest_block(block@)),
        ensures
            final(self).gstate() == g_nested(old(self).gstate(), block@, opt_pair_view(extra)),
            final(self).restored(*old(self)),
            final(self).io_imported == old(self).io_imported,
        decreases block, 1int,
    {
        self.indent = self.indent + 1;
        self.gen_block_body(block, extra);
        self.indent = self.indent - 1;
    }

    /// Emit a block body inside a fresh Rust block. `extra` is a
    /// `(name, init_expr)` pair for a variable pre-declared in that block
    /// (loop / catch variables).
    fn gen_block_body(&mut self, block: &Block, extra: Option<(&str, &str)>)
        requires
            old(self).blocks@.len() >= 1,
            block_calls_ok(old(self).io_imported, block@),
            old(self).room(nest_block(block@)),
        ensures
            final(self).gstate() == g_block_body(old(self).gstate(), block@, opt_pair_view(extra)),
            final(self).restored(*old(self)),
            final(self).io_imported == old(self).io_imported,
        decreases block, 0int,
    {
        let mut fresh: Vec<(String, bool)> = Vec::new();
        match extra {
            Some((v, _)) => {
                fresh.push((String::from_str(v), false));
            },
            None => {},
        }
        proof {
            match extra {
                Some((v, _)) => {
                    assert(scope_view(fresh@) =~= seq![(v@, false)]);
                },
                None => {
                    assert(scope_view(fresh@) =~= Seq::empty());
                },
            }
        }
        self.push_block(fresh);
        match extra {
            Some((v, init)) => {
                let mut text = String::from_str("let ");
                push_str(&mut text, v);
                push_str(&mut text, ": ZVal = ");
                push_str(&mut text, init);
                push_str(&mut text, ";");
                self.line(text.as_str());
            },
            None => {},
        }
        match block {
            Block::Stmts(stmts) => self.gen_stmts(stmts),
            Block::Raw(text) => self.gen_raw(text.as_str()),
        }
        let _ = self.blocks.pop();
        proof {
            assert(self.blocks@ =~= old(self).blocks@);
        }
    }

    /// `while` and `for` loops.
    fn gen_loop(&mut self, stmt: &Stmt)
        requires
            stmt is While || stmt is For,
            old(self).blocks@.len() >= 1,
            stmt_calls_ok(old(self).io_imported, stmt@),
            old(self).room(nest_stmt(stmt@)),
        ensures
            final(self).gstate() == g_stmt(old(self).gstate(), stmt@),
            final(self).restored(*old(self)),
            final(self).io_imported == old(self).io_imported,
        decreases stmt, 0int,
    {
        match stmt {
            Stmt::While { cond, body } => {
                let c = self.gen_expr(cond);
                let mut head = String::from_str("while ");
                push_str(&mut head, c.as_str());
                push_str(&mut head, ".to_bool() {");
                self.line(head.as_str());
                self.gen_nested(body, None);
                self.line("}");
            },
            Stmt::For { var, start, end, inclusive, body } => {
                let s = self.gen_expr(start);
                let e = self.gen_expr(end);
                let mut first = String::from_str("let __zero_loop_start = ");
                push_str(&mut first, s.as_str());
                push_str(&mut first, ".as_int().unwrap_or(0);");
                self.line(first.as_str());
                let mut second = String::from_str("let __zero_loop_end = ");
                push_str(&mut second, e.as_str());
                push_str(&mut second, ".as_int().unwrap_or(0)");
                if *inclusive {
                    push_str(&mut second, " + 1");
                }
                push_str(&mut second, ";");
                proof {
                    if !*inclusive {
                        assert(second@ =~= "let __zero_loop_end = "@ + e@ + ".as_int().unwrap_or(0)"@ + Seq::<char>::empty() + ";"@);
                    }
                }
                self.line(second.as_str());
                self.line("for __zero_i in __zero_loop_start..__zero_loop_end {");
                self.gen_nested(body, Some((var.as_str(), "ZVal::Int(__zero_i)")));
                self.line("}");
            },
            _ => {},
        }
    }

    /// `each var in iter`: over `0..n` for an integer, over the characters
    /// of a string.
    fn gen_each(&mut self, stmt: &Stmt)
        requires
            stmt is Each,
            old(self).blocks@.len() >= 1,
            stmt_calls_ok(old(self).io_imported, stmt@),
            old(self).room(nest_stmt(stmt@)),
        ensures
            final(self).gstate() == g_stmt(old(self).gstate(), stmt@),
            final(self).restored(*old(self)),
            final(self).io_imported == old(self).io_imported,
        decreases stmt, 0int,
    {
        match stmt {
            Stmt::Each { var, iter, body } => {
                let base = self.indent;
                let it = self.gen_expr(iter);
                let mut head = String::from_str("let __zero_each = ");
                push_str(&mut head, it.as_str());
                push_str(&mut head, ";");
                self.line(head.as_str());
                self.line("match &__zero_each {");
                self.indent = base + 1;
                self.line("ZVal::Int(__zero_n) => {");
                self.indent = base + 2;
                self.line("for __zero_i in 0..*__zero_n {");
                self.gen_nested(body, Some((var.as_str(), "ZVal::Int(__zero_i)")));
                self.line("}");
                self.indent = base + 1;
                self.line("}");
                self.line("ZVal::Str(__zero_s) => {");
                self.indent = base + 2;
                self.line("for __zero_c in __zero_s.chars() {");
                self.gen_nested(body, Some((var.as_str(), "ZVal::Str(__zero_c.to_string())")));
                self.line("}");
                self.indent = base + 1;
                self.line("}");
                self.line("_ => {}");
                self.indent = base;
                self.line("}");
            },
            _ => {},
        }
    }

    fn gen_switch(&mut self, stmt: &Stmt)
        requires
            stmt is Switch,
            old(self).blocks@.len() >= 1,
            stmt_calls_ok(old(self).io_imported, stmt@),
            old(self).room(nest_stmt(stmt@)),
        ensures
            final(self).gstate() == g_stmt(old(self).gstate(), stmt@),
            final(self).restored(*old(self)),
            final(self).io_imported == old(self).io_imported,
        decreases stmt, 0int,
    {
        match stmt {
            Stmt::Switch { value, arms, default } => {
                let v = self.gen_expr(value);
                let mut head = String::from_str("let __zero_sw = ");
                push_str(&mut head, v.as_str());
                push_str(&mut head, ";");
                self.line(head.as_str());
                self.gen_cases(arms);
                match default {
                    Some(b) => {
                        self.line(if arms.len() == 0 { "else {" } else { "} else {" });
                        self.gen_nested(b, None);
                    },
                    None => {},
                }
                if arms.len() > 0 || default.is_some() {
                    self.line("}");
                }
            },
            _ => {},
        }
    }

    fn gen_try(&mut self, stmt: &Stmt)
        requires
            stmt is Try,
            old(self).blocks@.len() >= 1,
            stmt_calls_ok(old(self).io_imported, stmt@),
            old(self).room(nest_stmt(stmt@)),
        ensures
            final(self).gstate() == g_stmt(old(self).gstate(), stmt@),
            final(self).restored(*old(self)),
            final(self).io_imported == old(self).io_imported,
        decreases stmt, 0int,
    {
        match stmt {
            Stmt::Try { body, catch_var, catch_body } => {
                self.gen_try_closure(body);
                match catch_body {
                    Some(cb) => {
                        let extra = match catch_var {
                            Some(v) => Some((v.as_str(), "ZVal::Str(__zero_msg.clone())")),
                            None => None,
                        };
                        self.gen_catch(cb, extra);
                    },
                    None => {},
                }
            },
            _ => {},
        }
    }

    fn gen_try_closure(&mut self, body: &Block)
        requires
            old(self).blocks@.len() >= 1,
            block_calls_ok(old(self).io_imported, body@),
            old(self).room(1 + nest_block(body@)),
        ensures
            final(self).gstate() == g_try_closure(old(self).gstate(), body@),
            final(self).restored(*old(self)),
            final(self).io_imported == old(self).io_imported,
        decreases body, 1int,
    {
        let base = self.indent;
        self.line("let __zero_try = std::panic::catch_unwind(|| -> ZVal {");
        self.indent = base + 1;
        let saved_ret = self.current_ret;
        self.current_ret = None;
        let fresh: Vec<(String, bool)> = Vec::new();
        proof {
            assert(scope_view(fresh@) =~= Seq::empty());
        }
        self.push_block(fresh);
        match body {
            Block::Stmts(stmts) => {
                self.gen_stmts(stmts);
                if !ends_with_return(stmts) {
                    self.line("return ZVal::Nil;");
                }
                proof {
                    lemma_stmts_view_index(stmts@);
                }
            },
            Block::Raw(text) => self.gen_raw(text.as_str()),
        }
        let _ = self.blocks.pop();
        proof {
            assert(self.blocks@ =~= old(self).blocks@);
        }
        self.current_ret = saved_ret;
        self.indent = base;
        self.line("});");
    }

    fn gen_catch(&mut self, cb: &Block, extra: Option<(&str, &str)>)
        requires
            old(self).blocks@.len() >= 1,
            block_calls_ok(old(self).io_imported, cb@),
            old(self).room(2 + nest_block(cb@)),
            extra matches Some((_, init)) ==> init@ == "ZVal::Str(__zero_msg.clone())"@,
        ensures
            final(self).gstate() == g_try_catch(
                old(self).gstate(),
                match extra {
                    Some((v, _)) => Some(v@),
                    None => None,
                },
                Some(cb@),
            ),
            final(self).restored(*old(self)),
            final(self).io_imported == old(self).io_imported,
        decreases cb, 1int,
    {
        let base = self.indent;
        self.line("if let Err(__zero_payload) = __zero_try {");
        self.indent = base + 1;
        self.line("let __zero_msg = __zero_payload");
        self.indent = base + 2;
        self.line(".downcast_ref::<&str>().map(|s| s.to_string())");
        self.line(".or_else(|| __zero_payload.downcast_ref::<String>().cloned())");
        self.line(".unwrap_or_else(|| \"panic\".to_string());");
        self.indent = base + 1;
        self.gen_block_body(cb, extra);
        self.indent = base;
        self.line("}");
    }
}

impl<'a> Codegen<'a> {
    fn gen_function(&mut self, f: &Function)
        requires
            old(self).indent == 0,
            block_calls_ok(old(self).io_imported, f@.body),
            nest_block(f@.body) + 3 <= usize::MAX,
        ensures
            final(self).gstate() == g_function(old(self).gstate(), f@),
            final(self).same_frame(*old(self)),
            final(self).blocks@ == old(self).blocks@,
            final(self).indent == 0,
            final(self).current_ret is None,
            final(self).io_imported == old(self).io_imported,
    {
        let mut params = String::new();
        let ghost pieces = Seq::new(f.params@.len(), |i: int| "mut "@ + f.params@[i].name@ + ": ZVal"@);
        let mut k: usize = 0;
        while k < f.params.len()
            invariant
                k <= f.params@.len(),
                pieces == Seq::new(f.params@.len(), |i: int| "mut "@ + f.params@[i].name@ + ": ZVal"@),
                params@ == join(pieces.take(k as int), ", "@),
            decreases f.params@.len() - k,
        {
            proof {
                assert(pieces.take(k + 1) =~= pieces.take(k as int).push(pieces[k as int]));
                lemma_join_push(pieces.take(k as int), ", "@, pieces[k as int]);
            }
            if k > 0 {
                push_str(&mut params, ", ");
            }
            push_str(&mut params, "mut ");
            push_str(&mut params, f.params[k].name.as_str());
            push_str(&mut params, ": ZVal");
            k = k + 1;
        }
        proof {
            assert(pieces.take(f.params@.len() as int) =~= pieces);
            assert(pieces =~= Seq::new(f@.params.len(), |i: int| "mut "@ + f@.params[i].name + ": ZVal"@));
        }
        let mut head = String::from_str("fn ");
        push_str(&mut head, f.name.as_str());
        push_str(&mut head, "(");
        push_str(&mut head, params.as_str());
        push_str(&mut head, ") -> ZVal {");
        self.line(head.as_str());
        self.indent = 1;
        let mut scope: Vec<(String, bool)> = Vec::new();
        let mut j: usize = 0;
        while j < f.params.len()
            invariant
                j <= f.params@.len(),
                scope@.len() == j,
                forall|m: int| 0 <= m < j ==> #[trigger] scope@[m] == (f.params@[m].name, false),
            decreases f.params@.len() - j,
        {
            scope.push((f.params[j].name.clone(), false));
            j = j + 1;
        }
        proof {
            assert(scope_view(scope@) =~= param_scope(f@));
        }
        self.push_block(scope);
        // Runtime type checks for annotated parameters.
        let ghost ps = f@.params;
        let ghost g2 = self.gstate();
        proof {
            assert(ps.subrange(0, ps.len() as int) =~= ps);
        }
        let mut c: usize = 0;
        while c < f.params.len()
            invariant
                c <= f.params@.len(),
                ps == f@.params,
                ps.len() == f.params@.len(),
                self.indent == 1,
                self.blocks@.len() == old(self).blocks@.len() + 1,
                self.blocks@.drop_last() == old(self).blocks@,
                self.same_frame(*old(self)),
                self.io_imported == old(self).io_imported,
                self.current_ret == old(self).current_ret,
                g_param_checks(g2, ps) == g_param_checks(self.gstate(), ps.subrange(c as int, ps.len() as int)),
            decreases f.params@.len() - c,
        {
            proof {
                assert(ps.subrange(c as int, ps.len() as int).subrange(1, ps.len() - c) =~= ps.subrange(
                    c + 1,
                    ps.len() as int,
                ));
            }
            match f.params[c].ty {
                Some(ty) => {
                    let mut check = String::from_str("__zero_check_type(&");
                    push_str(&mut check, f.params[c].name.as_str());
                    push_str(&mut check, ", ");
                    push_str(&mut check, ztype_code(ty));
                    push_str(&mut check, ");");
                    self.line(check.as_str());
                },
                None => {},
            }
            c = c + 1;
        }
        self.current_ret = f.ret;
        match &f.body {
            Block::Stmts(stmts) => {
                self.gen_stmts(stmts);
                if !ends_with_return(stmts) {
                    let text = return_text(self.current_ret, String::from_str("ZVal::Nil"));
                    self.line(text.as_str());
                }
                proof {
                    lemma_stmts_view_index(stmts@);
                }
            },
            Block::Raw(_) => {},
        }
        self.current_ret = None;
        let _ = self.blocks.pop();
        proof {
            assert(self.blocks@ =~= old(self).blocks@);
        }
        self.indent = 0;
        self.line("}");
    }

    /// Generate the functions among `items` in order.
    fn gen_item_functions(&mut self, items: &Vec<Item>)
        requires
            old(self).indent == 0,
            old(self).current_ret is None,
            gen_ready(old(self).io_imported, Seq::new(items@.len(), |i: int| crate::ast::item_view(items@[i]))),
        ensures
            final(self).gstate() == g_functions(
                old(self).gstate(),
                functions_of_items(Seq::new(items@.len(), |i: int| crate::ast::item_view(items@[i]))),
            ),
            final(self).same_frame(*old(self)),
            final(self).blocks@ == old(self).blocks@,
            final(self).indent == 0,
            final(self).current_ret is None,
            final(self).io_imported == old(self).io_imported,
    {
        let ghost iv = Seq::new(items@.len(), |i: int| crate::ast::item_view(items@[i]));
        let ghost g0 = self.gstate();
        let mut k: usize = 0;
        proof {
            assert(iv.take(0) =~= Seq::<ItemV>::empty());
        }
        while k < items.len()
            invariant
                k <= items@.len(),
                iv == Seq::new(items@.len(), |i: int| crate::ast::item_view(items@[i])),
                gen_ready(self.io_imported, iv),
                g0 == old(self).gstate(),
                self.same_frame(*old(self)),
                self.blocks@ == old(self).blocks@,
                self.indent == 0,
                self.current_ret is None,
                self.io_imported == old(self).io_imported,
                self.gstate() == g_functions(g0, functions_of_items(iv.take(k as int))),
            decreases items@.len() - k,
        {
            proof {
                assert(iv.take(k + 1).drop_last() =~= iv.take(k as int));
                assert(iv.take(k + 1).last() == iv[k as int]);
            }
            match &items[k] {
                Item::Function(f) => {
                    proof {
                        assert(iv[k as int] == ItemV::Function(f@));
                        lemma_functions_push(g0, functions_of_items(iv.take(k as int)), f@);
                    }
                    self.gen_function(f);
                },
                _ => {},
            }
            k = k + 1;
        }
        proof {
            assert(iv.take(items@.len() as int) =~= iv);
        }
    }
}

impl<'a> Codegen<'a> {
    /// Top-level statements become `fn main() -> ZVal { ... }`.
    fn gen_top_level(&mut self, prog: &Program)
        requires
            old(self).indent == 0,
            old(self).current_ret is None,
            gen_ready(old(self).io_imported, prog@.items),
        ensures
            final(self).gstate() == g_top(old(self).gstate(), prog@.items),
            final(self).same_frame(*old(self)),
            final(self).blocks@ == old(self).blocks@,
            final(self).indent == 0,
            final(self).current_ret is None,
            final(self).io_imported == old(self).io_imported,
    {
        let tops = top_level(prog);
        if tops.len() == 0 {
            return;
        }
        let ghost sv = Seq::new(tops@.len(), |j: int| (*tops@[j])@);
        proof {
            lemma_top_ready(self.io_imported, prog@.items);
        }
        self.line("fn main() -> ZVal {");
        self.indent = 1;
        let fresh: Vec<(String, bool)> = Vec::new();
        proof {
            assert(scope_view(fresh@) =~= Seq::empty());
        }
        self.push_block(fresh);
        let ghost g2 = self.gstate();
        proof {
            assert(sv.subrange(0, sv.len() as int) =~= sv);
        }
        let mut k: usize = 0;
        while k < tops.len()
            invariant
                k <= tops@.len(),
                sv == Seq::new(tops@.len(), |j: int| (*tops@[j])@),
                sv.len() == tops@.len(),
                forall|j: int| 0 <= j < sv.len() ==> stmt_calls_ok(self.io_imported, #[trigger] sv[j]) && nest_stmt(sv[j]) + 3 <= usize::MAX,
                self.indent == 1,
                self.current_ret is None,
                self.blocks@.len() == old(self).blocks@.len() + 1,
                self.blocks@.drop_last() == old(self).blocks@,
                self.same_frame(*old(self)),
                self.io_imported == old(self).io_imported,
                g_stmts(g2, sv) == g_stmts(self.gstate(), sv.subrange(k as int, sv.len() as int)),
            decreases tops@.len() - k,
        {
            proof {
                assert(sv.subrange(k as int, sv.len() as int).subrange(1, sv.len() - k) =~= sv.subrange(
                    k + 1,
                    sv.len() as int,
                ));
                assert(sv[k as int] == (*tops@[k as int])@);
            }
            self.gen_stmt(tops[k]);
            proof {
                assert(self.blocks@.drop_last() =~= old(self).blocks@);
            }
            k = k + 1;
        }
        if !ends_with_return_refs(&tops) {
            self.line("return ZVal::Nil;");
        }
        let _ = self.blocks.pop();
        proof {
            assert(self.blocks@ =~= old(self).blocks@);
        }
        self.indent = 0;
        self.line("}");
    }

    /// The assembled output file.
    fn assemble(&self) -> (out: String)
        ensures
            out@ == assembled(
                self.src_name@,
                Seq::new(self.imports@.len(), |i: int| self.imports@[i]@),
                self.used_call_sys,
                self.body@,
            ),
    {
        let mut out = String::from_str("#![allow(unused, dead_code, nonstandard_style)]\n");
        push_str(&mut out, "// Generated by Zero compiler (zeroc v0.3.0)\n");
        push_str(&mut out, "// Source: ");
        push_str(&mut out, self.src_name);
        push_str(&mut out, "\n");
        push_str(&mut out, "\n");
        push_str(&mut out, runtime::ZVAL_RUNTIME);
        push_str(&mut out, "\n");
        let ghost before = out@;
        let ghost imps = Seq::new(self.imports@.len(), |i: int| self.imports@[i]@);
        let mut k: usize = 0;
        proof {
            assert(imps.take(0) =~= Seq::<Seq<char>>::empty());
        }
        while k < self.imports.len()
            invariant
                k <= self.imports@.len(),
                imps == Seq::new(self.imports@.len(), |i: int| self.imports@[i]@),
                out@ == before + imports_text(imps.take(k as int)),
            decreases self.imports@.len() - k,
        {
            push_str(&mut out, self.imports[k].as_str());
            push_str(&mut out, "\n\n");
            proof {
                assert(imps.take(k + 1).drop_last() =~= imps.take(k as int));
            }
            k = k + 1;
        }
        proof {
            assert(imps.take(self.imports@.len() as int) =~= imps);
        }
        let ghost mid = out@;
        if self.used_call_sys {
            push_str(&mut out, runtime::SYS_PREAMBLE);
            push_str(&mut out, "\n");
        }
        push_str(&mut out, self.body.as_str());
        proof {
            if !self.used_call_sys {
                assert(mid + Seq::<char>::empty() =~= mid);
            }
        }
        out
    }
}

/// Whether a list of statements ends with an explicit `return`.
fn ends_with_return_refs(stmts: &Vec<&Stmt>) -> (r: bool)
    ensures
        r == crate::codegen::emit::ends_with_return_spec(Seq::new(stmts@.len(), |j: int| (*stmts@[j])@)),
{
    if stmts.len() == 0 {
        return false;
    }
    match stmts[stmts.len() - 1] {
        Stmt::Return { .. } => true,
        _ => false,
    }
}

/// The top-level statements of a generation-ready program are ready.
proof fn lemma_top_ready(io: bool, items: Seq<ItemV>)
    requires
        gen_ready(io, items),
    ensures
        forall|j: int|
            0 <= j < top_stmts(items).len() ==> stmt_calls_ok(io, #[trigger] top_stmts(items)[j])
                && nest_stmt(top_stmts(items)[j]) + 3 <= usize::MAX,
    decreases items.len(),
{
    if items.len() > 0 {
        let init = items.drop_last();
        assert forall|i: int| 0 <= i < init.len() implies match #[trigger] init[i] {
            ItemV::Function(f) => block_calls_ok(io, f.body) && nest_block(f.body) + 3 <= usize::MAX,
            ItemV::Top(st) => stmt_calls_ok(io, st) && nest_stmt(st) + 3 <= usize::MAX,
            _ => true,
        } by {
            assert(init[i] == items[i]);
        }
        lemma_top_ready(io, init);
        let last = items[items.len() - 1];
        assert(items.last() == last);
        let t0 = top_stmts(init);
        assert forall|j: int| 0 <= j < top_stmts(items).len() implies stmt_calls_ok(io, #[trigger] top_stmts(items)[j])
            && nest_stmt(top_stmts(items)[j]) + 3 <= usize::MAX by {
            if j < t0.len() {
                assert(top_stmts(items)[j] == t0[j]);
            } else {
                match last {
                    ItemV::Top(st) => {
                        assert(top_stmts(items)[j] == st);
                    },
                    _ => {},
                }
            }
        }
    }
}

/// Compile a program (plus everything loaded from its headers) to Rust.
pub fn generate(prog: &Program, loader: &Loader, src_name: &str) -> (out: String)
    requires
        gen_ready(loader.io(), prog@.items),
        forall|i: int| 0 <= i < loader.zero_list().len() ==> gen_ready(loader.io(), #[trigger] loader.zero_list()[i].1.items),
    ensures
        out@ == generated(
            prog@.items,
            loader.io(),
            loader.builtin_list(),
            loader.rust_list(),
            loader.zero_list(),
            src_name@,
        ),
{
    let mut cg = Codegen {
        src_name,
        imports: Vec::new(),
        body: String::new(),
        indent: 0,
        io_imported: loader.io_imported,
        used_call_sys: false,
        emitted_builtins: Vec::new(),
        blocks: Vec::new(),
        current_ret: None,
    };
    proof {
        assert(chain_view(cg.blocks@) =~= Seq::<ScopeV>::empty());
        assert(cg.body@ =~= Seq::<char>::empty());
        assert(cg.gstate() == start_state(loader.io()));
    }
    // 1. builtin header aliases -> `use` statements
    let ghost aliases = loader.builtin_list();
    let mut k: usize = 0;
    proof {
        assert(aliases.subrange(0, aliases.len() as int) =~= aliases);
    }
    while k < loader.builtins.len()
        invariant
            k <= loader.builtins@.len(),
            aliases == loader.builtin_list(),
            aliases.len() == loader.builtins@.len(),
            cg.gstate() == start_state(loader.io()),
            cg.src_name == src_name,
            cg.indent == 0,
            cg.current_ret is None,
            cg.blocks@.len() == 0,
            cg.io_imported == loader.io_imported,
            builtin_imports(aliases, Seq::empty()) == Seq::new(cg.imports@.len(), |i: int| cg.imports@[i]@)
                + builtin_imports(aliases.subrange(k as int, aliases.len() as int), Seq::new(cg.emitted_builtins@.len(), |i: int| cg.emitted_builtins@[i]@)),
        decreases loader.builtins@.len() - k,
    {
        proof {
            assert(aliases.subrange(k as int, aliases.len() as int).subrange(1, aliases.len() - k) =~= aliases.subrange(
                k + 1,
                aliases.len() as int,
            ));
            assert(aliases[k as int] == loader.builtins@[k as int]@);
        }
        let ghost imps = Seq::new(cg.imports@.len(), |i: int| cg.imports@[i]@);
        let ghost em = Seq::new(cg.emitted_builtins@.len(), |i: int| cg.emitted_builtins@[i]@);
        match builtin_use(loader.builtins[k].as_str()) {
            Some(u) => {
                if !contains_text(&cg.emitted_builtins, u) {
                    cg.emitted_builtins.push(u.to_owned());
                    cg.imports.push(u.to_owned());
                    proof {
                        assert(Seq::new(cg.imports@.len(), |i: int| cg.imports@[i]@) =~= imps.push(u@));
                        assert(Seq::new(cg.emitted_builtins@.len(), |i: int| cg.emitted_builtins@[i]@) =~= em.push(u@));
                        assert(imps + (seq![u@] + builtin_imports(aliases.subrange(k + 1, aliases.len() as int), em.push(u@))) =~= imps.push(u@) + builtin_imports(aliases.subrange(k + 1, aliases.len() as int), em.push(u@)));
                    }
                }
            },
            None => {},
        }
        k = k + 1;
    }
    proof {
        assert(aliases.subrange(aliases.len() as int, aliases.len() as int) =~= Seq::<Seq<char>>::empty());
        let imps = Seq::new(cg.imports@.len(), |i: int| cg.imports@[i]@);
        assert(imps + Seq::<Seq<char>>::empty() =~= imps);
    }
    // 2. raw Rust headers, inlined verbatim (std/stream* + user headers)
    let ghost bimps = Seq::new(cg.imports@.len(), |i: int| cg.imports@[i]@);
    let ghost hs = loader.rust_list();
    let mut h: usize = 0;
    while h < loader.rust_headers.len()
        invariant
            h <= loader.rust_headers@.len(),
            hs == loader.rust_list(),
            hs.len() == loader.rust_headers@.len(),
            bimps == builtin_imports(aliases, Seq::empty()),
            aliases == loader.builtin_list(),
            cg.gstate() == start_state(loader.io()),
            cg.src_name == src_name,
            cg.indent == 0,
            cg.current_ret is None,
            cg.blocks@.len() == 0,
            cg.io_imported == loader.io_imported,
            Seq::new(cg.imports@.len(), |i: int| cg.imports@[i]@) == bimps + header_imports(hs.take(h as int)),
        decreases loader.rust_headers@.len() - h,
    {
        let ghost before = Seq::new(cg.imports@.len(), |i: int| cg.imports@[i]@);
        let mut text = String::from_str("// ---- import: ");
        push_str(&mut text, loader.rust_headers[h].0.as_str());
        push_str(&mut text, " ----\n");
        push_str(&mut text, loader.rust_headers[h].1.as_str());
        cg.imports.push(text);
        proof {
            assert(header_imports(hs.take(h + 1)) =~= header_imports(hs.take(h as int)).push(text@));
            assert(Seq::new(cg.imports@.len(), |i: int| cg.imports@[i]@) =~= before.push(text@));
        }
        h = h + 1;
    }
    proof {
        assert(hs.take(hs.len() as int) =~= hs);
    }
    // 3. functions from Zero headers
    let ghost zs = loader.zero_list();
    let ghost g0 = cg.gstate();
    let mut z: usize = 0;
    proof {
        assert(zs.subrange(0, zs.len() as int) =~= zs);
    }
    while z < loader.zero_headers.len()
        invariant
            z <= loader.zero_headers@.len(),
            zs == loader.zero_list(),
            zs.len() == loader.zero_headers@.len(),
            forall|i: int| 0 <= i < zs.len() ==> gen_ready(loader.io(), #[trigger] zs[i].1.items),
            g0 == start_state(loader.io()),
            cg.src_name == src_name,
            cg.indent == 0,
            cg.current_ret is None,
            cg.blocks@.len() == 0,
            cg.io_imported == loader.io_imported,
            Seq::new(cg.imports@.len(), |i: int| cg.imports@[i]@) == builtin_imports(aliases, Seq::empty()) + header_imports(hs),
            aliases == loader.builtin_list(),
            hs == loader.rust_list(),
            g_headers(g0, zs) == g_headers(cg.gstate(), zs.subrange(z as int, zs.len() as int)),
        decreases loader.zero_headers@.len() - z,
    {
        proof {
            assert(zs.subrange(z as int, zs.len() as int).subrange(1, zs.len() - z) =~= zs.subrange(
                z + 1,
                zs.len() as int,
            ));
            assert(zs[z as int].1.items == loader.zero_headers@[z as int].1@.items);
        }
        let mut head = String::from_str("// ---- import: ");
        push_str(&mut head, loader.zero_headers[z].0.as_str());
        push_str(&mut head, " ----");
        cg.line(head.as_str());
        cg.gen_item_functions(&loader.zero_headers[z].1.items);
        z = z + 1;
    }
    // 4. top-level statements form the implicit `fn main` entry point
    cg.gen_top_level(prog);
    // 5. functions from the main program
    cg.gen_item_functions(&prog.items);
    cg.assemble()
}

/// Whether `list` holds `text`.
fn contains_text(list: &Vec<String>, text: &str) -> (r: bool)
    ensures
        r == Seq::new(list@.len(), |i: int| list@[i]@).contains(text@),
{
    let ghost l = Seq::new(list@.len(), |i: int| list@[i]@);
    let mut k: usize = 0;
    while k < list.len()
        invariant
            k <= list@.len(),
            l == Seq::new(list@.len(), |i: int| list@[i]@),
            forall|j: int| 0 <= j < k ==> l[j] != text@,
        decreases list@.len() - k,
    {
        if str_eq(list[k].as_str(), text) {
            proof {
                assert(l[k as int] == text@);
            }
            return true;
        }
        k = k + 1;
    }
    false
}

/// Generating one more function after the others.
pub proof fn lemma_functions_push(g: GenState, fs: Seq<FunctionV>, f: FunctionV)
    ensures
        g_functions(g, fs.push(f)) == g_function(g_functions(g, fs), f),
    decreases fs.len(),
{
    if fs.len() == 0 {
        assert(fs.push(f).subrange(1, 1) =~= Seq::<FunctionV>::empty());
        assert(g_functions(g_function(g, f), Seq::<FunctionV>::empty()) == g_function(g, f));
        assert(g_functions(g, fs) == g);
    } else {
        lemma_functions_push(g_function(g, fs[0]), fs.subrange(1, fs.len() as int), f);
        assert(fs.push(f).subrange(1, fs.len() + 1int) =~= fs.subrange(1, fs.len() as int).push(f));
    }
}

/// An optional `(name, init)` pair of string slices, viewed.
pub open spec fn opt_pair_view(p: Option<(&str, &str)>) -> Option<(Seq<char>, Seq<char>)> {
    match p {
        Some((a, b)) => Some((a@, b@)),
        None => None,
    }
}

/// `return value;`, checked against the declared return type.
fn return_text(ret: Option<ZType>, expr: String) -> (s: String)
    ensures
        s@ == return_line(ret, expr@),
{
    match ret {
        Some(t) => {
            let mut s = String::from_str("return __zero_check_type(&");
            push_str(&mut s, expr.as_str());
            push_str(&mut s, ", ");
            push_str(&mut s, ztype_code(t));
            push_str(&mut s, ");");
            s
        },
        None => {
            let mut s = String::from_str("return ");
            push_str(&mut s, expr.as_str());
            push_str(&mut s, ";");
            s
        },
    }
}

/// The code of a binary operation on operand codes `l` and `r`.
fn binop_text(op: BinOp, l: String, r: String) -> (out: String)
    ensures
        out@ == binop_code(op, l@, r@),
{
    proof {
        reveal_strlit(".add(&");
        reveal_strlit(".sub(&");
        reveal_strlit(".mul(&");
        reveal_strlit(".div(&");
        reveal_strlit(".rem(&");
        reveal_strlit(".lt(&");
        reveal_strlit(".le(&");
        reveal_strlit(".gt(&");
        reveal_strlit(".ge(&");
        reveal_strlit(")");
        reveal_strlit("ZVal::Bool(");
        reveal_strlit(" == ");
        reveal_strlit(" != ");
        reveal_strlit(".to_bool() && ");
        reveal_strlit(".to_bool() || ");
        reveal_strlit(".to_bool())");
    }
    let method = match op {
        BinOp::Add => ".add(&",
        BinOp::Sub => ".sub(&",
        BinOp::Mul => ".mul(&",
        BinOp::Div => ".div(&",
        BinOp::Rem => ".rem(&",
        BinOp::Lt => ".lt(&",
        BinOp::Le => ".le(&",
        BinOp::Gt => ".gt(&",
        BinOp::Ge => ".ge(&",
        _ => "",
    };
    match op {
        BinOp::Eq | BinOp::Ne | BinOp::And | BinOp::Or => {
            let mid = match op {
                BinOp::Eq => " == ",
                BinOp::Ne => " != ",
                BinOp::And => ".to_bool() && ",
                _ => ".to_bool() || ",
            };
            let tail = match op {
                BinOp::And | BinOp::Or => ".to_bool())",
                _ => ")",
            };
            let mut out = String::from_str("ZVal::Bool(");
            push_str(&mut out, l.as_str());
            push_str(&mut out, mid);
            push_str(&mut out, r.as_str());
            push_str(&mut out, tail);
            out
        },
        _ => {
            let mut out = l;
            push_str(&mut out, method);
            push_str(&mut out, r.as_str());
            push_str(&mut out, ")");
            out
        },
    }
}

/// The runtime helper behind `type_to<T>`.
fn conversion_name(t: ZType) -> (s: &'static str)
    ensures
        s@ == conversion_helper(t),
{
    match t {
        ZType::Int => "__zero_to_int",
        ZType::Float => "__zero_to_float",
        ZType::Str => "__zero_to_str",
        ZType::Bool => "__zero_to_bool",
    }
}

/// Rust source for a declared Zero type.
pub fn ztype_code(t: ZType) -> (s: &'static str)
    ensures
        s@ == ztype_code_spec(t),
{
    match t {
        ZType::Int => "ZValType::Int",
        ZType::Float => "ZValType::Float",
        ZType::Str => "ZValType::Str",
        ZType::Bool => "ZValType::Bool",
    }
}

/// Format a float literal's text as a valid Rust float literal (`2.0`
/// stays `2.0`, an integral `2` becomes `2.0`, so the generated code is
/// unambiguously a float).
pub fn float_literal(t: &str) -> (s: String)
    ensures
        s@ == float_literal_spec(t@),
{
    proof {
        reveal_strlit(".0");
    }
    let chars = crate::text::chars_of(t);
    let n = chars.len();
    let mut has_mark = false;
    let mut has_inf = false;
    let mut k: usize = 0;
    while k < n
        invariant
            k <= n,
            n == chars@.len(),
            chars@ == t@,
            has_mark == any_float_mark(t@, k as int),
            has_inf == any_inf(t@, k as int),
        decreases n - k,
    {
        let c = chars[k];
        if c == '.' || c == 'e' || c == 'E' {
            has_mark = true;
        }
        if k >= 2 && chars[k - 2] == 'i' && chars[k - 1] == 'n' && c == 'f' {
            has_inf = true;
        }
        k = k + 1;
    }
    if !has_mark && !has_inf && !str_eq(t, "NaN") {
        let mut out = String::from_str(t);
        push_str(&mut out, ".0");
        out
    } else {
        String::from_str(t)
    }
}

/// `calls_ok_all` holds of each element.
pub proof fn lemma_calls_ok_all(io: bool, es: Seq<ExprV>)
    requires
        calls_ok_all(io, es),
    ensures
        forall|j: int| 0 <= j < es.len() ==> calls_ok(io, #[trigger] es[j]),
    decreases es.len(),
{
    if es.len() > 0 {
        lemma_calls_ok_all(io, es.subrange(1, es.len() as int));
        assert forall|j: int| 0 <= j < es.len() implies calls_ok(io, #[trigger] es[j]) by {
            if j > 0 {
                assert(es.subrange(1, es.len() as int)[j - 1] == es[j]);
            }
        }
    }
}

/// Codes of a sequence split at its first `k` elements.
proof fn lemma_codes_split(io: bool, ind: nat, es: Seq<ExprV>, k: int)
    requires
        0 <= k <= es.len(),
    ensures
        g_codes(io, ind, es.subrange(0, 0)) == Seq::<Seq<char>>::empty(),
        !g_any_sys(io, ind, es.subrange(0, 0)),
{
}

/// Codes of a sequence with one more element at the end.
pub proof fn lemma_codes_push(io: bool, ind: nat, es: Seq<ExprV>, e: ExprV)
    ensures
        g_codes(io, ind, es.push(e)) == g_codes(io, ind, es).push(g_expr(io, ind, e).0),
        g_any_sys(io, ind, es.push(e)) == (g_any_sys(io, ind, es) || g_expr(io, ind, e).1),
    decreases es.len(),
{
    if es.len() == 0 {
        assert(es.push(e).subrange(1, 1) =~= Seq::<ExprV>::empty());
        assert(seq![g_expr(io, ind, e).0] + Seq::<Seq<char>>::empty() =~= Seq::<Seq<char>>::empty().push(g_expr(io, ind, e).0));
    } else {
        let rest = es.subrange(1, es.len() as int);
        lemma_codes_push(io, ind, rest, e);
        assert(es.push(e).subrange(1, es.len() + 1int) =~= rest.push(e));
        assert(es.push(e)[0] == es[0]);
        assert(seq![g_expr(io, ind, es[0]).0] + g_codes(io, ind, rest).push(g_expr(io, ind, e).0) =~= (seq![g_expr(io, ind, es[0]).0] + g_codes(io, ind, rest)).push(g_expr(io, ind, e).0));
    }
}

} // verus!
