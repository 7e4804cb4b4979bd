//! What analysing and generating a statement list does to the scope chain
//! and to the generator's frame.

use vstd::prelude::*;

use crate::ast::{BlockV, ExprV, StmtV};
use crate::codegen::spec::{
    g_block_body, g_cases, g_else_ifs, g_emit_expr, g_indent, g_line, g_nested, g_raw, g_raw_lines,
    g_stmt, g_stmts, g_try_catch, g_try_closure, GenState,
};
use crate::scope::spec::{an_stmt, an_stmts, declare, lookup, Frame, ScopeV, Unit};

verus! {

/// The chain after the statements `ss` run in it: each assignment directly
/// in `ss` to a name bound nowhere in the chain declares it in the
/// innermost scope; nothing else changes the chain.
pub open spec fn declared_after(chain: Seq<ScopeV>, ss: Seq<StmtV>) -> Seq<ScopeV>
    decreases ss.len(),
{
    if ss.len() == 0 {
        chain
    } else {
        declared_after(declared_step(chain, ss[0]), ss.subrange(1, ss.len() as int))
    }
}

/// The chain after one statement.
pub open spec fn declared_step(chain: Seq<ScopeV>, st: StmtV) -> Seq<ScopeV> {
    match st {
        StmtV::Assign { name, is_const, .. } => if lookup(chain, name) is Some {
            chain
        } else {
            declare(chain, name, is_const)
        },
        _ => chain,
    }
}

/// Declaring keeps the number of scopes and every scope but the innermost,
/// which only gains entries at its end.
pub proof fn declared_after_shape(chain: Seq<ScopeV>, ss: Seq<StmtV>)
    requires
        chain.len() >= 1,
    ensures
        declared_after(chain, ss).len() == chain.len(),
        declared_after(chain, ss).drop_last() == chain.drop_last(),
        chain.last().is_prefix_of(declared_after(chain, ss).last()),
    decreases ss.len(),
{
    if ss.len() > 0 {
        let c1 = declared_step(chain, ss[0]);
        assert(c1.len() == chain.len());
        assert(c1.drop_last() =~= chain.drop_last());
        assert(chain.last().is_prefix_of(c1.last())) by {
            if c1 != chain {
                assert(c1.last() == chain.last().push(c1.last().last()));
                assert(chain.last() =~= c1.last().subrange(0, chain.last().len() as int));
            } else {
                assert(chain.last() =~= c1.last().subrange(0, chain.last().len() as int));
            }
        }
        declared_after_shape(c1, ss.subrange(1, ss.len() as int));
        let c2 = declared_after(c1, ss.subrange(1, ss.len() as int));
        assert(chain.last() =~= c2.last().subrange(0, chain.last().len() as int)) by {
            assert(c1.last() =~= c2.last().subrange(0, c1.last().len() as int));
        }
    }
}

// ---------------------------------------------------------------------
// Scope analysis
// ---------------------------------------------------------------------

proof fn lemma_an_stmt_chain(u: Unit, f: Frame, chain: Seq<ScopeV>, st: StmtV)
    ensures
        an_stmt(u, f, chain, st) matches Ok(c) ==> c == declared_step(chain, st),
{
}

/// A statement list that analyses without error leaves the scope chain as
/// `declared_after` says: nested blocks are dropped, and only assignments
/// directly in the list to new names add to the innermost scope.
pub proof fn analysis_declares_only_new_names(u: Unit, f: Frame, chain: Seq<ScopeV>, ss: Seq<StmtV>)
    ensures
        an_stmts(u, f, chain, ss) matches Ok(c) ==> c == declared_after(chain, ss),
    decreases ss.len(),
{
    if ss.len() > 0 {
        lemma_an_stmt_chain(u, f, chain, ss[0]);
        if let Ok(c1) = an_stmt(u, f, chain, ss[0]) {
            analysis_declares_only_new_names(u, f, c1, ss.subrange(1, ss.len() as int));
        }
    }
}

// ---------------------------------------------------------------------
// Code generation
// ---------------------------------------------------------------------

/// `r` went on from `g` with the same indentation, return type and `io`
/// setting, and with `g`'s text as a prefix of its own.
pub open spec fn kept(g: GenState, r: GenState) -> bool {
    &&& r.indent == g.indent
    &&& r.ret == g.ret
    &&& r.io == g.io
    &&& g.body.is_prefix_of(r.body)
}

proof fn lemma_prefix_trans(a: Seq<char>, b: Seq<char>, c: Seq<char>)
    requires
        a.is_prefix_of(b),
        b.is_prefix_of(c),
    ensures
        a.is_prefix_of(c),
{
    assert(a =~= c.subrange(0, a.len() as int)) by {
        assert(b =~= c.subrange(0, b.len() as int));
        assert(a =~= b.subrange(0, a.len() as int));
    }
}

proof fn lemma_line(g: GenState, t: Seq<char>)
    ensures
        kept(g, g_line(g, t)),
        g_line(g, t).blocks == g.blocks,
{
    let r = g_line(g, t);
    assert(g.body =~= r.body.subrange(0, g.body.len() as int));
}

proof fn lemma_emit(g: GenState, e: ExprV)
    ensures
        kept(g, g_emit_expr(g, e).1),
        g_emit_expr(g, e).1.blocks == g.blocks,
{
    assert(g.body =~= g_emit_expr(g, e).1.body.subrange(0, g.body.len() as int));
}

proof fn lemma_raw_lines(g: GenState, lines: Seq<Seq<char>>)
    ensures
        kept(g, g_raw_lines(g, lines)),
        g_raw_lines(g, lines).blocks == g.blocks,
    decreases lines.len(),
{
    if lines.len() == 0 {
        assert(g.body =~= g.body.subrange(0, g.body.len() as int));
    } else {
        let trimmed = crate::codegen::emit::trim_end_spec(lines[0]);
        let g1 = if trimmed.len() == 0 {
            GenState { body: g.body + "\n"@, ..g }
        } else {
            g_line(g, trimmed)
        };
        if trimmed.len() == 0 {
            assert(g.body =~= g1.body.subrange(0, g.body.len() as int));
        } else {
            lemma_line(g, trimmed);
        }
        let rest = lines.subrange(1, lines.len() as int);
        lemma_raw_lines(g1, rest);
        lemma_prefix_trans(g.body, g1.body, g_raw_lines(g1, rest).body);
    }
}

proof fn lemma_stmts(g: GenState, ss: Seq<StmtV>)
    ensures
        kept(g, g_stmts(g, ss)),
        g_stmts(g, ss).blocks == declared_after(g.blocks, ss),
    decreases ss, 1int,
{
    if ss.len() == 0 {
        assert(g.body =~= g.body.subrange(0, g.body.len() as int));
    } else {
        let g1 = g_stmt(g, ss[0]);
        lemma_stmt(g, ss[0]);
        let rest = ss.subrange(1, ss.len() as int);
        lemma_stmts(g1, rest);
        lemma_prefix_trans(g.body, g1.body, g_stmts(g1, rest).body);
    }
}

proof fn lemma_block_body(g: GenState, b: BlockV, extra: Option<(Seq<char>, Seq<char>)>)
    ensures
        kept(g, g_block_body(g, b, extra)),
        g_block_body(g, b, extra).blocks == g.blocks,
    decreases b, 0int,
{
    let g1 = GenState {
        blocks: g.blocks.push(
            match extra {
                Some((v, _)) => seq![(v, false)],
                None => Seq::empty(),
            },
        ),
        ..g
    };
    let g2 = match extra {
        Some((v, init)) => g_line(g1, "let "@ + v + ": ZVal = "@ + init + ";"@),
        None => g1,
    };
    match extra {
        Some((v, init)) => lemma_line(g1, "let "@ + v + ": ZVal = "@ + init + ";"@),
        None => {
            assert(g1.body =~= g1.body.subrange(0, g1.body.len() as int));
        },
    }
    match b {
        BlockV::Stmts(ss) => {
            lemma_stmts(g2, ss);
            lemma_prefix_trans(g.body, g2.body, g_stmts(g2, ss).body);
        },
        BlockV::Raw(text) => {
            lemma_raw_lines(g2, crate::codegen::emit::lines_from(text, 0));
            lemma_prefix_trans(g.body, g2.body, g_raw(g2, text).body);
        },
    }
}

proof fn lemma_nested(g: GenState, b: BlockV, extra: Option<(Seq<char>, Seq<char>)>)
    ensures
        kept(g, g_nested(g, b, extra)),
        g_nested(g, b, extra).blocks == g.blocks,
    decreases b, 1int,
{
    lemma_block_body(g_indent(g, g.indent + 1), b, extra);
}

proof fn lemma_else_ifs(g: GenState, arms: Seq<(ExprV, BlockV)>)
    ensures
        kept(g, g_else_ifs(g, arms)),
        g_else_ifs(g, arms).blocks == g.blocks,
    decreases arms, 1int,
{
    if arms.len() == 0 {
        assert(g.body =~= g.body.subrange(0, g.body.len() as int));
    } else {
        let (c, g1) = g_emit_expr(g, arms[0].0);
        lemma_emit(g, arms[0].0);
        let g2 = g_line(g1, "} else if "@ + c + ".to_bool() {"@);
        lemma_line(g1, "} else if "@ + c + ".to_bool() {"@);
        let g3 = g_block_body(g_indent(g2, g2.indent + 1), arms[0].1, None);
        lemma_block_body(g_indent(g2, g2.indent + 1), arms[0].1, None);
        let g4 = g_indent(g3, g.indent);
        let rest = arms.subrange(1, arms.len() as int);
        lemma_else_ifs(g4, rest);
        lemma_prefix_trans(g.body, g1.body, g2.body);
        lemma_prefix_trans(g.body, g2.body, g3.body);
        lemma_prefix_trans(g.body, g4.body, g_else_ifs(g4, rest).body);
    }
}

proof fn lemma_cases(g: GenState, arms: Seq<(ExprV, BlockV)>, first: bool)
    ensures
        kept(g, g_cases(g, arms, first)),
        g_cases(g, arms, first).blocks == g.blocks,
    decreases arms, 1int,
{
    if arms.len() == 0 {
        assert(g.body =~= g.body.subrange(0, g.body.len() as int));
    } else {
        let (a, g1) = g_emit_expr(g, arms[0].0);
        lemma_emit(g, arms[0].0);
        let head = if first {
            "if __zero_sw == "@ + a + " {"@
        } else {
            "} else if __zero_sw == "@ + a + " {"@
        };
        let g2 = g_line(g1, head);
        lemma_line(g1, head);
        let g3 = g_block_body(g_indent(g2, g2.indent + 1), arms[0].1, None);
        lemma_block_body(g_indent(g2, g2.indent + 1), arms[0].1, None);
        let g4 = g_indent(g3, g.indent);
        let rest = arms.subrange(1, arms.len() as int);
        lemma_cases(g4, rest, false);
        lemma_prefix_trans(g.body, g1.body, g2.body);
        lemma_prefix_trans(g.body, g2.body, g3.body);
        lemma_prefix_trans(g.body, g4.body, g_cases(g4, rest, false).body);
    }
}

proof fn lemma_try_closure(g: GenState, body: BlockV)
    ensures
        kept(g, g_try_closure(g, body)),
        g_try_closure(g, body).blocks == g.blocks,
    decreases body, 2int,
{
    let g1 = g_line(g, "let __zero_try = std::panic::catch_unwind(|| -> ZVal {"@);
    lemma_line(g, "let __zero_try = std::panic::catch_unwind(|| -> ZVal {"@);
    let g2 = GenState { indent: g.indent + 1, ret: None, blocks: g.blocks.push(Seq::empty()), ..g1 };
    let g3 = match body {
        BlockV::Stmts(ss) => {
            let gs = g_stmts(g2, ss);
            if !crate::codegen::emit::ends_with_return_spec(ss) {
                g_line(gs, "return ZVal::Nil;"@)
            } else {
                gs
            }
        },
        BlockV::Raw(text) => g_raw(g2, text),
    };
    match body {
        BlockV::Stmts(ss) => {
            let gs = g_stmts(g2, ss);
            lemma_stmts(g2, ss);
            lemma_line(gs, "return ZVal::Nil;"@);
            lemma_prefix_trans(g1.body, g2.body, gs.body);
            lemma_prefix_trans(g1.body, gs.body, g3.body);
        },
        BlockV::Raw(text) => {
            lemma_raw_lines(g2, crate::codegen::emit::lines_from(text, 0));
        },
    }
    let g4 = GenState { indent: g.indent, ret: g.ret, blocks: g.blocks, ..g3 };
    lemma_line(g4, "});"@);
    lemma_prefix_trans(g.body, g1.body, g3.body);
    lemma_prefix_trans(g.body, g4.body, g_line(g4, "});"@).body);
}

proof fn lemma_try_catch(g: GenState, catch_var: Option<Seq<char>>, catch_body: Option<BlockV>)
    ensures
        kept(g, g_try_catch(g, catch_var, catch_body)),
        g_try_catch(g, catch_var, catch_body).blocks == g.blocks,
    decreases catch_body, 2int,
{
    match catch_body {
        Some(cb) => {
            let g5 = g_line(g, "if let Err(__zero_payload) = __zero_try {"@);
            lemma_line(g, "if let Err(__zero_payload) = __zero_try {"@);
            let g6 = g_line(g_indent(g5, g.indent + 1), "let __zero_msg = __zero_payload"@);
            lemma_line(g_indent(g5, g.indent + 1), "let __zero_msg = __zero_payload"@);
            let g7 = g_line(g_indent(g6, g.indent + 2), ".downcast_ref::<&str>().map(|s| s.to_string())"@);
            lemma_line(g_indent(g6, g.indent + 2), ".downcast_ref::<&str>().map(|s| s.to_string())"@);
            let g8 = g_line(g7, ".or_else(|| __zero_payload.downcast_ref::<String>().cloned())"@);
            lemma_line(g7, ".or_else(|| __zero_payload.downcast_ref::<String>().cloned())"@);
            let g9 = g_line(g8, ".unwrap_or_else(|| \"panic\".to_string());"@);
            lemma_line(g8, ".unwrap_or_else(|| \"panic\".to_string());"@);
            let extra = match catch_var {
                Some(v) => Some((v, "ZVal::Str(__zero_msg.clone())"@)),
                None => None,
            };
            let g10 = g_block_body(g_indent(g9, g.indent + 1), cb, extra);
            lemma_block_body(g_indent(g9, g.indent + 1), cb, extra);
            let g11 = g_indent(g10, g.indent);
            lemma_line(g11, "}"@);
            lemma_prefix_trans(g.body, g5.body, g6.body);
            lemma_prefix_trans(g.body, g6.body, g7.body);
            lemma_prefix_trans(g.body, g7.body, g8.body);
            lemma_prefix_trans(g.body, g8.body, g9.body);
            lemma_prefix_trans(g.body, g9.body, g10.body);
            lemma_prefix_trans(g.body, g11.body, g_line(g11, "}"@).body);
        },
        None => {
            assert(g.body =~= g.body.subrange(0, g.body.len() as int));
        },
    }
}

proof fn lemma_stmt(g: GenState, st: StmtV)
    ensures
        kept(g, g_stmt(g, st)),
        g_stmt(g, st).blocks == declared_step(g.blocks, st),
    decreases st, 3int,
{
    reveal_with_fuel(g_stmt, 1);
    match st {
        StmtV::Assign { name, value, is_const, .. } => {
            let (code, g1) = g_emit_expr(g, value);
            lemma_emit(g, value);
            if lookup(g1.blocks, name) is Some {
                lemma_line(g1, name + " = "@ + code + ";"@);
            } else {
                let kw = if is_const {
                    "let"@
                } else {
                    "let mut"@
                };
                let g2 = GenState { blocks: declare(g1.blocks, name, is_const), ..g1 };
                lemma_line(g2, kw + " "@ + name + ": ZVal = "@ + code + ";"@);
                lemma_prefix_trans(g.body, g2.body, g_stmt(g, st).body);
            }
            lemma_prefix_trans(g.body, g1.body, g_stmt(g, st).body);
        },
        StmtV::Expr(e) => {
            let (code, g1) = g_emit_expr(g, e);
            lemma_emit(g, e);
            lemma_line(g1, code + ";"@);
            lemma_prefix_trans(g.body, g1.body, g_stmt(g, st).body);
        },
        StmtV::Return { value } => {
            let (code, g1) = match value {
                Some(e) => g_emit_expr(g, e),
                None => ("ZVal::Nil"@, g),
            };
            match value {
                Some(e) => lemma_emit(g, e),
                None => {
                    assert(g.body =~= g.body.subrange(0, g.body.len() as int));
                },
            }
            lemma_line(g1, crate::codegen::spec::return_line(g.ret, code));
            lemma_prefix_trans(g.body, g1.body, g_stmt(g, st).body);
        },
        StmtV::Break { .. } => lemma_line(g, "break;"@),
        StmtV::Continue { .. } => lemma_line(g, "continue;"@),
        StmtV::Scope { kind, block, .. } => {
            let g1 = g_line(g, "{"@);
            lemma_line(g, "{"@);
            let g2 = GenState { indent: g.indent + 1, blocks: g.blocks.push(Seq::empty()), ..g1 };
            let g3 = match (kind, block) {
                (crate::ast::ScopeKind::HighLevel, BlockV::Stmts(ss)) => g_stmts(g2, ss),
                (crate::ast::ScopeKind::LowLevel, BlockV::Raw(text)) => g_raw(g2, text),
                _ => g_line(g2, "// unreachable: malformed scope block"@),
            };
            match (kind, block) {
                (crate::ast::ScopeKind::HighLevel, BlockV::Stmts(ss)) => lemma_stmts(g2, ss),
                (crate::ast::ScopeKind::LowLevel, BlockV::Raw(text)) => lemma_raw_lines(
                    g2,
                    crate::codegen::emit::lines_from(text, 0),
                ),
                _ => lemma_line(g2, "// unreachable: malformed scope block"@),
            }
            let g4 = GenState { indent: g.indent, blocks: g.blocks, ..g3 };
            lemma_line(g4, "}"@);
            lemma_prefix_trans(g.body, g1.body, g3.body);
            lemma_prefix_trans(g.body, g4.body, g_stmt(g, st).body);
        },
        StmtV::If { cond, then, else_ifs, else_branch } => {
            let (c, g1) = g_emit_expr(g, cond);
            lemma_emit(g, cond);
            let g2 = g_line(g1, "if "@ + c + ".to_bool() {"@);
            lemma_line(g1, "if "@ + c + ".to_bool() {"@);
            let g3 = g_nested(g2, then, None);
            lemma_nested(g2, then, None);
            let g4 = g_else_ifs(g3, else_ifs);
            lemma_else_ifs(g3, else_ifs);
            let g5 = match else_branch {
                Some(b) => g_nested(g_line(g4, "} else {"@), b, None),
                None => g4,
            };
            match else_branch {
                Some(b) => {
                    lemma_line(g4, "} else {"@);
                    lemma_nested(g_line(g4, "} else {"@), b, None);
                    lemma_prefix_trans(g4.body, g_line(g4, "} else {"@).body, g5.body);
                },
                None => {
                    assert(g4.body =~= g4.body.subrange(0, g4.body.len() as int));
                },
            }
            lemma_line(g5, "}"@);
            lemma_prefix_trans(g.body, g1.body, g2.body);
            lemma_prefix_trans(g.body, g2.body, g3.body);
            lemma_prefix_trans(g.body, g3.body, g4.body);
            lemma_prefix_trans(g.body, g4.body, g5.body);
            lemma_prefix_trans(g.body, g5.body, g_stmt(g, st).body);
        },
        StmtV::While { cond, body } => {
            let (c, g1) = g_emit_expr(g, cond);
            lemma_emit(g, cond);
            let g2 = g_line(g1, "while "@ + c + ".to_bool() {"@);
            lemma_line(g1, "while "@ + c + ".to_bool() {"@);
            let g3 = g_nested(g2, body, None);
            lemma_nested(g2, body, None);
            lemma_line(g3, "}"@);
            lemma_prefix_trans(g.body, g1.body, g2.body);
            lemma_prefix_trans(g.body, g2.body, g3.body);
            lemma_prefix_trans(g.body, g3.body, g_stmt(g, st).body);
        },
        StmtV::For { var, start, end, inclusive, body } => {
            let (s, g1) = g_emit_expr(g, start);
            lemma_emit(g, start);
            let (e, g2) = g_emit_expr(g1, end);
            lemma_emit(g1, end);
            let adj = if inclusive {
                " + 1"@
            } else {
                Seq::empty()
            };
            let g3 = g_line(g2, "let __zero_loop_start = "@ + s + ".as_int().unwrap_or(0);"@);
            lemma_line(g2, "let __zero_loop_start = "@ + s + ".as_int().unwrap_or(0);"@);
            let g4 = g_line(g3, "let __zero_loop_end = "@ + e + ".as_int().unwrap_or(0)"@ + adj + ";"@);
            lemma_line(g3, "let __zero_loop_end = "@ + e + ".as_int().unwrap_or(0)"@ + adj + ";"@);
            let g5 = g_line(g4, "for __zero_i in __zero_loop_start..__zero_loop_end {"@);
            lemma_line(g4, "for __zero_i in __zero_loop_start..__zero_loop_end {"@);
            let g6 = g_nested(g5, body, Some((var, "ZVal::Int(__zero_i)"@)));
            lemma_nested(g5, body, Some((var, "ZVal::Int(__zero_i)"@)));
            lemma_line(g6, "}"@);
            lemma_prefix_trans(g.body, g1.body, g2.body);
            lemma_prefix_trans(g.body, g2.body, g3.body);
            lemma_prefix_trans(g.body, g3.body, g4.body);
            lemma_prefix_trans(g.body, g4.body, g5.body);
            lemma_prefix_trans(g.body, g5.body, g6.body);
            lemma_prefix_trans(g.body, g6.body, g_stmt(g, st).body);
        },
        StmtV::Each { var, iter, body } => {
            let (it, g1) = g_emit_expr(g, iter);
            lemma_emit(g, iter);
            let g2 = g_line(g1, "let __zero_each = "@ + it + ";"@);
            lemma_line(g1, "let __zero_each = "@ + it + ";"@);
            let g3 = g_line(g2, "match &__zero_each {"@);
            lemma_line(g2, "match &__zero_each {"@);
            let g4 = g_line(g_indent(g3, g.indent + 1), "ZVal::Int(__zero_n) => {"@);
            lemma_line(g_indent(g3, g.indent + 1), "ZVal::Int(__zero_n) => {"@);
            let g5 = g_line(g_indent(g4, g.indent + 2), "for __zero_i in 0..*__zero_n {"@);
            lemma_line(g_indent(g4, g.indent + 2), "for __zero_i in 0..*__zero_n {"@);
            let g6 = g_nested(g5, body, Some((var, "ZVal::Int(__zero_i)"@)));
            lemma_nested(g5, body, Some((var, "ZVal::Int(__zero_i)"@)));
            let g7 = g_line(g6, "}"@);
            lemma_line(g6, "}"@);
            let g8 = g_line(g_indent(g7, g.indent + 1), "}"@);
            lemma_line(g_indent(g7, g.indent + 1), "}"@);
            let g9 = g_line(g8, "ZVal::Str(__zero_s) => {"@);
            lemma_line(g8, "ZVal::Str(__zero_s) => {"@);
            let g10 = g_line(g_indent(g9, g.indent + 2), "for __zero_c in __zero_s.chars() {"@);
            lemma_line(g_indent(g9, g.indent + 2), "for __zero_c in __zero_s.chars() {"@);
            let g11 = g_nested(g10, body, Some((var, "ZVal::Str(__zero_c.to_string())"@)));
            lemma_nested(g10, body, Some((var, "ZVal::Str(__zero_c.to_string())"@)));
            let g12 = g_line(g11, "}"@);
            lemma_line(g11, "}"@);
            let g13 = g_line(g_indent(g12, g.indent + 1), "}"@);
            lemma_line(g_indent(g12, g.indent + 1), "}"@);
            let g14 = g_line(g13, "_ => {}"@);
            lemma_line(g13, "_ => {}"@);
            lemma_line(g_indent(g14, g.indent), "}"@);
            lemma_prefix_trans(g.body, g1.body, g2.body);
            lemma_prefix_trans(g.body, g2.body, g3.body);
            lemma_prefix_trans(g.body, g3.body, g4.body);
            lemma_prefix_trans(g.body, g4.body, g5.body);
            lemma_prefix_trans(g.body, g5.body, g6.body);
            lemma_prefix_trans(g.body, g6.body, g7.body);
            lemma_prefix_trans(g.body, g7.body, g8.body);
            lemma_prefix_trans(g.body, g8.body, g9.body);
            lemma_prefix_trans(g.body, g9.body, g10.body);
            lemma_prefix_trans(g.body, g10.body, g11.body);
            lemma_prefix_trans(g.body, g11.body, g12.body);
            lemma_prefix_trans(g.body, g12.body, g13.body);
            lemma_prefix_trans(g.body, g13.body, g14.body);
            lemma_prefix_trans(g.body, g14.body, g_stmt(g, st).body);
        },
        StmtV::Switch { value, arms, default } => {
            let (v, g1) = g_emit_expr(g, value);
            lemma_emit(g, value);
            let g2 = g_line(g1, "let __zero_sw = "@ + v + ";"@);
            lemma_line(g1, "let __zero_sw = "@ + v + ";"@);
            let g3 = g_cases(g2, arms, true);
            lemma_cases(g2, arms, true);
            let head = if arms.len() == 0 {
                "else {"@
            } else {
                "} else {"@
            };
            let g4 = match default {
                Some(b) => g_nested(g_line(g3, head), b, None),
                None => g3,
            };
            match default {
                Some(b) => {
                    lemma_line(g3, head);
                    lemma_nested(g_line(g3, head), b, None);
                    lemma_prefix_trans(g3.body, g_line(g3, head).body, g4.body);
                },
                None => {
                    assert(g3.body =~= g3.body.subrange(0, g3.body.len() as int));
                },
            }
            lemma_line(g4, "}"@);
            lemma_prefix_trans(g.body, g1.body, g2.body);
            lemma_prefix_trans(g.body, g2.body, g3.body);
            lemma_prefix_trans(g.body, g3.body, g4.body);
            if arms.len() > 0 || default is Some {
                lemma_prefix_trans(g.body, g4.body, g_stmt(g, st).body);
            }
        },
        StmtV::Try { body, catch_var, catch_body } => {
            lemma_try_closure(g, body);
            lemma_try_catch(g_try_closure(g, body), catch_var, catch_body);
            lemma_prefix_trans(g.body, g_try_closure(g, body).body, g_stmt(g, st).body);
        },
    }
}

/// Generating a statement list keeps the generator's indentation, return
/// type and `io` setting, only adds to the text, and leaves the block stack
/// as `declared_after` says: the same blocks, the innermost one gaining the
/// new names assigned directly in the list.
pub proof fn generation_declares_only_new_names(g: GenState, ss: Seq<StmtV>)
    ensures
        kept(g, g_stmts(g, ss)),
        g_stmts(g, ss).blocks == declared_after(g.blocks, ss),
{
    lemma_stmts(g, ss);
}

} // verus!
