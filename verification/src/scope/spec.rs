//! What scope analysis accepts, as functions over the program's view.
//!
//! The scope chain is a sequence of scopes, innermost last; a scope lists
//! its variables with their immutability flag. Analysis of a statement
//! list threads the chain through the statements (an assignment to a new
//! name adds it to the innermost scope); nested blocks get a fresh scope
//! that is dropped afterwards.

use vstd::prelude::*;

use crate::ast::{BlockV, ExprV, FunctionV, ItemV, ScopeKind, StmtV, ZType, ztype_name};
use crate::diag::Span;
use crate::parser::spec::espan;
use crate::scope::callable::FnInfoV;
use crate::text::decimal;

verus! {

/// An analysis error: message and span.
pub type AErr = (Seq<char>, Span);

/// A scope: variables with their immutability flag.
pub type ScopeV = Seq<(Seq<char>, bool)>;

/// What analysis of a whole unit knows: every callable function and
/// whether `import io` is active.
pub struct Unit {
    pub fns: Map<Seq<char>, FnInfoV>,
    pub io: bool,
}

/// Where analysis stands inside a function: its declared return type and
/// whether it is inside a loop.
pub struct Frame {
    pub ret: Option<ZType>,
    pub in_loop: bool,
}

/// The flag of `name` in one scope (its first entry), if declared there.
pub open spec fn scope_get(sc: ScopeV, name: Seq<char>) -> Option<bool>
    decreases sc.len(),
{
    if sc.len() == 0 {
        None
    } else if sc[0].0 == name {
        Some(sc[0].1)
    } else {
        scope_get(sc.subrange(1, sc.len() as int), name)
    }
}

/// Resolve `name` against the chain, innermost scope first.
pub open spec fn lookup(chain: Seq<ScopeV>, name: Seq<char>) -> Option<bool>
    decreases chain.len(),
{
    if chain.len() == 0 {
        None
    } else {
        match scope_get(chain.last(), name) {
            Some(b) => Some(b),
            None => lookup(chain.drop_last(), name),
        }
    }
}

/// The static type of a literal expression, if it has one.
pub open spec fn literal_type(e: ExprV) -> Option<ZType> {
    match e {
        ExprV::Int(..) => Some(ZType::Int),
        ExprV::Float(..) => Some(ZType::Float),
        ExprV::Str(..) => Some(ZType::Str),
        ExprV::Bool(..) => Some(ZType::Bool),
        _ => None,
    }
}

/// The first literal argument (from index `i`) whose type differs from
/// its parameter's declared type.
pub open spec fn check_arg_types(
    callee: Seq<char>,
    args: Seq<ExprV>,
    params: Seq<Option<ZType>>,
    span: Span,
    i: int,
) -> Result<(), AErr>
    decreases args.len() - i,
{
    if i < 0 || i >= args.len() || i >= params.len() {
        Ok(())
    } else {
        match (params[i], literal_type(args[i])) {
            (Some(declared), Some(found)) => if declared != found {
                Err(
                    (
                        "argument "@ + decimal((i + 1) as nat) + " of '"@ + callee + "' expects "@
                            + ztype_name(declared) + ", found "@ + ztype_name(found),
                        span,
                    ),
                )
            } else {
                check_arg_types(callee, args, params, span, i + 1)
            },
            _ => check_arg_types(callee, args, params, span, i + 1),
        }
    }
}

/// Whether a call of `callee` with `args` is allowed.
pub open spec fn check_call(u: Unit, callee: Seq<char>, args: Seq<ExprV>, span: Span) -> Result<
    (),
    AErr,
> {
    if callee == "call_rust"@ {
        if args.len() != 1 {
            Err(("call_rust takes exactly 1 argument (a Rust code string)"@, span))
        } else if !(args[0] is Str) {
            Err(("call_rust requires a string literal of Rust code"@, espan(args[0])))
        } else {
            Ok(())
        }
    } else if callee == "call_sys"@ {
        if args.len() != 1 {
            Err(("call_sys takes exactly 1 argument (a command string)"@, span))
        } else {
            Ok(())
        }
    } else if u.io && (callee == "print"@ || callee == "input"@) {
        if args.len() == 0 {
            Err((callee + " takes a format string plus optional values"@, span))
        } else {
            Ok(())
        }
    } else if u.io && callee == "input_s"@ {
        if args.len() != 0 {
            Err(("input_s takes no arguments"@, span))
        } else {
            Ok(())
        }
    } else if u.io && callee == "set_stream"@ {
        if args.len() < 1 || args.len() > 2 {
            Err(
                (
                    "set_stream takes a stream type ('shell' or 'file') and an optional filename"@,
                    span,
                ),
            )
        } else {
            Ok(())
        }
    } else if u.fns.contains_key(callee) {
        let info = u.fns[callee];
        match info.arity {
            Some(k) if args.len() != k => Err(
                (
                    "function '"@ + callee + "' takes "@ + decimal(k as nat) + " argument(s), found "@
                        + decimal(args.len()),
                    span,
                ),
            ),
            _ => check_arg_types(callee, args, info.params, span, 0),
        }
    } else {
        Err(("unknown function '"@ + callee + "'"@, span))
    }
}

pub open spec fn an_expr(u: Unit, chain: Seq<ScopeV>, e: ExprV) -> Result<(), AErr>
    decreases e, 0int,
{
    match e {
        ExprV::TypeTo { value, .. } => an_expr(u, chain, *value),
        ExprV::Ident(name, span) => if lookup(chain, name) is None {
            Err(("undefined variable '"@ + name + "'"@, span))
        } else {
            Ok(())
        },
        ExprV::Call { callee, args, span } => match an_exprs(u, chain, args) {
            Err(err) => Err(err),
            Ok(()) => check_call(u, callee, args, span),
        },
        ExprV::Binary { lhs, rhs, .. } => match an_expr(u, chain, *lhs) {
            Err(err) => Err(err),
            Ok(()) => an_expr(u, chain, *rhs),
        },
        ExprV::Unary { operand, .. } => an_expr(u, chain, *operand),
        _ => Ok(()),
    }
}

/// Analyse expressions left to right.
pub open spec fn an_exprs(u: Unit, chain: Seq<ScopeV>, es: Seq<ExprV>) -> Result<(), AErr>
    decreases es, 1int,
{
    if es.len() == 0 {
        Ok(())
    } else {
        match an_expr(u, chain, es[0]) {
            Err(err) => Err(err),
            Ok(()) => an_exprs(u, chain, es.subrange(1, es.len() as int)),
        }
    }
}

/// Analyse a statement list; the chain after it.
pub open spec fn an_stmts(u: Unit, f: Frame, chain: Seq<ScopeV>, ss: Seq<StmtV>) -> Result<
    Seq<ScopeV>,
    AErr,
>
    decreases ss, 0int,
{
    if ss.len() == 0 {
        Ok(chain)
    } else {
        match an_stmt(u, f, chain, ss[0]) {
            Err(err) => Err(err),
            Ok(chain2) => an_stmts(u, f, chain2, ss.subrange(1, ss.len() as int)),
        }
    }
}

/// The chain with `name` added to the innermost scope.
pub open spec fn declare(chain: Seq<ScopeV>, name: Seq<char>, immutable: bool) -> Seq<ScopeV> {
    chain.update(chain.len() - 1, chain.last().push((name, immutable)))
}

/// Analyse a block in a fresh scope; `extra` names a variable that is
/// pre-declared there (loop and catch variables).
pub open spec fn an_block(
    u: Unit,
    f: Frame,
    chain: Seq<ScopeV>,
    b: BlockV,
    extra: Option<Seq<char>>,
) -> Result<(), AErr>
    decreases b, 0int,
{
    match b {
        BlockV::Stmts(ss) => {
            let fresh: ScopeV = match extra {
                Some(v) => seq![(v, false)],
                None => Seq::empty(),
            };
            match an_stmts(u, f, chain.push(fresh), ss) {
                Err(err) => Err(err),
                Ok(_) => Ok(()),
            }
        },
        BlockV::Raw(_) => Ok(()),
    }
}

/// Analyse `else_if` / `case` arms: condition or value, then the body.
pub open spec fn an_arms(u: Unit, f: Frame, chain: Seq<ScopeV>, arms: Seq<(ExprV, BlockV)>) -> Result<
    (),
    AErr,
>
    decreases arms, 0int,
{
    if arms.len() == 0 {
        Ok(())
    } else {
        match an_expr(u, chain, arms[0].0) {
            Err(err) => Err(err),
            Ok(()) => match an_block(u, f, chain, arms[0].1, None) {
                Err(err) => Err(err),
                Ok(()) => an_arms(u, f, chain, arms.subrange(1, arms.len() as int)),
            },
        }
    }
}

pub open spec fn an_opt_block(
    u: Unit,
    f: Frame,
    chain: Seq<ScopeV>,
    b: Option<BlockV>,
    extra: Option<Seq<char>>,
) -> Result<(), AErr>
    decreases b, 0int,
{
    match b {
        Some(b) => an_block(u, f, chain, b, extra),
        None => Ok(()),
    }
}

/// The frame inside a loop body.
pub open spec fn in_loop(f: Frame) -> Frame {
    Frame { ret: f.ret, in_loop: true }
}

/// Analyse one statement; the chain after it.
pub open spec fn an_stmt(u: Unit, f: Frame, chain: Seq<ScopeV>, st: StmtV) -> Result<
    Seq<ScopeV>,
    AErr,
>
    decreases st, 0int,
{
    match st {
        StmtV::Assign { name, value, is_const, span } => match an_expr(u, chain, value) {
            Err(err) => Err(err),
            Ok(()) => match lookup(chain, name) {
                Some(_) if is_const => Err(
                    (
                        "cannot declare immutable variable '"@ + name + "': it already exists"@,
                        span,
                    ),
                ),
                Some(true) => Err(("cannot assign to immutable variable '"@ + name + "'"@, span)),
                Some(false) => Ok(chain),
                None => Ok(declare(chain, name, is_const)),
            },
        },
        StmtV::Expr(e) => match an_expr(u, chain, e) {
            Err(err) => Err(err),
            Ok(()) => Ok(chain),
        },
        StmtV::Return { value } => match value {
            None => Ok(chain),
            Some(e) => match an_expr(u, chain, e) {
                Err(err) => Err(err),
                Ok(()) => match (f.ret, literal_type(e)) {
                    (Some(declared), Some(found)) if declared != found => Err(
                        (
                            "function returns "@ + ztype_name(found) + ", but declared to return "@
                                + ztype_name(declared),
                            espan(e),
                        ),
                    ),
                    _ => Ok(chain),
                },
            },
        },
        StmtV::Break { span } => if !f.in_loop {
            Err(("'break' outside of a loop"@, span))
        } else {
            Ok(chain)
        },
        StmtV::Continue { span } => if !f.in_loop {
            Err(("'continue' outside of a loop"@, span))
        } else {
            Ok(chain)
        },
        StmtV::Scope { kind, block, span } => if kind == ScopeKind::HighLevel {
            match block {
                BlockV::Stmts(ss) => match an_stmts(u, f, chain.push(Seq::empty()), ss) {
                    Err(err) => Err(err),
                    Ok(_) => Ok(chain),
                },
                BlockV::Raw(_) => Err(("highlevel scope cannot contain raw code"@, span)),
            }
        } else {
            Ok(chain)
        },
        StmtV::If { cond, then, else_ifs, else_branch } => match an_expr(u, chain, cond) {
            Err(err) => Err(err),
            Ok(()) => match an_block(u, f, chain, then, None) {
                Err(err) => Err(err),
                Ok(()) => match an_arms(u, f, chain, else_ifs) {
                    Err(err) => Err(err),
                    Ok(()) => match an_opt_block(u, f, chain, else_branch, None) {
                        Err(err) => Err(err),
                        Ok(()) => Ok(chain),
                    },
                },
            },
        },
        StmtV::While { cond, body } => match an_expr(u, chain, cond) {
            Err(err) => Err(err),
            Ok(()) => match an_block(u, in_loop(f), chain, body, None) {
                Err(err) => Err(err),
                Ok(()) => Ok(chain),
            },
        },
        StmtV::For { var, start, end, body, .. } => match an_expr(u, chain, start) {
            Err(err) => Err(err),
            Ok(()) => match an_expr(u, chain, end) {
                Err(err) => Err(err),
                Ok(()) => match an_block(u, in_loop(f), chain, body, Some(var)) {
                    Err(err) => Err(err),
                    Ok(()) => Ok(chain),
                },
            },
        },
        StmtV::Each { var, iter, body } => match an_expr(u, chain, iter) {
            Err(err) => Err(err),
            Ok(()) => match an_block(u, in_loop(f), chain, body, Some(var)) {
                Err(err) => Err(err),
                Ok(()) => Ok(chain),
            },
        },
        StmtV::Switch { value, arms, default } => match an_expr(u, chain, value) {
            Err(err) => Err(err),
            Ok(()) => match an_arms(u, f, chain, arms) {
                Err(err) => Err(err),
                Ok(()) => match an_opt_block(u, f, chain, default, None) {
                    Err(err) => Err(err),
                    Ok(()) => Ok(chain),
                },
            },
        },
        StmtV::Try { body, catch_var, catch_body } => match an_block(u, f, chain, body, None) {
            Err(err) => Err(err),
            Ok(()) => match an_opt_block(u, f, chain, catch_body, catch_var) {
                Err(err) => Err(err),
                Ok(()) => Ok(chain),
            },
        },
    }
}

/// The scope a function body starts in: its parameters, all mutable.
pub open spec fn param_scope(f: FunctionV) -> ScopeV {
    Seq::new(f.params.len(), |i: int| (f.params[i].name, false))
}

/// Analyse a function against the chain (the unit's global scope).
pub open spec fn an_function(u: Unit, chain: Seq<ScopeV>, func: FunctionV) -> Result<(), AErr> {
    match func.body {
        BlockV::Stmts(ss) => match an_stmts(
            u,
            Frame { ret: func.ret, in_loop: false },
            chain.push(param_scope(func)),
            ss,
        ) {
            Err(err) => Err(err),
            Ok(_) => Ok(()),
        },
        BlockV::Raw(_) => Err(("function body must be a highlevel block"@, func.span)),
    }
}

/// The top-level statements of a program, in order.
pub open spec fn top_stmts(items: Seq<ItemV>) -> Seq<StmtV>
    decreases items.len(),
{
    if items.len() == 0 {
        Seq::empty()
    } else {
        let rest = top_stmts(items.drop_last());
        match items.last() {
            ItemV::Top(st) => rest.push(st),
            _ => rest,
        }
    }
}

/// Analyse the functions among `items` from index `i`, in order.
pub open spec fn an_functions(u: Unit, items: Seq<ItemV>, i: int) -> Result<(), AErr>
    decreases items.len() - i,
{
    if i < 0 || i >= items.len() {
        Ok(())
    } else {
        match items[i] {
            ItemV::Function(func) => match an_function(u, seq![Seq::empty()], func) {
                Err(err) => Err(err),
                Ok(()) => an_functions(u, items, i + 1),
            },
            _ => an_functions(u, items, i + 1),
        }
    }
}

/// Analyse a program: its top-level statements (as one block) and then
/// each function.
pub open spec fn an_program(u: Unit, items: Seq<ItemV>) -> Result<(), AErr> {
    let tops = top_stmts(items);
    let first: Result<(), AErr> = if tops.len() == 0 {
        Ok(())
    } else {
        an_block(u, Frame { ret: None, in_loop: false }, seq![Seq::empty()], BlockV::Stmts(tops), None)
    };
    match first {
        Err(err) => Err(err),
        Ok(()) => an_functions(u, items, 0),
    }
}

} // verus!
