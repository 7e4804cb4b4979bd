//! Whether a program meets what code generation reads of it: every call
//! whose first argument the generator reads has one, and the nesting of
//! blocks fits the indentation counter.

use vstd::prelude::*;

use super::spec::{
    arms_calls_ok, block_calls_ok, calls_ok, calls_ok_all, gen_ready, max3, needs_first_arg,
    nest_arms, nest_block, nest_opt_block, nest_stmt, nest_stmts, opt_block_calls_ok,
    stmt_calls_ok, stmts_calls_ok,
};
use crate::ast::{
    arms_view, exprs_view, opt_block_view, stmts_view, Block, BlockV, Expr, ExprV, Item, ItemV,
    Program, Stmt, StmtV,
};
use crate::scope::{lemma_arms_view_index, lemma_exprs_view_index, lemma_stmts_view_index};
use crate::text::str_eq;

verus! {

/// `n`, capped at `usize::MAX`.
pub open spec fn capped(n: nat) -> usize {
    if n > usize::MAX {
        usize::MAX
    } else {
        n as usize
    }
}

fn cap_plus(k: usize, c: usize, Ghost(n): Ghost<nat>) -> (r: usize)
    requires
        c == capped(n),
    ensures
        r == capped((k + n) as nat),
{
    c.saturating_add(k)
}

fn cap_max3(a: usize, b: usize, c: usize, Ghost(x): Ghost<nat>, Ghost(y): Ghost<nat>, Ghost(z): Ghost<nat>) -> (r: usize)
    requires
        a == capped(x),
        b == capped(y),
        c == capped(z),
    ensures
        r == capped(max3(x, y, z)),
{
    if a >= b && a >= c {
        a
    } else if b >= c {
        b
    } else {
        c
    }
}

fn first_arg_needed(io: bool, callee: &str) -> (r: bool)
    ensures
        r == needs_first_arg(io, callee@),
{
    str_eq(callee, "call_rust") || str_eq(callee, "call_sys") || (io && (str_eq(callee, "print")
        || str_eq(callee, "input") || str_eq(callee, "set_stream")))
}

fn expr_ok(io: bool, e: &Expr) -> (r: bool)
    ensures
        r == calls_ok(io, e@),
    decreases e, 1int,
{
    match e {
        Expr::Call { callee, args, .. } => {
            proof {
                lemma_exprs_view_index(args@);
            }
            if first_arg_needed(io, callee.as_str()) && args.len() < 1 {
                false
            } else {
                args_ok(io, args)
            }
        },
        Expr::TypeTo { value, .. } => expr_ok(io, value),
        Expr::Binary { lhs, rhs, .. } => expr_ok(io, lhs) && expr_ok(io, rhs),
        Expr::Unary { operand, .. } => expr_ok(io, operand),
        _ => true,
    }
}

fn args_ok(io: bool, args: &Vec<Expr>) -> (r: bool)
    ensures
        r == calls_ok_all(io, exprs_view(args@)),
    decreases args, 0int,
{
    let ghost av = exprs_view(args@);
    proof {
        lemma_exprs_view_index(args@);
        assert(av.subrange(av.len() as int, av.len() as int) =~= Seq::<ExprV>::empty());
    }
    let mut k = args.len();
    let mut acc = true;
    while k > 0
        invariant
            k <= args@.len(),
            av == exprs_view(args@),
            av.len() == args@.len(),
            forall|j: int| 0 <= j < args@.len() ==> #[trigger] av[j] == args@[j]@,
            acc == calls_ok_all(io, av.subrange(k as int, av.len() as int)),
        decreases k,
    {
        proof {
            assert(decreases_to!(args => args@));
            assert(decreases_to!(args@ => args@[k - 1]));
        }
        let here = expr_ok(io, &args[k - 1]);
        proof {
            let tail = av.subrange(k - 1, av.len() as int);
            assert(tail[0] == av[k - 1]);
            assert(tail.subrange(1, tail.len() as int) =~= av.subrange(k as int, av.len() as int));
        }
        acc = here && acc;
        k = k - 1;
    }
    proof {
        assert(av.subrange(0, av.len() as int) =~= av);
    }
    acc
}

fn stmt_ok(io: bool, st: &Stmt) -> (r: (bool, usize))
    ensures
        r.0 == stmt_calls_ok(io, st@),
        r.1 == capped(nest_stmt(st@)),
    decreases st, 1int,
{
    match st {
        Stmt::Assign { value, .. } => (expr_ok(io, value), 0),
        Stmt::Expr(e) => (expr_ok(io, e), 0),
        Stmt::Return { value } => match value {
            Some(e) => (expr_ok(io, e), 0),
            None => (true, 0),
        },
        Stmt::Scope { block, .. } => {
            let (ok, n) = block_ok(io, block);
            (ok, cap_plus(1, n, Ghost(nest_block(block@))))
        },
        Stmt::If { cond, then, else_ifs, else_branch } => {
            let c = expr_ok(io, cond);
            let (t_ok, t_n) = block_ok(io, then);
            let (a_ok, a_n) = arms_ok(io, else_ifs);
            let (e_ok, e_n) = opt_block_ok(io, else_branch);
            let m = cap_max3(
                t_n,
                a_n,
                e_n,
                Ghost(nest_block(then@)),
                Ghost(nest_arms(arms_view(else_ifs@))),
                Ghost(nest_opt_block(opt_block_view(*else_branch))),
            );
            (c && t_ok && a_ok && e_ok, cap_plus(1, m, Ghost(max3(nest_block(then@), nest_arms(arms_view(else_ifs@)), nest_opt_block(opt_block_view(*else_branch))))))
        },
        Stmt::While { cond, body } => {
            let c = expr_ok(io, cond);
            let (ok, n) = block_ok(io, body);
            (c && ok, cap_plus(1, n, Ghost(nest_block(body@))))
        },
        Stmt::For { start, end, body, .. } => {
            let a = expr_ok(io, start);
            let b = expr_ok(io, end);
            let (ok, n) = block_ok(io, body);
            (a && b && ok, cap_plus(1, n, Ghost(nest_block(body@))))
        },
        Stmt::Each { iter, body, .. } => {
            let c = expr_ok(io, iter);
            let (ok, n) = block_ok(io, body);
            (c && ok, cap_plus(3, n, Ghost(nest_block(body@))))
        },
        Stmt::Switch { value, arms, default } => {
            let c = expr_ok(io, value);
            let (a_ok, a_n) = arms_ok(io, arms);
            let (d_ok, d_n) = opt_block_ok(io, default);
            let m = cap_max3(a_n, d_n, 0, Ghost(nest_arms(arms_view(arms@))), Ghost(nest_opt_block(opt_block_view(*default))), Ghost(0));
            (c && a_ok && d_ok, cap_plus(1, m, Ghost(max3(nest_arms(arms_view(arms@)), nest_opt_block(opt_block_view(*default)), 0))))
        },
        Stmt::Try { body, catch_body, .. } => {
            let (b_ok, b_n) = block_ok(io, body);
            let (c_ok, c_n) = opt_block_ok(io, catch_body);
            let m = cap_max3(b_n, c_n, 0, Ghost(nest_block(body@)), Ghost(nest_opt_block(opt_block_view(*catch_body))), Ghost(0));
            (b_ok && c_ok, cap_plus(2, m, Ghost(max3(nest_block(body@), nest_opt_block(opt_block_view(*catch_body)), 0))))
        },
        _ => (true, 0),
    }
}

fn stmts_ok(io: bool, ss: &Vec<Stmt>) -> (r: (bool, usize))
    ensures
        r.0 == stmts_calls_ok(io, stmts_view(ss@)),
        r.1 == capped(nest_stmts(stmts_view(ss@))),
    decreases ss, 0int,
{
    let ghost sv = stmts_view(ss@);
    proof {
        lemma_stmts_view_index(ss@);
        assert(sv.subrange(sv.len() as int, sv.len() as int) =~= Seq::<StmtV>::empty());
    }
    let mut k = ss.len();
    let mut ok = true;
    let mut n: usize = 0;
    while k > 0
        invariant
            k <= ss@.len(),
            sv == stmts_view(ss@),
            sv.len() == ss@.len(),
            forall|j: int| 0 <= j < ss@.len() ==> #[trigger] sv[j] == ss@[j]@,
            ok == stmts_calls_ok(io, sv.subrange(k as int, sv.len() as int)),
            n == capped(nest_stmts(sv.subrange(k as int, sv.len() as int))),
        decreases k,
    {
        proof {
            assert(decreases_to!(ss => ss@));
            assert(decreases_to!(ss@ => ss@[k - 1]));
        }
        let (here, h) = stmt_ok(io, &ss[k - 1]);
        let ghost tail = sv.subrange(k - 1, sv.len() as int);
        let ghost rest = sv.subrange(k as int, sv.len() as int);
        proof {
            assert(tail[0] == sv[k - 1]);
            assert(tail.subrange(1, tail.len() as int) =~= rest);
        }
        n = cap_max3(h, n, 0, Ghost(nest_stmt(sv[k - 1])), Ghost(nest_stmts(rest)), Ghost(0));
        ok = here && ok;
        k = k - 1;
    }
    proof {
        assert(sv.subrange(0, sv.len() as int) =~= sv);
    }
    (ok, n)
}

fn block_ok(io: bool, b: &Block) -> (r: (bool, usize))
    ensures
        r.0 == block_calls_ok(io, b@),
        r.1 == capped(nest_block(b@)),
    decreases b, 2int,
{
    match b {
        Block::Stmts(ss) => stmts_ok(io, ss),
        Block::Raw(_) => (true, 0),
    }
}

fn opt_block_ok(io: bool, b: &Option<Block>) -> (r: (bool, usize))
    ensures
        r.0 == opt_block_calls_ok(io, opt_block_view(*b)),
        r.1 == capped(nest_opt_block(opt_block_view(*b))),
    decreases b, 3int,
{
    match b {
        Some(inner) => block_ok(io, inner),
        None => (true, 0),
    }
}

fn arms_ok(io: bool, arms: &Vec<(Expr, Block)>) -> (r: (bool, usize))
    ensures
        r.0 == arms_calls_ok(io, arms_view(arms@)),
        r.1 == capped(nest_arms(arms_view(arms@))),
    decreases arms, 0int,
{
    let ghost av = arms_view(arms@);
    proof {
        lemma_arms_view_index(arms@);
        assert(av.subrange(av.len() as int, av.len() as int) =~= Seq::<(ExprV, BlockV)>::empty());
    }
    let mut k = arms.len();
    let mut ok = true;
    let mut n: usize = 0;
    while k > 0
        invariant
            k <= arms@.len(),
            av == arms_view(arms@),
            av.len() == arms@.len(),
            forall|j: int| 0 <= j < arms@.len() ==> #[trigger] av[j] == (arms@[j].0@, arms@[j].1@),
            ok == arms_calls_ok(io, av.subrange(k as int, av.len() as int)),
            n == capped(nest_arms(av.subrange(k as int, av.len() as int))),
        decreases k,
    {
        proof {
            assert(decreases_to!(arms => arms@));
            assert(decreases_to!(arms@ => arms@[k - 1]));
            assert(decreases_to!(arms@[k - 1] => arms@[k - 1].1));
        }
        let c = expr_ok(io, &arms[k - 1].0);
        let (b_ok, h) = block_ok(io, &arms[k - 1].1);
        let ghost tail = av.subrange(k - 1, av.len() as int);
        let ghost rest = av.subrange(k as int, av.len() as int);
        proof {
            assert(tail[0] == av[k - 1]);
            assert(tail.subrange(1, tail.len() as int) =~= rest);
        }
        n = cap_max3(h, n, 0, Ghost(nest_block(av[k - 1].1)), Ghost(nest_arms(rest)), Ghost(0));
        ok = c && b_ok && ok;
        k = k - 1;
    }
    proof {
        assert(av.subrange(0, av.len() as int) =~= av);
    }
    (ok, n)
}

/// Whether code generation can take `prog` with the `io` header imported
/// or not: every call whose first argument the generator reads has one,
/// and no block nests deeper than the indentation counter allows.
pub fn ready_for_codegen(prog: &Program, io: bool) -> (r: bool)
    ensures
        r == gen_ready(io, prog@.items),
{
    let ghost iv = prog@.items;
    let mut k: usize = 0;
    while k < prog.items.len()
        invariant
            k <= prog.items@.len(),
            iv == prog@.items,
            iv.len() == prog.items@.len(),
            forall|i: int| 0 <= i < k ==> match #[trigger] iv[i] {
                ItemV::Function(f) => block_calls_ok(io, f.body) && nest_block(f.body) + 3 <= usize::MAX,
                ItemV::Top(st) => stmt_calls_ok(io, st) && nest_stmt(st) + 3 <= usize::MAX,
                _ => true,
            },
        decreases prog.items@.len() - k,
    {
        let fine = match &prog.items[k] {
            Item::Function(f) => {
                let (ok, n) = block_ok(io, &f.body);
                ok && n <= usize::MAX - 3
            },
            Item::Top(st) => {
                let (ok, n) = stmt_ok(io, st);
                ok && n <= usize::MAX - 3
            },
            _ => true,
        };
        if !fine {
            proof {
                assert(!match iv[k as int] {
                    ItemV::Function(f) => block_calls_ok(io, f.body) && nest_block(f.body) + 3 <= usize::MAX,
                    ItemV::Top(st) => stmt_calls_ok(io, st) && nest_stmt(st) + 3 <= usize::MAX,
                    _ => true,
                });
            }
            return false;
        }
        k = k + 1;
    }
    true
}

} // verus!
