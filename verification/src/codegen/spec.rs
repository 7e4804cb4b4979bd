//! The Rust text that code generation emits, as functions over the
//! program's view.
//!
//! Generation state (`GenState`): the body emitted so far, the indentation
//! level, the Zero variables declared per open block (the same chain shape
//! as scope analysis uses), the declared return type of the function being
//! generated, whether `import io` is active, and whether `call_sys` has
//! been emitted.

use vstd::prelude::*;

use crate::ast::{BinOp, BlockV, ExprV, FunctionV, ItemV, ParamV, ProgramV, ScopeKind, StmtV, UnOp, ZType};
use crate::codegen::runtime::{SYS_PREAMBLE, ZVAL_RUNTIME};
use crate::import::functions_of_items;
use crate::import::stdlib::builtin_use_spec;
use crate::scope::spec::{param_scope, top_stmts};
use crate::codegen::emit::{
    ends_with_return_spec, escaped, indent_text, join, lines_from, rust_block_spec, trim_end_spec,
};
use crate::scope::spec::{declare, lookup, ScopeV};
use crate::text::int_text;

verus! {

pub struct GenState {
    pub body: Seq<char>,
    pub indent: nat,
    pub blocks: Seq<ScopeV>,
    pub ret: Option<ZType>,
    pub io: bool,
    pub sys: bool,
}

/// Emit one line at the current indentation.
pub open spec fn g_line(g: GenState, text: Seq<char>) -> GenState {
    GenState { body: g.body + indent_text(g.indent) + text + "\n"@, ..g }
}

pub open spec fn g_indent(g: GenState, n: nat) -> GenState {
    GenState { indent: n, ..g }
}

/// Rust source for a declared Zero type.
pub open spec fn ztype_code_spec(t: ZType) -> Seq<char> {
    match t {
        ZType::Int => "ZValType::Int"@,
        ZType::Float => "ZValType::Float"@,
        ZType::Str => "ZValType::Str"@,
        ZType::Bool => "ZValType::Bool"@,
    }
}

/// The runtime helper behind `type_to<T>`.
pub open spec fn conversion_helper(t: ZType) -> Seq<char> {
    match t {
        ZType::Int => "__zero_to_int"@,
        ZType::Float => "__zero_to_float"@,
        ZType::Str => "__zero_to_str"@,
        ZType::Bool => "__zero_to_bool"@,
    }
}

/// Whether one of the first `k` characters is `.`, `e` or `E`.
pub open spec fn any_float_mark(t: Seq<char>, k: int) -> bool
    decreases k,
{
    if k <= 0 {
        false
    } else {
        any_float_mark(t, k - 1) || t[k - 1] == '.' || t[k - 1] == 'e' || t[k - 1] == 'E'
    }
}

/// Whether `inf` occurs within the first `k` characters.
pub open spec fn any_inf(t: Seq<char>, k: int) -> bool
    decreases k,
{
    if k < 3 {
        false
    } else {
        any_inf(t, k - 1) || (t[k - 3] == 'i' && t[k - 2] == 'n' && t[k - 1] == 'f')
    }
}

/// A float literal's text as valid Rust: `.0` is added to an integral
/// rendering so that it is unambiguously a float.
pub open spec fn float_literal_spec(t: Seq<char>) -> Seq<char> {
    if any_float_mark(t, t.len() as int) || any_inf(t, t.len() as int) || t == "NaN"@ {
        t
    } else {
        t + ".0"@
    }
}

pub open spec fn bool_text(b: bool) -> Seq<char> {
    if b {
        "true"@
    } else {
        "false"@
    }
}

pub open spec fn binop_code(op: BinOp, l: Seq<char>, r: Seq<char>) -> Seq<char> {
    match op {
        BinOp::Add => l + ".add(&"@ + r + ")"@,
        BinOp::Sub => l + ".sub(&"@ + r + ")"@,
        BinOp::Mul => l + ".mul(&"@ + r + ")"@,
        BinOp::Div => l + ".div(&"@ + r + ")"@,
        BinOp::Rem => l + ".rem(&"@ + r + ")"@,
        BinOp::Eq => "ZVal::Bool("@ + l + " == "@ + r + ")"@,
        BinOp::Ne => "ZVal::Bool("@ + l + " != "@ + r + ")"@,
        BinOp::Lt => l + ".lt(&"@ + r + ")"@,
        BinOp::Le => l + ".le(&"@ + r + ")"@,
        BinOp::Gt => l + ".gt(&"@ + r + ")"@,
        BinOp::Ge => l + ".ge(&"@ + r + ")"@,
        BinOp::And => "ZVal::Bool("@ + l + ".to_bool() && "@ + r + ".to_bool())"@,
        BinOp::Or => "ZVal::Bool("@ + l + ".to_bool() || "@ + r + ".to_bool())"@,
    }
}

pub open spec fn unop_code(op: UnOp, o: Seq<char>) -> Seq<char> {
    match op {
        UnOp::Neg => o + ".neg()"@,
        UnOp::Not => "ZVal::Bool(!"@ + o + ".to_bool())"@,
    }
}

/// Whether a call's callee is one whose first argument the generator
/// reads: the builtins, and the `io` functions when `io` is imported.
pub open spec fn needs_first_arg(io: bool, callee: Seq<char>) -> bool {
    callee == "call_rust"@ || callee == "call_sys"@ || (io && (callee == "print"@ || callee
        == "input"@ || callee == "set_stream"@))
}

/// Every call whose first argument the generator reads has one.
pub open spec fn calls_ok(io: bool, e: ExprV) -> bool
    decreases e, 0int,
{
    match e {
        ExprV::TypeTo { value, .. } => calls_ok(io, *value),
        ExprV::Call { callee, args, .. } => (needs_first_arg(io, callee) ==> args.len() >= 1)
            && calls_ok_all(io, args),
        ExprV::Binary { lhs, rhs, .. } => calls_ok(io, *lhs) && calls_ok(io, *rhs),
        ExprV::Unary { operand, .. } => calls_ok(io, *operand),
        _ => true,
    }
}

pub open spec fn calls_ok_all(io: bool, es: Seq<ExprV>) -> bool
    decreases es, 1int,
{
    if es.len() == 0 {
        true
    } else {
        calls_ok(io, es[0]) && calls_ok_all(io, es.subrange(1, es.len() as int))
    }
}

/// The code of an expression at indentation `ind`, and whether it calls
/// `call_sys`.
pub open spec fn g_expr(io: bool, ind: nat, e: ExprV) -> (Seq<char>, bool)
    decreases e, 0int,
{
    match e {
        ExprV::Int(v, _) => ("ZVal::Int("@ + int_text(v as int) + ")"@, false),
        ExprV::Float(t, _) => ("ZVal::Float("@ + float_literal_spec(t) + ")"@, false),
        ExprV::Str(s, _) => ("ZVal::Str("@ + escaped(s) + ".into())"@, false),
        ExprV::Bool(b, _) => ("ZVal::Bool("@ + bool_text(b) + ")"@, false),
        ExprV::Nil(_) => ("ZVal::Nil"@, false),
        ExprV::Ident(name, _) => (name + ".clone()"@, false),
        ExprV::TypeTo { ty, value, .. } => {
            let (a, s) = g_expr(io, ind, *value);
            (conversion_helper(ty) + "(&"@ + a + ")"@, s)
        },
        ExprV::Call { callee, args, .. } => if callee == "call_rust"@ {
            match args[0] {
                ExprV::Str(raw, _) => (rust_block_spec(raw, ind), false),
                _ => ("/* invalid call_rust */"@, false),
            }
        } else if callee == "call_sys"@ {
            let (a, _) = g_first_arg(io, ind, args);
            ("__zero_sys("@ + a + ")"@, true)
        } else if io && (callee == "print"@ || callee == "input"@) {
            let (f, s1) = g_first_arg(io, ind, args);
            let (rest, s2) = if args.len() > 0 {
                let tail = args.subrange(1, args.len() as int);
                (join(g_codes(io, ind, tail), ", "@), g_any_sys(io, ind, tail))
            } else {
                (Seq::empty(), false)
            };
            (callee + "("@ + f + ", &["@ + rest + "])"@, s1 || s2)
        } else if io && callee == "input_s"@ {
            ("input_s()"@, false)
        } else if io && callee == "set_stream"@ {
            let (kind, s1) = g_first_arg(io, ind, args);
            let (name, s2) = if args.len() >= 2 {
                let (n, s) = g_io_arg(io, ind, args[1]);
                ("Some("@ + n + ")"@, s)
            } else {
                ("None"@, false)
            };
            ("set_stream("@ + kind + ", "@ + name + ")"@, s1 || s2)
        } else {
            (callee + "("@ + join(g_codes(io, ind, args), ", "@) + ")"@, g_any_sys(io, ind, args))
        },
        ExprV::Binary { op, lhs, rhs, .. } => {
            let (l, s1) = g_expr(io, ind, *lhs);
            let (r, s2) = g_expr(io, ind, *rhs);
            (binop_code(op, l, r), s1 || s2)
        },
        ExprV::Unary { op, operand, .. } => {
            let (o, s) = g_expr(io, ind, *operand);
            (unop_code(op, o), s)
        },
    }
}

/// An argument that must reach Rust as a `&str`: string literals stay
/// literals, everything else is stringified by the runtime.
pub open spec fn g_io_arg(io: bool, ind: nat, e: ExprV) -> (Seq<char>, bool)
    decreases e, 1int,
{
    match e {
        ExprV::Str(s, _) => (escaped(s), false),
        _ => {
            let (c, s) = g_expr(io, ind, e);
            ("&"@ + c + ".to_rust_string()"@, s)
        },
    }
}

/// The first argument as a `&str` (nothing when there is none).
pub open spec fn g_first_arg(io: bool, ind: nat, args: Seq<ExprV>) -> (Seq<char>, bool)
    decreases args, 2int,
{
    if args.len() == 0 {
        (Seq::empty(), false)
    } else {
        g_io_arg(io, ind, args[0])
    }
}

/// The codes of expressions, in order.
pub open spec fn g_codes(io: bool, ind: nat, es: Seq<ExprV>) -> Seq<Seq<char>>
    decreases es, 2int,
{
    if es.len() == 0 {
        Seq::empty()
    } else {
        seq![g_expr(io, ind, es[0]).0] + g_codes(io, ind, es.subrange(1, es.len() as int))
    }
}

/// Whether any of the expressions calls `call_sys`.
pub open spec fn g_any_sys(io: bool, ind: nat, es: Seq<ExprV>) -> bool
    decreases es, 2int,
{
    if es.len() == 0 {
        false
    } else {
        g_expr(io, ind, es[0]).1 || g_any_sys(io, ind, es.subrange(1, es.len() as int))
    }
}

/// Emit an expression's code as the generator does: the text, with the
/// state recording a `call_sys`.
pub open spec fn g_emit_expr(g: GenState, e: ExprV) -> (Seq<char>, GenState) {
    let (code, s) = g_expr(g.io, g.indent, e);
    (code, GenState { sys: g.sys || s, ..g })
}

/// Emit the lines of a raw block: each line without trailing whitespace,
/// empty lines as bare newlines.
pub open spec fn g_raw_lines(g: GenState, lines: Seq<Seq<char>>) -> GenState
    decreases lines.len(),
{
    if lines.len() == 0 {
        g
    } else {
        let trimmed = trim_end_spec(lines[0]);
        let g1 = if trimmed.len() == 0 {
            GenState { body: g.body + "\n"@, ..g }
        } else {
            g_line(g, trimmed)
        };
        g_raw_lines(g1, lines.subrange(1, lines.len() as int))
    }
}

pub open spec fn g_raw(g: GenState, text: Seq<char>) -> GenState {
    g_raw_lines(g, lines_from(text, 0))
}

/// How many indentation levels generating a statement may add.
pub open spec fn nest_stmt(st: StmtV) -> nat
    decreases st, 1int,
{
    match st {
        StmtV::Scope { block, .. } => 1 + nest_block(block),
        StmtV::If { then, else_ifs, else_branch, .. } => 1 + max3(
            nest_block(then),
            nest_arms(else_ifs),
            nest_opt_block(else_branch),
        ),
        StmtV::While { body, .. } => 1 + nest_block(body),
        StmtV::For { body, .. } => 1 + nest_block(body),
        StmtV::Each { body, .. } => 3 + nest_block(body),
        StmtV::Switch { arms, default, .. } => 1 + max3(nest_arms(arms), nest_opt_block(default), 0),
        StmtV::Try { body, catch_body, .. } => 2 + max3(nest_block(body), nest_opt_block(catch_body), 0),
        _ => 0,
    }
}

pub open spec fn max3(a: nat, b: nat, c: nat) -> nat {
    if a >= b && a >= c {
        a
    } else if b >= c {
        b
    } else {
        c
    }
}

pub open spec fn nest_stmts(ss: Seq<StmtV>) -> nat
    decreases ss, 0int,
{
    if ss.len() == 0 {
        0
    } else {
        max3(nest_stmt(ss[0]), nest_stmts(ss.subrange(1, ss.len() as int)), 0)
    }
}

pub open spec fn nest_block(b: BlockV) -> nat
    decreases b, 2int,
{
    match b {
        BlockV::Stmts(ss) => nest_stmts(ss),
        BlockV::Raw(_) => 0,
    }
}

pub open spec fn nest_opt_block(b: Option<BlockV>) -> nat
    decreases b, 3int,
{
    match b {
        Some(b) => nest_block(b),
        None => 0,
    }
}

pub open spec fn nest_arms(arms: Seq<(ExprV, BlockV)>) -> nat
    decreases arms, 0int,
{
    if arms.len() == 0 {
        0
    } else {
        max3(nest_block(arms[0].1), nest_arms(arms.subrange(1, arms.len() as int)), 0)
    }
}

/// Every call in a statement has the arguments the generator reads.
pub open spec fn stmt_calls_ok(io: bool, st: StmtV) -> bool
    decreases st, 1int,
{
    match st {
        StmtV::Assign { value, .. } => calls_ok(io, value),
        StmtV::Expr(e) => calls_ok(io, e),
        StmtV::Return { value } => match value {
            Some(e) => calls_ok(io, e),
            None => true,
        },
        StmtV::Scope { block, .. } => block_calls_ok(io, block),
        StmtV::If { cond, then, else_ifs, else_branch } => calls_ok(io, cond) && block_calls_ok(
            io,
            then,
        ) && arms_calls_ok(io, else_ifs) && opt_block_calls_ok(io, else_branch),
        StmtV::While { cond, body } => calls_ok(io, cond) && block_calls_ok(io, body),
        StmtV::For { start, end, body, .. } => calls_ok(io, start) && calls_ok(io, end)
            && block_calls_ok(io, body),
        StmtV::Each { iter, body, .. } => calls_ok(io, iter) && block_calls_ok(io, body),
        StmtV::Switch { value, arms, default } => calls_ok(io, value) && arms_calls_ok(io, arms)
            && opt_block_calls_ok(io, default),
        StmtV::Try { body, catch_body, .. } => block_calls_ok(io, body) && opt_block_calls_ok(
            io,
            catch_body,
        ),
        _ => true,
    }
}

pub open spec fn stmts_calls_ok(io: bool, ss: Seq<StmtV>) -> bool
    decreases ss, 0int,
{
    if ss.len() == 0 {
        true
    } else {
        stmt_calls_ok(io, ss[0]) && stmts_calls_ok(io, ss.subrange(1, ss.len() as int))
    }
}

pub open spec fn block_calls_ok(io: bool, b: BlockV) -> bool
    decreases b, 2int,
{
    match b {
        BlockV::Stmts(ss) => stmts_calls_ok(io, ss),
        BlockV::Raw(_) => true,
    }
}

pub open spec fn opt_block_calls_ok(io: bool, b: Option<BlockV>) -> bool
    decreases b, 3int,
{
    match b {
        Some(b) => block_calls_ok(io, b),
        None => true,
    }
}

pub open spec fn arms_calls_ok(io: bool, arms: Seq<(ExprV, BlockV)>) -> bool
    decreases arms, 0int,
{
    if arms.len() == 0 {
        true
    } else {
        calls_ok(io, arms[0].0) && block_calls_ok(io, arms[0].1) && arms_calls_ok(
            io,
            arms.subrange(1, arms.len() as int),
        )
    }
}

/// Generate a statement list.
pub open spec fn g_stmts(g: GenState, ss: Seq<StmtV>) -> GenState
    decreases ss, 0int,
{
    if ss.len() == 0 {
        g
    } else {
        g_stmts(g_stmt(g, ss[0]), ss.subrange(1, ss.len() as int))
    }
}

/// Generate a block's body inside a fresh Rust block; `extra` is a
/// variable (name and initial code) pre-declared there.
pub open spec fn g_block_body(g: GenState, b: BlockV, extra: Option<(Seq<char>, Seq<char>)>) -> GenState
    decreases b, 0int,
{
    let g1 = GenState {
        blocks: g.blocks.push(
            match extra {
                Some((v, _)) => seq![(v, false)],
                None => Seq::empty(),
            },
        ),
        ..g
    };
    let g2 = match extra {
        Some((v, init)) => g_line(g1, "let "@ + v + ": ZVal = "@ + init + ";"@),
        None => g1,
    };
    let g3 = match b {
        BlockV::Stmts(ss) => g_stmts(g2, ss),
        BlockV::Raw(text) => g_raw(g2, text),
    };
    GenState { blocks: g.blocks, ..g3 }
}

/// `} else if cond {` arms of an `if`.
pub open spec fn g_else_ifs(g: GenState, arms: Seq<(ExprV, BlockV)>) -> GenState
    decreases arms, 0int,
{
    if arms.len() == 0 {
        g
    } else {
        let (c, g1) = g_emit_expr(g, arms[0].0);
        let g2 = g_line(g1, "} else if "@ + c + ".to_bool() {"@);
        let g3 = g_block_body(g_indent(g2, g2.indent + 1), arms[0].1, None);
        g_else_ifs(g_indent(g3, g.indent), arms.subrange(1, arms.len() as int))
    }
}

/// The `case` arms of a `switch`; `first` is whether this is the first.
pub open spec fn g_cases(g: GenState, arms: Seq<(ExprV, BlockV)>, first: bool) -> GenState
    decreases arms, 0int,
{
    if arms.len() == 0 {
        g
    } else {
        let (a, g1) = g_emit_expr(g, arms[0].0);
        let head = if first {
            "if __zero_sw == "@ + a + " {"@
        } else {
            "} else if __zero_sw == "@ + a + " {"@
        };
        let g2 = g_line(g1, head);
        let g3 = g_block_body(g_indent(g2, g2.indent + 1), arms[0].1, None);
        g_cases(g_indent(g3, g.indent), arms.subrange(1, arms.len() as int), false)
    }
}

/// A nested block at one more indentation level, then back.
pub open spec fn g_nested(g: GenState, b: BlockV, extra: Option<(Seq<char>, Seq<char>)>) -> GenState
    decreases b, 1int,
{
    g_indent(g_block_body(g_indent(g, g.indent + 1), b, extra), g.indent)
}

/// `return value;`, checked against the declared return type.
pub open spec fn return_line(ret: Option<ZType>, expr: Seq<char>) -> Seq<char> {
    match ret {
        Some(t) => "return __zero_check_type(&"@ + expr + ", "@ + ztype_code_spec(t) + ");"@,
        None => "return "@ + expr + ";"@,
    }
}

/// The `try` body as a closure run under `catch_unwind`; a `return`
/// inside it ends the closure, so no return-type check applies there.
pub open spec fn g_try_closure(g: GenState, body: BlockV) -> GenState
    decreases body, 1int,
{
    let g1 = g_line(g, "let __zero_try = std::panic::catch_unwind(|| -> ZVal {"@);
    let g2 = GenState { indent: g.indent + 1, ret: None, blocks: g.blocks.push(Seq::empty()), ..g1 };
    let g3 = match body {
        BlockV::Stmts(ss) => {
            let gs = g_stmts(g2, ss);
            if !ends_with_return_spec(ss) {
                g_line(gs, "return ZVal::Nil;"@)
            } else {
                gs
            }
        },
        BlockV::Raw(text) => g_raw(g2, text),
    };
    g_line(GenState { indent: g.indent, ret: g.ret, blocks: g.blocks, ..g3 }, "});"@)
}

/// The `catch` part: the panic message bound to `catch_var`.
pub open spec fn g_try_catch(g: GenState, catch_var: Option<Seq<char>>, catch_body: Option<BlockV>) -> GenState
    decreases catch_body, 1int,
{
    match catch_body {
        Some(cb) => {
            let g5 = g_line(g, "if let Err(__zero_payload) = __zero_try {"@);
            let g6 = g_line(g_indent(g5, g.indent + 1), "let __zero_msg = __zero_payload"@);
            let g7 = g_line(g_indent(g6, g.indent + 2), ".downcast_ref::<&str>().map(|s| s.to_string())"@);
            let g8 = g_line(g7, ".or_else(|| __zero_payload.downcast_ref::<String>().cloned())"@);
            let g9 = g_line(g8, ".unwrap_or_else(|| \"panic\".to_string());"@);
            let extra = match catch_var {
                Some(v) => Some((v, "ZVal::Str(__zero_msg.clone())"@)),
                None => None,
            };
            let g10 = g_block_body(g_indent(g9, g.indent + 1), cb, extra);
            g_line(g_indent(g10, g.indent), "}"@)
        },
        None => g,
    }
}

/// Generate one statement.
pub open spec fn g_stmt(g: GenState, st: StmtV) -> GenState
    decreases st, 0int,
{
    match st {
        StmtV::Assign { name, value, is_const, .. } => {
            let (code, g1) = g_emit_expr(g, value);
            if lookup(g1.blocks, name) is Some {
                g_line(g1, name + " = "@ + code + ";"@)
            } else {
                let kw = if is_const {
                    "let"@
                } else {
                    "let mut"@
                };
                g_line(
                    GenState { blocks: declare(g1.blocks, name, is_const), ..g1 },
                    kw + " "@ + name + ": ZVal = "@ + code + ";"@,
                )
            }
        },
        StmtV::Expr(e) => {
            let (code, g1) = g_emit_expr(g, e);
            g_line(g1, code + ";"@)
        },
        StmtV::Return { value } => {
            let (code, g1) = match value {
                Some(e) => g_emit_expr(g, e),
                None => ("ZVal::Nil"@, g),
            };
            g_line(g1, return_line(g.ret, code))
        },
        StmtV::Break { .. } => g_line(g, "break;"@),
        StmtV::Continue { .. } => g_line(g, "continue;"@),
        StmtV::Scope { kind, block, .. } => {
            let g1 = g_line(g, "{"@);
            let g2 = GenState { indent: g.indent + 1, blocks: g.blocks.push(Seq::empty()), ..g1 };
            let g3 = match (kind, block) {
                (ScopeKind::HighLevel, BlockV::Stmts(ss)) => g_stmts(g2, ss),
                (ScopeKind::LowLevel, BlockV::Raw(text)) => g_raw(g2, text),
                _ => g_line(g2, "// unreachable: malformed scope block"@),
            };
            g_line(GenState { indent: g.indent, blocks: g.blocks, ..g3 }, "}"@)
        },
        StmtV::If { cond, then, else_ifs, else_branch } => {
            let (c, g1) = g_emit_expr(g, cond);
            let g2 = g_line(g1, "if "@ + c + ".to_bool() {"@);
            let g3 = g_nested(g2, then, None);
            let g4 = g_else_ifs(g3, else_ifs);
            let g5 = match else_branch {
                Some(b) => g_nested(g_line(g4, "} else {"@), b, None),
                None => g4,
            };
            g_line(g5, "}"@)
        },
        StmtV::While { cond, body } => {
            let (c, g1) = g_emit_expr(g, cond);
            let g2 = g_line(g1, "while "@ + c + ".to_bool() {"@);
            g_line(g_nested(g2, body, None), "}"@)
        },
        StmtV::For { var, start, end, inclusive, body } => {
            let (s, g1) = g_emit_expr(g, start);
            let (e, g2) = g_emit_expr(g1, end);
            let adj = if inclusive {
                " + 1"@
            } else {
                Seq::empty()
            };
            let g3 = g_line(g2, "let __zero_loop_start = "@ + s + ".as_int().unwrap_or(0);"@);
            let g4 = g_line(g3, "let __zero_loop_end = "@ + e + ".as_int().unwrap_or(0)"@ + adj + ";"@);
            let g5 = g_line(g4, "for __zero_i in __zero_loop_start..__zero_loop_end {"@);
            g_line(g_nested(g5, body, Some((var, "ZVal::Int(__zero_i)"@))), "}"@)
        },
        StmtV::Each { var, iter, body } => {
            let (it, g1) = g_emit_expr(g, iter);
            let g2 = g_line(g1, "let __zero_each = "@ + it + ";"@);
            let g3 = g_line(g2, "match &__zero_each {"@);
            let g4 = g_line(g_indent(g3, g.indent + 1), "ZVal::Int(__zero_n) => {"@);
            let g5 = g_line(g_indent(g4, g.indent + 2), "for __zero_i in 0..*__zero_n {"@);
            let g6 = g_nested(g5, body, Some((var, "ZVal::Int(__zero_i)"@)));
            let g7 = g_line(g6, "}"@);
            let g8 = g_line(g_indent(g7, g.indent + 1), "}"@);
            let g9 = g_line(g8, "ZVal::Str(__zero_s) => {"@);
            let g10 = g_line(g_indent(g9, g.indent + 2), "for __zero_c in __zero_s.chars() {"@);
            let g11 = g_nested(g10, body, Some((var, "ZVal::Str(__zero_c.to_string())"@)));
            let g12 = g_line(g11, "}"@);
            let g13 = g_line(g_indent(g12, g.indent + 1), "}"@);
            let g14 = g_line(g13, "_ => {}"@);
            g_line(g_indent(g14, g.indent), "}"@)
        },
        StmtV::Switch { value, arms, default } => {
            let (v, g1) = g_emit_expr(g, value);
            let g2 = g_line(g1, "let __zero_sw = "@ + v + ";"@);
            let g3 = g_cases(g2, arms, true);
            let g4 = match default {
                Some(b) => {
                    let head = if arms.len() == 0 {
                        "else {"@
                    } else {
                        "} else {"@
                    };
                    g_nested(g_line(g3, head), b, None)
                },
                None => g3,
            };
            if arms.len() > 0 || default is Some {
                g_line(g4, "}"@)
            } else {
                g4
            }
        },
        StmtV::Try { body, catch_var, catch_body } => g_try_catch(
            g_try_closure(g, body),
            catch_var,
            catch_body,
        ),
    }
}

} // verus!

verus! {

/// A function's parameter list: `mut name: ZVal`, comma separated.
pub open spec fn param_list(ps: Seq<ParamV>) -> Seq<char> {
    join(Seq::new(ps.len(), |i: int| "mut "@ + ps[i].name + ": ZVal"@), ", "@)
}

/// Runtime type checks for annotated parameters.
pub open spec fn g_param_checks(g: GenState, ps: Seq<ParamV>) -> GenState
    decreases ps.len(),
{
    if ps.len() == 0 {
        g
    } else {
        let g1 = match ps[0].ty {
            Some(t) => g_line(g, "__zero_check_type(&"@ + ps[0].name + ", "@ + ztype_code_spec(t) + ");"@),
            None => g,
        };
        g_param_checks(g1, ps.subrange(1, ps.len() as int))
    }
}

/// Generate a function: a `ZVal` parameter per Zero parameter, checks for
/// annotated ones, the body, and an implicit `return nil` unless the body
/// ends with a `return`.
pub open spec fn g_function(g: GenState, f: FunctionV) -> GenState {
    let g1 = g_line(g, "fn "@ + f.name + "("@ + param_list(f.params) + ") -> ZVal {"@);
    let g2 = GenState { indent: g.indent + 1, blocks: g.blocks.push(param_scope(f)), ..g1 };
    let g3 = g_param_checks(g2, f.params);
    let g4 = GenState { ret: f.ret, ..g3 };
    let g5 = match f.body {
        BlockV::Stmts(ss) => {
            let gs = g_stmts(g4, ss);
            if !ends_with_return_spec(ss) {
                g_line(gs, return_line(f.ret, "ZVal::Nil"@))
            } else {
                gs
            }
        },
        BlockV::Raw(_) => g4,
    };
    g_line(GenState { indent: g.indent, blocks: g.blocks, ret: None, ..g5 }, "}"@)
}

/// Generate functions in order.
pub open spec fn g_functions(g: GenState, fs: Seq<FunctionV>) -> GenState
    decreases fs.len(),
{
    if fs.len() == 0 {
        g
    } else {
        g_functions(g_function(g, fs[0]), fs.subrange(1, fs.len() as int))
    }
}

/// Top-level statements become `fn main() -> ZVal { ... }`.
pub open spec fn g_top(g: GenState, items: Seq<ItemV>) -> GenState {
    let tops = top_stmts(items);
    if tops.len() == 0 {
        g
    } else {
        let g1 = g_line(g, "fn main() -> ZVal {"@);
        let g2 = GenState { indent: g.indent + 1, blocks: g.blocks.push(Seq::empty()), ..g1 };
        let g3 = g_stmts(g2, tops);
        let g4 = if !ends_with_return_spec(tops) {
            g_line(g3, "return ZVal::Nil;"@)
        } else {
            g3
        };
        g_line(GenState { indent: g.indent, blocks: g.blocks, ..g4 }, "}"@)
    }
}

/// Functions from Zero headers, each header introduced by a comment.
pub open spec fn g_headers(g: GenState, hs: Seq<(Seq<char>, ProgramV)>) -> GenState
    decreases hs.len(),
{
    if hs.len() == 0 {
        g
    } else {
        let g1 = g_line(g, "// ---- import: "@ + hs[0].0 + " ----"@);
        let g2 = g_functions(g1, functions_of_items(hs[0].1.items));
        g_headers(g2, hs.subrange(1, hs.len() as int))
    }
}

/// `use` statements of builtin aliases, each at most once.
pub open spec fn builtin_imports(aliases: Seq<Seq<char>>, emitted: Seq<Seq<char>>) -> Seq<Seq<char>>
    decreases aliases.len(),
{
    if aliases.len() == 0 {
        Seq::empty()
    } else {
        let rest = aliases.subrange(1, aliases.len() as int);
        match builtin_use_spec(aliases[0]) {
            Some(u) => if emitted.contains(u) {
                builtin_imports(rest, emitted)
            } else {
                seq![u] + builtin_imports(rest, emitted.push(u))
            },
            None => builtin_imports(rest, emitted),
        }
    }
}

/// Raw Rust headers, each after a comment naming it.
pub open spec fn header_imports(hs: Seq<(Seq<char>, Seq<char>)>) -> Seq<Seq<char>> {
    Seq::new(hs.len(), |i: int| "// ---- import: "@ + hs[i].0 + " ----\n"@ + hs[i].1)
}

/// Imports, each followed by a blank line.
pub open spec fn imports_text(imports: Seq<Seq<char>>) -> Seq<char>
    decreases imports.len(),
{
    if imports.len() == 0 {
        Seq::empty()
    } else {
        imports_text(imports.drop_last()) + imports.last() + "\n\n"@
    }
}

/// The generated file: header lines, the runtime, imports, the `call_sys`
/// helper when used, then the body.
pub open spec fn assembled(src_name: Seq<char>, imports: Seq<Seq<char>>, sys: bool, body: Seq<char>) -> Seq<char> {
    "#![allow(unused, dead_code, nonstandard_style)]\n"@ + "// Generated by Zero compiler (zeroc v0.3.0)\n"@
        + "// Source: "@ + src_name + "\n"@ + "\n"@ + ZVAL_RUNTIME@ + "\n"@ + imports_text(imports) + (
    if sys {
        SYS_PREAMBLE@ + "\n"@
    } else {
        Seq::empty()
    }) + body
}

/// The generation state a compilation starts in.
pub open spec fn start_state(io: bool) -> GenState {
    GenState { body: Seq::empty(), indent: 0, blocks: Seq::empty(), ret: None, io, sys: false }
}

/// The Rust program generated for `items` with the loaded headers.
pub open spec fn generated(
    items: Seq<ItemV>,
    io: bool,
    builtins: Seq<Seq<char>>,
    rust_headers: Seq<(Seq<char>, Seq<char>)>,
    zero_headers: Seq<(Seq<char>, ProgramV)>,
    src_name: Seq<char>,
) -> Seq<char> {
    let imports = builtin_imports(builtins, Seq::empty()) + header_imports(rust_headers);
    let g1 = g_headers(start_state(io), zero_headers);
    let g2 = g_top(g1, items);
    let g3 = g_functions(g2, functions_of_items(items));
    assembled(src_name, imports, g3.sys, g3.body)
}

/// What generation reads of a program is there: every call the generator
/// reads an argument of has it, and nesting fits the indentation counter.
pub open spec fn gen_ready(io: bool, items: Seq<ItemV>) -> bool {
    forall|i: int|
        0 <= i < items.len() ==> match #[trigger] items[i] {
            ItemV::Function(f) => block_calls_ok(io, f.body) && nest_block(f.body) + 3 <= usize::MAX,
            ItemV::Top(st) => stmt_calls_ok(io, st) && nest_stmt(st) + 3 <= usize::MAX,
            _ => true,
        }
}

} // verus!
