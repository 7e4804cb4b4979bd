//! Properties of operators, calls and standard headers: what the lexer,
//! parser, analyzer, generator and loader must agree on whatever their
//! tables say.

use vstd::prelude::*;

use crate::codegen::spec::binop_code;
use crate::import::stdlib::std_source_spec;
use crate::import::{rust_fn_names, std_load, StdState};
use crate::lexer::{punct_spec, TokView};
use crate::parser::spec::binop_of;
use crate::scope::spec::{check_call, Unit};
use crate::ast::{BinOp, ExprV};
use crate::diag::Span;
use vstd::utf8::encode_utf8;

verus! {

// ---------------------------------------------------------------------
// Lexing of operators
// ---------------------------------------------------------------------

/// The text an operator or punctuation token is written as.
spec fn spelling(k: TokView) -> Option<Seq<char>> {
    match k {
        TokView::LBrace => Some(seq!['{']),
        TokView::RBrace => Some(seq!['}']),
        TokView::LParen => Some(seq!['(']),
        TokView::RParen => Some(seq![')']),
        TokView::Semi => Some(seq![';']),
        TokView::Colon => Some(seq![':']),
        TokView::Comma => Some(seq![',']),
        TokView::Dot => Some(seq!['.']),
        TokView::DotDot => Some(seq!['.', '.']),
        TokView::DotDotEq => Some(seq!['.', '.', '=']),
        TokView::Plus => Some(seq!['+']),
        TokView::PlusEq => Some(seq!['+', '=']),
        TokView::Minus => Some(seq!['-']),
        TokView::Arrow => Some(seq!['-', '>']),
        TokView::MinusEq => Some(seq!['-', '=']),
        TokView::Star => Some(seq!['*']),
        TokView::StarEq => Some(seq!['*', '=']),
        TokView::Slash => Some(seq!['/']),
        TokView::Percent => Some(seq!['%']),
        TokView::Bang => Some(seq!['!']),
        TokView::BangEq => Some(seq!['!', '=']),
        TokView::Lt => Some(seq!['<']),
        TokView::Le => Some(seq!['<', '=']),
        TokView::Gt => Some(seq!['>']),
        TokView::Ge => Some(seq!['>', '=']),
        TokView::Equal => Some(seq!['=']),
        TokView::EqEq => Some(seq!['=', '=']),
        _ => None,
    }
}

#[verifier::rlimit(40)]
proof fn lemma_punct_spelling(s: Seq<char>, i: int)
    requires
        0 <= i < s.len(),
    ensures
        punct_spec(s, i) matches Some((k, n)) ==> 0 < n && i + n <= s.len() && spelling(k) == Some(
            s.subrange(i, i + n),
        ),
{
    if let Some((k, n)) = punct_spec(s, i) {
        if n == 1 {
            assert(s.subrange(i, i + 1) =~= seq![s[i]]);
        } else if n == 2 {
            assert(s.subrange(i, i + 2) =~= seq![s[i], s[i + 1]]);
        } else {
            assert(s.subrange(i, i + 3) =~= seq![s[i], s[i + 1], s[i + 2]]);
        }
    }
}

/// Distinct operator spellings give distinct tokens: two operator or
/// punctuation tokens of the same kind have the same length and the same
/// text. (So `!=` and `==` never both lex as one kind.)
pub proof fn operator_kind_determines_spelling(s: Seq<char>, i: int, t: Seq<char>, j: int)
    requires
        0 <= i < s.len(),
        0 <= j < t.len(),
    ensures
        (punct_spec(s, i), punct_spec(t, j)) matches (Some((k1, n1)), Some((k2, n2))) ==> (k1 == k2
            ==> n1 == n2 && s.subrange(i, i + n1) == t.subrange(j, j + n2)),
{
    lemma_punct_spelling(s, i);
    lemma_punct_spelling(t, j);
}

// ---------------------------------------------------------------------
// `!=` against `==`, from the text to the generated code
// ---------------------------------------------------------------------

/// `a` and `b` have the same length and differ only at index `p`, where
/// `a` holds `x` and `b` holds `y`.
pub open spec fn differ_only_at(a: Seq<char>, b: Seq<char>, p: int, x: char, y: char) -> bool {
    &&& a.len() == b.len()
    &&& 0 <= p < a.len()
    &&& a[p] == x
    &&& b[p] == y
    &&& forall|q: int| 0 <= q < a.len() && q != p ==> #[trigger] a[q] == b[q]
}

/// `!=` is the negation of `==` all the way through: the two spellings lex
/// as two-character operators of the same precedence, and on the same
/// operand codes the code generated for `!=` is the code generated for
/// `==` with its `==` turned into `!=` (one character differs, `!` where
/// `==` has its first `=`), operands in the same order.
pub proof fn not_equal_negates_equal(s: Seq<char>, i: int, t: Seq<char>, j: int, l: Seq<char>, r: Seq<char>)
    requires
        0 <= i && i + 1 < s.len(),
        s[i] == '!' && s[i + 1] == '=',
        0 <= j && j + 1 < t.len(),
        t[j] == '=' && t[j + 1] == '=',
    ensures
        match (punct_spec(s, i), punct_spec(t, j)) {
            (Some((kn, nn)), Some((ke, ne))) => {
                &&& nn == 2 && ne == 2
                &&& kn != ke
                &&& match (binop_of(kn), binop_of(ke)) {
                    (Some((on, pn)), Some((oe, pe))) => {
                        &&& pn == pe
                        &&& differ_only_at(
                            binop_code(on, l, r),
                            binop_code(oe, l, r),
                            ("ZVal::Bool("@.len() + l.len() + 1) as int,
                            '!',
                            '=',
                        )
                    },
                    _ => false,
                }
            },
            _ => false,
        },
{
    reveal_strlit("ZVal::Bool(");
    reveal_strlit(" != ");
    reveal_strlit(" == ");
    reveal_strlit(")");
    lemma_punct_spelling(s, i);
    lemma_punct_spelling(t, j);
    assert(s.subrange(i, i + 2) =~= seq!['!', '=']);
    assert(t.subrange(j, j + 2) =~= seq!['=', '=']);
}

/// Reads back which operator a generated binary expression applies, from
/// the length its operator text adds to the operand codes and the
/// characters right after the left operand.
spec fn decode_op(c: Seq<char>, l: Seq<char>, r: Seq<char>) -> int {
    let d = c.len() - l.len() - r.len();
    let p = l.len() as int;
    if d == 7 {
        if c[p + 1] == 'a' { 1 } else if c[p + 1] == 's' { 2 } else if c[p + 1] == 'm' { 3 } else if c[p
            + 1] == 'd' { 4 } else { 5 }
    } else if d == 6 {
        if c[p + 1] == 'l' {
            if c[p + 2] == 't' { 8 } else { 9 }
        } else {
            if c[p + 2] == 't' { 10 } else { 11 }
        }
    } else if d == 16 {
        if c[p + 12] == '=' { 6 } else { 7 }
    } else {
        if c[p + 22] == '&' { 12 } else { 13 }
    }
}

spec fn op_tag(op: BinOp) -> int {
    match op {
        BinOp::Add => 1,
        BinOp::Sub => 2,
        BinOp::Mul => 3,
        BinOp::Div => 4,
        BinOp::Rem => 5,
        BinOp::Eq => 6,
        BinOp::Ne => 7,
        BinOp::Lt => 8,
        BinOp::Le => 9,
        BinOp::Gt => 10,
        BinOp::Ge => 11,
        BinOp::And => 12,
        BinOp::Or => 13,
    }
}

#[verifier::rlimit(60)]
proof fn lemma_decode(op: BinOp, l: Seq<char>, r: Seq<char>)
    ensures
        decode_op(binop_code(op, l, r), l, r) == op_tag(op),
{
    reveal_strlit(".add(&");
    reveal_strlit(".sub(&");
    reveal_strlit(".mul(&");
    reveal_strlit(".div(&");
    reveal_strlit(".rem(&");
    reveal_strlit(".lt(&");
    reveal_strlit(".le(&");
    reveal_strlit(".gt(&");
    reveal_strlit(".ge(&");
    reveal_strlit(")");
    reveal_strlit("ZVal::Bool(");
    reveal_strlit(" == ");
    reveal_strlit(" != ");
    reveal_strlit(".to_bool() && ");
    reveal_strlit(".to_bool() || ");
    reveal_strlit(".to_bool())");
    let c = binop_code(op, l, r);
    let p = l.len() as int;
    match op {
        BinOp::Eq | BinOp::Ne | BinOp::And | BinOp::Or => {
            assert(c[p + 12] == c[11 + p + 1]);
        },
        _ => {},
    }
}

/// Different operators generate different code on the same operands: the
/// generated expression determines the operator (so `!=` can never produce
/// the code of `==`, nor `-` that of `+`).
pub proof fn operators_generate_distinct_code(o1: BinOp, o2: BinOp, l: Seq<char>, r: Seq<char>)
    ensures
        binop_code(o1, l, r) == binop_code(o2, l, r) ==> o1 == o2,
{
    lemma_decode(o1, l, r);
    lemma_decode(o2, l, r);
}

// ---------------------------------------------------------------------
// Operator precedence
// ---------------------------------------------------------------------

/// The precedence a token has as a binary operator (0 when it is none).
pub open spec fn prec_of(k: TokView) -> nat {
    match binop_of(k) {
        Some((_, p)) => p,
        None => 0,
    }
}

/// The precedence table of the language, lowest first: `or` < `and` <
/// `==` `!=` < `<` `>` `<=` `>=` < `+` `-` < `*` `/` `%`. Operators of one
/// group bind alike; every operator binds tighter than the groups before
/// it. So `a - b * c` groups as `a - (b * c)` and `a - b + c` as
/// `(a - b) + c`.
pub proof fn precedence_table()
    ensures
        prec_of(TokView::Or) > 0,
        prec_of(TokView::Or) < prec_of(TokView::And),
        prec_of(TokView::And) < prec_of(TokView::EqEq),
        prec_of(TokView::EqEq) == prec_of(TokView::BangEq),
        prec_of(TokView::EqEq) < prec_of(TokView::Lt),
        prec_of(TokView::Lt) == prec_of(TokView::Gt),
        prec_of(TokView::Lt) == prec_of(TokView::Le),
        prec_of(TokView::Lt) == prec_of(TokView::Ge),
        prec_of(TokView::Lt) < prec_of(TokView::Plus),
        prec_of(TokView::Plus) == prec_of(TokView::Minus),
        prec_of(TokView::Plus) < prec_of(TokView::Star),
        prec_of(TokView::Star) == prec_of(TokView::Slash),
        prec_of(TokView::Star) == prec_of(TokView::Percent),
{
}

/// Distinct operator tokens denote distinct operators: no two tokens
/// parse to the same binary operation (so `-` is never read as `+`).
pub proof fn operator_tokens_denote_distinct_ops(k1: TokView, k2: TokView)
    ensures
        (binop_of(k1), binop_of(k2)) matches (Some((o1, _)), Some((o2, _))) ==> (o1 == o2 ==> k1 == k2),
{
}

// ---------------------------------------------------------------------
// Calls
// ---------------------------------------------------------------------

/// A call of a user function whose arity is known is accepted only with
/// exactly that many arguments; with any other number it is refused with
/// the arity message.
pub proof fn call_arity_is_exact(u: Unit, callee: Seq<char>, args: Seq<ExprV>, span: Span)
    requires
        callee != "call_rust"@,
        callee != "call_sys"@,
        !(u.io && (callee == "print"@ || callee == "input"@ || callee == "input_s"@ || callee
            == "set_stream"@)),
        u.fns.contains_key(callee),
        u.fns[callee].arity is Some,
    ensures
        check_call(u, callee, args, span) is Ok ==> args.len() == u.fns[callee].arity->0,
        args.len() != u.fns[callee].arity->0 ==> (check_call(u, callee, args, span) matches Err((m, sp))
            && sp == span && m.len() > 0),
{
    reveal_strlit("function '");
}

// ---------------------------------------------------------------------
// Standard headers
// ---------------------------------------------------------------------

/// Loading one of the low-level standard headers (`lowlevel_math`,
/// `lowlevel_strings`) makes every `fn` its Rust source declares callable.
pub proof fn lowlevel_functions_become_callable(st: StdState, name: Seq<char>)
    requires
        name == "lowlevel_math"@ || name == "lowlevel_strings"@,
        !st.loaded.contains(name),
    ensures
        forall|k: int|
            0 <= k < rust_fn_names(encode_utf8(std_source_spec(name)), 0).len() ==> std_load(
                st,
                name,
            ).fns.contains_key(#[trigger] rust_fn_names(encode_utf8(std_source_spec(name)), 0)[k]),
{
    reveal_strlit("io");
    reveal_strlit("stream_io");
    reveal_strlit("lowlevel_math");
    reveal_strlit("lowlevel_strings");
    let names = rust_fn_names(encode_utf8(std_source_spec(name)), 0);
    let s1 = StdState { loaded: st.loaded.push(name), ..st };
    crate::properties::raw_header_only_widens(s1.fns, names);
}

} // verus!
