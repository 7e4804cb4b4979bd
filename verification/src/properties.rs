//! Properties of the compiler and its runtime that span several calls or
//! hold of every input, proved over the functions' specifications.

use vstd::prelude::*;

use crate::codegen::runtime::ZVAL_RUNTIME;
use crate::codegen::spec::{g_function, return_line, g_emit_expr, g_line, g_stmt, GenState, assembled, generated, header_imports, builtin_imports, g_functions, g_headers, g_top, start_state};
use crate::ast::{BlockV, ExprV, FunctionV, ItemV, ProgramV};
use crate::import::{unchecked_fn, with_unchecked, std_load, std_load_io, std_load_leaf, std_load_stream_io, std_finish, StdState};
use crate::import::stdlib::std_source_spec;
use crate::codegen::emit::{ends_with_return_spec, indent_text, escape_char, escaped, escaped_body};
use crate::lexer::raw::{lemma_newline_from_range, newline_from, pair_at};
use crate::lexer::{comment_close, escape_value, ident_end, punct_spec, word_kind, lex_spec, skip_trivia_spec, string_spec, token_at, TokView};
use crate::text::{ascii_letter, byte_at, byte_len, char_alphabetic, is_digit, unicode_whitespace};
use crate::ast::StmtV;
use crate::scope::callable::FnInfoV;
use crate::diag::Span;
use crate::scope::spec::{an_expr, an_stmt, declare, lookup, scope_get, Frame, ScopeV, Unit};
use crate::runtime::{count_from, first_match, formatted, occurs_at, repeated, replace_from, reversed, text_of, ZValV};

verus! {

broadcast use vstd::seq_lib::group_seq_properties;

// ---------------------------------------------------------------------
// Runtime string operations
// ---------------------------------------------------------------------

/// Reversing a text twice gives the text back (`zreverse` is an
/// involution).
pub proof fn reverse_twice(s: Seq<char>)
    ensures
        reversed(reversed(s)) == s,
{
    assert(reversed(reversed(s)) =~= s);
}

/// A `{}` placeholder starts at index `i` of `f`.
pub open spec fn placeholder_at(f: Seq<char>, i: int) -> bool {
    0 <= i && i + 1 < f.len() && f[i] == '{' && f[i + 1] == '}'
}

/// A format string without a `{}` placeholder is printed as it is,
/// whatever the arguments.
pub proof fn format_without_placeholders(f: Seq<char>, args: Seq<ZValV>)
    requires
        forall|i: int| !#[trigger] placeholder_at(f, i),
    ensures
        formatted(f, 0, args, 0) == f,
{
    lemma_formatted_plain(f, 0, args, 0);
    assert(f.subrange(0, f.len() as int) =~= f);
}

proof fn lemma_formatted_plain(f: Seq<char>, i: int, args: Seq<ZValV>, k: int)
    requires
        0 <= i <= f.len(),
        forall|j: int| !#[trigger] placeholder_at(f, j),
    ensures
        formatted(f, i, args, k) == f.subrange(i, f.len() as int),
    decreases f.len() - i,
{
    if i < f.len() {
        assert(!placeholder_at(f, i));
        lemma_formatted_plain(f, i + 1, args, k);
        assert(f.subrange(i, f.len() as int) =~= seq![f[i]] + f.subrange(i + 1, f.len() as int));
    } else {
        assert(f.subrange(i, f.len() as int) =~= Seq::<char>::empty());
    }
}

/// Replacing a non-empty pattern that does not occur leaves the text as
/// it is.
pub proof fn replace_absent_pattern(s: Seq<char>, p: Seq<char>, r: Seq<char>)
    requires
        p.len() > 0,
        first_match(s, p, 0) is None,
    ensures
        replace_from(s, p, r, 0) == s,
{
    lemma_replace_absent(s, p, r, 0);
    assert(s.subrange(0, s.len() as int) =~= s);
}

proof fn lemma_replace_absent(s: Seq<char>, p: Seq<char>, r: Seq<char>, i: int)
    requires
        p.len() > 0,
        0 <= i <= s.len(),
        first_match(s, p, i) is None,
    ensures
        replace_from(s, p, r, i) == s.subrange(i, s.len() as int),
    decreases s.len() - i,
{
    if i < s.len() {
        if i + p.len() <= s.len() {
            assert(!occurs_at(s, p, i));
        } else {
            assert(!occurs_at(s, p, i));
            lemma_no_match_past_end(s, p, i + 1);
        }
        lemma_replace_absent(s, p, r, i + 1);
        assert(s.subrange(i, s.len() as int) =~= seq![s[i]] + s.subrange(i + 1, s.len() as int));
    } else {
        assert(s.subrange(i, s.len() as int) =~= Seq::<char>::empty());
    }
}

proof fn lemma_no_match_past_end(s: Seq<char>, p: Seq<char>, i: int)
    requires
        i + p.len() > s.len(),
    ensures
        first_match(s, p, i) is None,
{
}

/// A non-empty pattern that does not occur is counted zero times.
pub proof fn count_absent_pattern(s: Seq<char>, p: Seq<char>)
    requires
        p.len() > 0,
        first_match(s, p, 0) is None,
    ensures
        count_from(s, p, 0) == 0,
{
    lemma_count_absent(s, p, 0);
}

proof fn lemma_count_absent(s: Seq<char>, p: Seq<char>, i: int)
    requires
        p.len() > 0,
        0 <= i,
        first_match(s, p, i) is None,
    ensures
        count_from(s, p, i) == 0,
    decreases s.len() + 1 - i,
{
    if i + p.len() <= s.len() {
        lemma_count_absent(s, p, i + 1);
    }
}

/// A text repeated `n` times is `n` times as long.
pub proof fn repeat_length(s: Seq<char>, n: nat)
    ensures
        repeated(s, n).len() == n * s.len(),
    decreases n,
{
    if n > 0 {
        let m = (n - 1) as nat;
        repeat_length(s, m);
        assert(repeated(s, n) == repeated(s, m) + s);
        assert(n * s.len() == m * s.len() + s.len()) by (nonlinear_arith)
            requires
                m + 1 == n,
        ;
    } else {
        assert(n * s.len() == 0) by (nonlinear_arith)
            requires
                n == 0,
        ;
    }
}

// ---------------------------------------------------------------------
// Lexing
// ---------------------------------------------------------------------

/// A comment starting at index `c` of `s` covers index `k`.
pub open spec fn comment_covers(s: Seq<char>, c: int, k: int) -> bool {
    ||| pair_at(s, c, '/', '/') && c <= k < newline_from(s, c + 1)
    ||| pair_at(s, c, '/', '*') && c <= k && match comment_close(s, c + 2, 1) {
        Some(e) => k < e,
        None => false,
    }
}

/// Index `k` of `s` lies in a comment that starts at or after index `i`.
pub open spec fn in_comment(s: Seq<char>, i: int, k: int) -> bool {
    exists|c: int| i <= c <= k && #[trigger] comment_covers(s, c, k)
}

/// Every character of `s` from index `i` up to `st` is white space or part
/// of a comment.
pub open spec fn only_trivia(s: Seq<char>, i: int, st: int) -> bool {
    forall|k: int| i <= k < st ==> unicode_whitespace(#[trigger] s[k]) || in_comment(s, i, k)
}

proof fn lemma_skip_only_trivia(s: Seq<char>, i: int)
    requires
        0 <= i <= s.len(),
    ensures
        skip_trivia_spec(s, i) matches Ok(st) ==> i <= st && only_trivia(s, i, st),
    decreases s.len() - i,
{
    if i < s.len() {
        if unicode_whitespace(s[i]) {
            lemma_skip_only_trivia(s, i + 1);
            if let Ok(st) = skip_trivia_spec(s, i + 1) {
                assert forall|k: int| i <= k < st implies unicode_whitespace(#[trigger] s[k]) || in_comment(s, i, k) by {
                    if k > i && !unicode_whitespace(s[k]) {
                        assert(in_comment(s, i + 1, k));
                        let c = choose|c: int| i + 1 <= c <= k && #[trigger] comment_covers(s, c, k);
                        assert(i <= c <= k);
                    }
                }
            }
        } else if pair_at(s, i, '/', '/') {
            lemma_newline_from_range(s, i + 1);
            let n = newline_from(s, i + 1);
            lemma_skip_only_trivia(s, n);
            if let Ok(st) = skip_trivia_spec(s, n) {
                assert forall|k: int| i <= k < st implies unicode_whitespace(#[trigger] s[k]) || in_comment(s, i, k) by {
                    if k < n {
                        assert(comment_covers(s, i, k));
                    } else if !unicode_whitespace(s[k]) {
                        assert(in_comment(s, n, k));
                        let c = choose|c: int| n <= c <= k && #[trigger] comment_covers(s, c, k);
                        assert(i <= c <= k);
                    }
                }
            }
        } else if pair_at(s, i, '/', '*') {
            crate::lexer::lemma_comment_close_range(s, i + 2, 1);
            if let Some(j) = comment_close(s, i + 2, 1) {
                lemma_skip_only_trivia(s, j);
                if let Ok(st) = skip_trivia_spec(s, j) {
                    assert forall|k: int| i <= k < st implies unicode_whitespace(#[trigger] s[k]) || in_comment(s, i, k) by {
                        if k < j {
                            assert(comment_covers(s, i, k));
                        } else if !unicode_whitespace(s[k]) {
                            assert(in_comment(s, j, k));
                            let c = choose|c: int| j <= c <= k && #[trigger] comment_covers(s, c, k);
                            assert(i <= c <= k);
                        }
                    }
                }
            }
        }
    }
}

/// Lexing from index `i` never moves backwards, and what it skips before
/// the token is only white space and comments: the token starts at a
/// character `st` with nothing but trivia from `i` to `st`, ends after it
/// (at the end of the text for `Eof`), and its span is the byte range of
/// those characters.
pub proof fn lexing_skips_only_trivia(s: Seq<char>, i: int)
    requires
        0 <= i <= s.len(),
    ensures
        lex_spec(s, i) matches Ok((k, a, b, j)) ==> exists|st: int|
            {
                &&& i <= st <= j <= s.len()
                &&& a == byte_at(s, st)
                &&& b == byte_at(s, j)
                &&& #[trigger] only_trivia(s, i, st)
                &&& (k is Eof ==> st == j && j == s.len())
                &&& (!(k is Eof) ==> st < j)
            },
{
    let st = crate::lexer::lemma_lex_token(s, i);
    lemma_skip_only_trivia(s, i);
    if let Ok((k, a, b, j)) = lex_spec(s, i) {
        assert(only_trivia(s, i, st));
    }
}

/// An ASCII word: a letter or `_`, then letters, digits and `_`.
pub open spec fn ascii_word(w: Seq<char>) -> bool {
    &&& w.len() > 0
    &&& (ascii_letter(w[0]) || w[0] == '_')
    &&& forall|k: int| 0 <= k < w.len() ==> ascii_letter(#[trigger] w[k]) || is_digit(w[k]) || w[k] == '_'
}

proof fn lemma_word_end(w: Seq<char>, j: int)
    requires
        ascii_word(w),
        1 <= j <= w.len(),
    ensures
        ident_end(w, j) == w.len(),
    decreases w.len() - j,
{
    if j < w.len() {
        assert(ascii_letter(w[j]) || is_digit(w[j]) || w[j] == '_');
        lemma_word_end(w, j + 1);
    }
}

/// An ASCII word lexes as one token: the keyword it spells, or an
/// identifier of that name, spanning the whole word.
pub proof fn ascii_word_lexes_as_word(w: Seq<char>)
    requires
        ascii_word(w),
    ensures
        lex_spec(w, 0) == Ok::<(TokView, int, int, int), (Seq<char>, int, int)>(
            (word_kind(w), 0, byte_len(w) as int, w.len() as int),
        ),
{
    let c = w[0];
    assert(ascii_letter(c) || c == '_');
    assert(!unicode_whitespace(c)) by {
        reveal(unicode_whitespace);
    }
    assert(skip_trivia_spec(w, 0) == Ok::<int, (Seq<char>, int, int)>(0));
    assert(punct_spec(w, 0) is None);
    assert(char_alphabetic(c) || c == '_');
    lemma_word_end(w, 1);
    assert(w.subrange(0, w.len() as int) =~= w);
    assert(token_at(w, 0) == Ok::<(TokView, int), (Seq<char>, int, int)>((word_kind(w), w.len() as int)));
    assert(w.take(0) =~= Seq::<char>::empty());
    assert(w.take(w.len() as int) =~= w);
    reveal(lex_spec);
}

/// A raw `lowlevel` block that scans closes at a `}` after its opening
/// `{`, within the text.
pub proof fn raw_block_closes_at_brace(s: Seq<char>, k: int)
    ensures
        crate::lexer::raw::scan_raw_spec(s, k) matches Ok(close) ==> 0 <= k < close < s.len() && s[close]
            == '}',
{
    if 0 <= k < s.len() && s[k] == '{' {
        crate::lexer::raw::lemma_scan_block_range(s, k + 1, 1, byte_at(s, k) as int);
    }
}

// ---------------------------------------------------------------------
// Scope analysis
// ---------------------------------------------------------------------

proof fn lemma_scope_get_push(sc: ScopeV, name: Seq<char>, b: bool)
    requires
        scope_get(sc, name) is None,
    ensures
        scope_get(sc.push((name, b)), name) == Some(b),
    decreases sc.len(),
{
    if sc.len() > 0 {
        lemma_scope_get_push(sc.subrange(1, sc.len() as int), name, b);
        assert(sc.push((name, b)).subrange(1, sc.len() + 1int) =~= sc.subrange(1, sc.len() as int).push(
            (name, b),
        ));
    }
}

proof fn lemma_lookup_through(chain: Seq<ScopeV>, inner: Seq<ScopeV>, name: Seq<char>)
    requires
        forall|k: int| 0 <= k < inner.len() ==> scope_get(#[trigger] inner[k], name) is None,
    ensures
        lookup(chain + inner, name) == lookup(chain, name),
    decreases inner.len(),
{
    if inner.len() == 0 {
        assert(chain + inner =~= chain);
    } else {
        assert((chain + inner).drop_last() =~= chain + inner.drop_last());
        assert((chain + inner).last() == inner.last());
        assert(scope_get(inner[inner.len() - 1], name) is None);
        lemma_lookup_through(chain, inner.drop_last(), name);
    }
}

/// An immutable variable is never reassigned: `name = v<const>` declares
/// `name` immutable, and a later plain assignment to it, in the same scope
/// or in any scope nested inside that does not declare `name` itself, is
/// rejected.
pub proof fn const_is_never_reassigned(
    u: Unit,
    f: Frame,
    chain: Seq<ScopeV>,
    inner: Seq<ScopeV>,
    name: Seq<char>,
    first: ExprV,
    later: ExprV,
    at1: Span,
    at2: Span,
)
    requires
        chain.len() >= 1,
        lookup(chain, name) is None,
        an_expr(u, chain, first) is Ok,
        an_expr(u, declare(chain, name, true) + inner, later) is Ok,
        forall|k: int| 0 <= k < inner.len() ==> scope_get(#[trigger] inner[k], name) is None,
    ensures
        an_stmt(u, f, chain, StmtV::Assign { name, value: first, is_const: true, span: at1 }) == Ok::<
            Seq<ScopeV>,
            (Seq<char>, Span),
        >(declare(chain, name, true)),
        an_stmt(
            u,
            f,
            declare(chain, name, true) + inner,
            StmtV::Assign { name, value: later, is_const: false, span: at2 },
        ) == Err::<Seq<ScopeV>, (Seq<char>, Span)>(
            ("cannot assign to immutable variable '"@ + name + "'"@, at2),
        ),
{
    let c1 = declare(chain, name, true);
    assert(scope_get(chain.last(), name) is None);
    lemma_scope_get_push(chain.last(), name, true);
    assert(c1.last() == chain.last().push((name, true)));
    assert(lookup(c1, name) == Some(true));
    lemma_lookup_through(c1, inner, name);
}

/// Assigning to an existing mutable variable, from its own scope or any
/// nested one, updates that variable: the scope chain is left as it was.
pub proof fn assignment_updates_nearest(u: Unit, f: Frame, chain: Seq<ScopeV>, name: Seq<char>, value: ExprV, at: Span)
    requires
        lookup(chain, name) == Some(false),
        an_expr(u, chain, value) is Ok,
    ensures
        an_stmt(u, f, chain, StmtV::Assign { name, value, is_const: false, span: at }) == Ok::<
            Seq<ScopeV>,
            (Seq<char>, Span),
        >(chain),
{
}

/// The generated code declares a variable once: after its first
/// assignment is generated, a later assignment to it, in the same block or
/// any block nested inside, becomes a plain Rust reassignment and declares
/// nothing.
pub proof fn variable_declared_once(g: GenState, inner: Seq<ScopeV>, name: Seq<char>, first: ExprV, later: ExprV, is_const: bool, c2: bool, at1: Span, at2: Span)
    requires
        g.blocks.len() >= 1,
    ensures
        ({
            let g1 = g_stmt(g, StmtV::Assign { name, value: first, is_const, span: at1 });
            let g2 = GenState { blocks: g1.blocks + inner, ..g1 };
            let (code, g3) = g_emit_expr(g2, later);
            &&& lookup(g1.blocks, name) is Some
            &&& g_stmt(g2, StmtV::Assign { name, value: later, is_const: c2, span: at2 }) == g_line(
                g3,
                name + " = "@ + code + ";"@,
            )
            &&& g_stmt(g2, StmtV::Assign { name, value: later, is_const: c2, span: at2 }).blocks == g2.blocks
        }),
{
    let (code1, h) = g_emit_expr(g, first);
    let g1 = g_stmt(g, StmtV::Assign { name, value: first, is_const, span: at1 });
    if lookup(h.blocks, name) is None {
        assert(scope_get(h.blocks.last(), name) is None);
        lemma_scope_get_push(h.blocks.last(), name, is_const);
        assert(g1.blocks == declare(h.blocks, name, is_const));
        assert(g1.blocks.last() == h.blocks.last().push((name, is_const)));
    }
    assert(lookup(g1.blocks, name) is Some);
    lemma_lookup_nested(g1.blocks, inner, name);
}

proof fn lemma_lookup_nested(chain: Seq<ScopeV>, inner: Seq<ScopeV>, name: Seq<char>)
    requires
        lookup(chain, name) is Some,
    ensures
        lookup(chain + inner, name) is Some,
    decreases inner.len(),
{
    if inner.len() == 0 {
        assert(chain + inner =~= chain);
    } else {
        assert((chain + inner).drop_last() =~= chain + inner.drop_last());
        assert((chain + inner).last() == inner.last());
        lemma_lookup_nested(chain, inner.drop_last(), name);
    }
}

// ---------------------------------------------------------------------
// Standard headers
// ---------------------------------------------------------------------

proof fn lemma_leaf_loaded(st: StdState, name: Seq<char>)
    ensures
        std_load_leaf(st, name).loaded.contains(name),
        forall|x: Seq<char>| st.loaded.contains(x) ==> std_load_leaf(st, name).loaded.contains(x),
{
    if !st.loaded.contains(name) {
        assert(std_load_leaf(st, name).loaded == st.loaded.push(name));
        assert(st.loaded.push(name)[st.loaded.len() as int] == name);
    }
}

proof fn lemma_stream_io_loaded(st: StdState)
    ensures
        std_load_stream_io(st).loaded.contains("stream_io"@),
        forall|x: Seq<char>| st.loaded.contains(x) ==> std_load_stream_io(st).loaded.contains(x),
{
    if !st.loaded.contains("stream_io"@) {
        let s1 = StdState { loaded: st.loaded.push("stream_io"@), ..st };
        assert(s1.loaded[st.loaded.len() as int] == "stream_io"@);
        lemma_leaf_loaded(s1, "stream"@);
    }
}

proof fn lemma_io_loaded(st: StdState)
    ensures
        std_load_io(st).loaded.contains("io"@),
{
    if !st.loaded.contains("io"@) {
        let s1 = StdState {
            loaded: st.loaded.push("io"@),
            io: true,
            fns: crate::import::with_unchecked(st.fns, crate::scope::callable::io_function_names()),
            ..st
        };
        assert(s1.loaded[st.loaded.len() as int] == "io"@);
        lemma_stream_io_loaded(s1);
    }
}

/// Loading a standard header a second time changes nothing: every
/// standard header is included at most once.
pub proof fn std_load_twice(st: StdState, name: Seq<char>)
    ensures
        std_load(std_load(st, name), name) == std_load(st, name),
{
    if name == "io"@ {
        lemma_io_loaded(st);
    } else if name == "stream_io"@ {
        lemma_stream_io_loaded(st);
    } else {
        lemma_leaf_loaded(st, name);
    }
}

/// `import io` on a state with none of the chain loaded makes the IO API
/// available and inlines `stream`, `stream_io` and `io`, in that order
/// (each header after its dependencies).
pub proof fn io_chain_order(st: StdState)
    requires
        !st.loaded.contains("io"@),
        !st.loaded.contains("stream_io"@),
        !st.loaded.contains("stream"@),
    ensures
        std_load(st, "io"@).io,
        std_load(st, "io"@).headers == st.headers + seq![
            ("std/stream.rs"@, std_source_spec("stream"@)),
            ("std/stream_io.rs"@, std_source_spec("stream_io"@)),
            ("std/io.rs"@, std_source_spec("io"@)),
        ],
{
    let s1 = StdState {
        loaded: st.loaded.push("io"@),
        io: true,
        fns: crate::import::with_unchecked(st.fns, crate::scope::callable::io_function_names()),
        ..st
    };
    let s2 = StdState { loaded: s1.loaded.push("stream_io"@), ..s1 };
    reveal_strlit("io");
    reveal_strlit("stream_io");
    reveal_strlit("stream");
    reveal_strlit("std/");
    reveal_strlit(".rs");
    reveal_strlit("std/stream.rs");
    reveal_strlit("std/stream_io.rs");
    reveal_strlit("std/io.rs");
    reveal_strlit("lowlevel_math");
    reveal_strlit("lowlevel_strings");
    assert(!s1.loaded.contains("stream_io"@)) by {
        if s1.loaded.contains("stream_io"@) {
            let k = choose|k: int| 0 <= k < s1.loaded.len() && s1.loaded[k] == "stream_io"@;
            if k < st.loaded.len() {
                assert(st.loaded[k] == "stream_io"@);
            } else {
                assert("io"@.len() != "stream_io"@.len());
            }
        }
    }
    assert(!s2.loaded.contains("stream"@)) by {
        if s2.loaded.contains("stream"@) {
            let k = choose|k: int| 0 <= k < s2.loaded.len() && s2.loaded[k] == "stream"@;
            if k < st.loaded.len() {
                assert(st.loaded[k] == "stream"@);
            } else if k == st.loaded.len() {
                assert("io"@.len() != "stream"@.len());
            } else {
                assert("stream_io"@.len() != "stream"@.len());
            }
        }
    }
    let s3 = std_load_leaf(s2, "stream"@);
    assert(s3.headers == st.headers.push(("std/stream.rs"@, std_source_spec("stream"@)))) by {
        assert("std/"@ + "stream"@ + ".rs"@ =~= "std/stream.rs"@);
    }
    let s4 = std_load_stream_io(s1);
    assert(s4 == std_finish(s3, "stream_io"@));
    assert(s4.headers == s3.headers.push(("std/stream_io.rs"@, std_source_spec("stream_io"@)))) by {
        assert("std/"@ + "stream_io"@ + ".rs"@ =~= "std/stream_io.rs"@);
    }
    assert(std_load(st, "io"@) == std_finish(s4, "io"@));
    assert(std_load(st, "io"@).headers == s4.headers.push(("std/io.rs"@, std_source_spec("io"@)))) by {
        assert("std/"@ + "io"@ + ".rs"@ =~= "std/io.rs"@);
    }
    assert(std_load(st, "io"@).headers =~= st.headers + seq![
        ("std/stream.rs"@, std_source_spec("stream"@)),
        ("std/stream_io.rs"@, std_source_spec("stream_io"@)),
        ("std/io.rs"@, std_source_spec("io"@)),
    ]);
}

/// Scanning a raw Rust header only widens the set of callable names: every
/// function known before keeps its entry, and every scanned name is
/// callable afterwards.
pub proof fn raw_header_only_widens(m: Map<Seq<char>, FnInfoV>, names: Seq<Seq<char>>)
    ensures
        forall|n: Seq<char>| #[trigger] m.contains_key(n) ==> with_unchecked(m, names).contains_key(n)
            && with_unchecked(m, names)[n] == m[n],
        forall|k: int| 0 <= k < names.len() ==> with_unchecked(m, names).contains_key(#[trigger] names[k]),
    decreases names.len(),
{
    if names.len() > 0 {
        let m1 = if m.contains_key(names[0]) {
            m
        } else {
            m.insert(names[0], unchecked_fn())
        };
        let rest = names.subrange(1, names.len() as int);
        raw_header_only_widens(m1, rest);
        assert forall|n: Seq<char>| #[trigger] m.contains_key(n) implies with_unchecked(m, names).contains_key(n)
            && with_unchecked(m, names)[n] == m[n] by {
            assert(m1.contains_key(n) && m1[n] == m[n]);
        }
        assert forall|k: int| 0 <= k < names.len() implies with_unchecked(m, names).contains_key(
            #[trigger] names[k],
        ) by {
            if k > 0 {
                assert(rest[k - 1] == names[k]);
            } else {
                assert(m1.contains_key(names[0]));
            }
        }
    }
}

/// Header files are included, and builtin aliases emitted, at most once:
/// the lists `mark_imported` and `import_step` grow (add the entry unless
/// it is present) stay free of repeats, and an entry added once is found
/// on every later attempt.
pub proof fn listed_once(files: Seq<Seq<char>>, canonical: Seq<char>)
    requires
        files.no_duplicates(),
    ensures
        ({
            let after = if files.contains(canonical) {
                files
            } else {
                files.push(canonical)
            };
            &&& after.no_duplicates()
            &&& after.contains(canonical)
        }),
{
    if !files.contains(canonical) {
        let after = files.push(canonical);
        assert(after[files.len() as int] == canonical);
        assert forall|i: int, j: int| 0 <= i < after.len() && 0 <= j < after.len() && i != j implies after[i]
            != after[j] by {
            if i < files.len() && j < files.len() {
                assert(files[i] != files[j]);
            } else if i < files.len() {
                assert(files[i] != canonical);
            } else if j < files.len() {
                assert(files[j] != canonical);
            }
        }
    }
}

// ---------------------------------------------------------------------
// Code generation
// ---------------------------------------------------------------------

proof fn lemma_escaped_body_concat(a: Seq<char>, b: Seq<char>)
    ensures
        escaped_body(a + b) == escaped_body(a) + escaped_body(b),
    decreases b.len(),
{
    if b.len() == 0 {
        assert(a + b =~= a);
        assert(escaped_body(a) + escaped_body(b) =~= escaped_body(a));
    } else {
        lemma_escaped_body_concat(a, b.drop_last());
        assert((a + b).drop_last() =~= a + b.drop_last());
        assert((a + b).last() == b.last());
        assert(escaped_body(a + b) =~= escaped_body(a) + escaped_body(b));
    }
}

/// The escape of one character, read back by the lexer.
proof fn lemma_escape_char_decodes(c: char)
    ensures
        c == '"' || c == '\\' || c == '\n' || c == '\r' || c == '\t' || c == '\0' ==> {
            &&& escape_char(c).len() == 2
            &&& escape_char(c)[0] == '\\'
            &&& escape_value(escape_char(c)[1]) == Some(c)
        },
        !(c == '"' || c == '\\' || c == '\n' || c == '\r' || c == '\t' || c == '\0') ==> {
            &&& escape_char(c) == seq![c]
            &&& c != '"' && c != '\\' && c != '\n'
        },
{
    reveal_strlit("\\\"");
    reveal_strlit("\\\\");
    reveal_strlit("\\n");
    reveal_strlit("\\r");
    reveal_strlit("\\t");
    reveal_strlit("\\0");
}

/// Decoding the escaped text of `s`, followed by a closing quote, gives
/// `s` back and stops right after the quote.
proof fn lemma_decode_escaped(x: Seq<char>, s: Seq<char>, y: Seq<char>, acc: Seq<char>, st: int)
    ensures
        string_spec(x + escaped_body(s) + seq!['"'] + y, x.len() as int, acc, st) == Ok::<
            (Seq<char>, int),
            (Seq<char>, int, int),
        >((acc + s, (x.len() + escaped_body(s).len() + 1) as int)),
    decreases s.len(),
{
    let t = x + escaped_body(s) + seq!['"'] + y;
    let p = x.len() as int;
    if s.len() == 0 {
        assert(escaped_body(s) =~= Seq::<char>::empty());
        assert(t[p] == '"');
        assert(acc + s =~= acc);
        reveal(string_spec);
    } else {
        let c = s[0];
        let rest = s.drop_first();
        assert(s =~= seq![c] + rest);
        lemma_escaped_body_concat(seq![c], rest);
        assert(seq![c].drop_last() =~= Seq::<char>::empty());
        assert(escaped_body(Seq::<char>::empty()) =~= Seq::<char>::empty());
        assert(escaped_body(seq![c]) =~= escape_char(c));
        let e = escape_char(c);
        let x2 = x + e;
        assert(t =~= x2 + escaped_body(rest) + seq!['"'] + y);
        lemma_decode_escaped(x2, rest, y, acc.push(c), st);
        assert(acc.push(c) + rest =~= acc + s);
        lemma_escape_char_decodes(c);
        assert(string_spec(t, p, acc, st) == string_spec(t, p + e.len(), acc.push(c), st)) by {
            reveal(string_spec);
            if e.len() == 2 {
                assert(t[p] == e[0]);
                assert(t[p + 1] == e[1]);
            } else {
                assert(t[p] == c);
            }
        }
    }
}

/// A string literal the generator writes reads back, by Zero's own lexer,
/// as the same string: the first token lexed from an escaped string is
/// that string, spanning the whole literal.
pub proof fn escaped_string_lexes_back(s: Seq<char>)
    ensures
        token_at(escaped(s), 0) == Ok::<(TokView, int), (Seq<char>, int, int)>(
            (TokView::Str(s), escaped(s).len() as int),
        ),
        lex_spec(escaped(s), 0) == Ok::<(TokView, int, int, int), (Seq<char>, int, int)>(
            (TokView::Str(s), 0, byte_len(escaped(s)) as int, escaped(s).len() as int),
        ),
{
    let t = escaped(s);
    lemma_decode_escaped(seq!['"'], s, Seq::empty(), Seq::empty(), crate::text::byte_at(t, 0) as int);
    assert(seq!['"'] + escaped_body(s) + seq!['"'] + Seq::<char>::empty() =~= t);
    assert(Seq::<char>::empty() + s =~= s);
    assert(t[0] == '"');
    assert(!unicode_whitespace('"')) by {
        reveal(unicode_whitespace);
    }
    assert(skip_trivia_spec(t, 0) == Ok::<int, (Seq<char>, int, int)>(0));
    assert(t.take(0) =~= Seq::<char>::empty());
    assert(t.take(t.len() as int) =~= t);
    reveal(lex_spec);
}

/// Every generated program carries the `ZVal` runtime, right after its
/// header lines, whatever the source.
pub proof fn runtime_always_injected(
    items: Seq<ItemV>,
    io: bool,
    builtins: Seq<Seq<char>>,
    rust_headers: Seq<(Seq<char>, Seq<char>)>,
    zero_headers: Seq<(Seq<char>, ProgramV)>,
    src_name: Seq<char>,
)
    ensures
        ({
            let out = generated(items, io, builtins, rust_headers, zero_headers, src_name);
            let k = generated_head(src_name).len() as int;
            out.subrange(k, k + ZVAL_RUNTIME@.len()) == ZVAL_RUNTIME@
        }),
{
    let out = generated(items, io, builtins, rust_headers, zero_headers, src_name);
    let k = generated_head(src_name).len() as int;
    let imports = builtin_imports(builtins, Seq::empty()) + header_imports(rust_headers);
    let g3 = g_functions(g_top(g_headers(start_state(io), zero_headers), items), crate::import::functions_of_items(items));
    let rest = "\n"@ + crate::codegen::spec::imports_text(imports) + (if g3.sys {
        crate::codegen::runtime::SYS_PREAMBLE@ + "\n"@
    } else {
        Seq::empty()
    }) + g3.body;
    assert(out =~= generated_head(src_name) + ZVAL_RUNTIME@ + rest);
    assert(out.subrange(k, k + ZVAL_RUNTIME@.len()) =~= ZVAL_RUNTIME@);
}

/// A function whose body does not end with `return` returns nil: its
/// generated text ends with a `return ZVal::Nil;` line (checked against
/// the declared return type, if any) and then its closing brace.
pub proof fn implicit_nil_return(g: GenState, f: FunctionV, ss: Seq<StmtV>)
    requires
        f.body == BlockV::Stmts(ss),
        !ends_with_return_spec(ss),
    ensures
        ({
            let out = g_function(g, f).body;
            let tail = return_line(f.ret, "ZVal::Nil"@) + "\n"@ + indent_text(g.indent) + "}"@ + "\n"@;
            out.len() >= tail.len() && out.subrange(out.len() - tail.len(), out.len() as int) == tail
        }),
{
    let g1 = g_line(g, "fn "@ + f.name + "("@ + crate::codegen::spec::param_list(f.params) + ") -> ZVal {"@);
    let g2 = GenState { indent: g.indent + 1, blocks: g.blocks.push(crate::scope::spec::param_scope(f)), ..g1 };
    let g3 = crate::codegen::spec::g_param_checks(g2, f.params);
    let g4 = GenState { ret: f.ret, ..g3 };
    let gs = crate::codegen::spec::g_stmts(g4, ss);
    let out = g_function(g, f).body;
    let tail = return_line(f.ret, "ZVal::Nil"@) + "\n"@ + indent_text(g.indent) + "}"@ + "\n"@;
    let front = gs.body + indent_text(gs.indent);
    assert(out =~= front + tail);
    assert(out.subrange(out.len() - tail.len(), out.len() as int) =~= tail);
}

/// `t` occurs in `s` as a contiguous piece.
pub open spec fn occurs_in(s: Seq<char>, t: Seq<char>) -> bool {
    exists|k: int| 0 <= k && k + t.len() <= s.len() && #[trigger] s.subrange(k, k + t.len()) == t
}

proof fn lemma_occurs_extend(a: Seq<char>, t: Seq<char>, b: Seq<char>, c: Seq<char>)
    requires
        occurs_in(b, t),
    ensures
        occurs_in(a + b + c, t),
{
    let k = choose|k: int| 0 <= k && k + t.len() <= b.len() && #[trigger] b.subrange(k, k + t.len()) == t;
    let s = a + b + c;
    assert(s.subrange(a.len() + k, a.len() + k + t.len()) =~= b.subrange(k, k + t.len()));
}

proof fn lemma_imports_text_has(xs: Seq<Seq<char>>, j: int)
    requires
        0 <= j < xs.len(),
    ensures
        occurs_in(crate::codegen::spec::imports_text(xs), xs[j]),
    decreases xs.len(),
{
    let t = crate::codegen::spec::imports_text(xs);
    let front = crate::codegen::spec::imports_text(xs.drop_last());
    assert(t == front + xs.last() + "\n\n"@);
    if j == xs.len() - 1 {
        assert(xs[j] =~= xs.last());
        assert(occurs_in(xs.last(), xs.last())) by {
            let w = 0int;
            assert(xs.last().subrange(w, w + xs.last().len()) =~= xs.last());
        }
        lemma_occurs_extend(front, xs.last(), xs.last(), "\n\n"@);
    } else {
        lemma_imports_text_has(xs.drop_last(), j);
        assert(xs.drop_last()[j] == xs[j]);
        lemma_occurs_extend(Seq::empty(), xs[j], front, xs.last() + "\n\n"@);
        assert(Seq::<char>::empty() + front + (xs.last() + "\n\n"@) =~= t);
    }
}

/// Every raw Rust header is inlined verbatim into the generated program.
pub proof fn raw_headers_inlined_verbatim(
    items: Seq<ItemV>,
    io: bool,
    builtins: Seq<Seq<char>>,
    rust_headers: Seq<(Seq<char>, Seq<char>)>,
    zero_headers: Seq<(Seq<char>, ProgramV)>,
    src_name: Seq<char>,
    i: int,
)
    requires
        0 <= i < rust_headers.len(),
    ensures
        occurs_in(generated(items, io, builtins, rust_headers, zero_headers, src_name), rust_headers[i].1),
{
    let bl = builtin_imports(builtins, Seq::empty());
    let imports = bl + header_imports(rust_headers);
    let g3 = g_functions(g_top(g_headers(start_state(io), zero_headers), items), crate::import::functions_of_items(items));
    let piece = "// ---- import: "@ + rust_headers[i].0 + " ----\n"@ + rust_headers[i].1;
    assert(imports[bl.len() + i] == piece);
    lemma_imports_text_has(imports, bl.len() + i);
    let content = rust_headers[i].1;
    let pre = "// ---- import: "@ + rust_headers[i].0 + " ----\n"@;
    assert(occurs_in(piece, content)) by {
        assert(piece.subrange(pre.len() as int, (pre.len() + content.len()) as int) =~= content);
    }
    let it = crate::codegen::spec::imports_text(imports);
    let kp = choose|k: int| 0 <= k && k + piece.len() <= it.len() && #[trigger] it.subrange(k, k + piece.len()) == piece;
    let kc = choose|k: int| 0 <= k && k + content.len() <= piece.len() && #[trigger] piece.subrange(k, k + content.len()) == content;
    assert(it.subrange(kp + kc, kp + kc + content.len()) =~= piece.subrange(kc, kc + content.len()));
    assert(occurs_in(it, content));
    let before = generated_head(src_name) + ZVAL_RUNTIME@ + "\n"@;
    let after = (if g3.sys {
        crate::codegen::runtime::SYS_PREAMBLE@ + "\n"@
    } else {
        Seq::empty()
    }) + g3.body;
    lemma_occurs_extend(before, content, it, after);
    assert(generated(items, io, builtins, rust_headers, zero_headers, src_name) =~= before + it + after);
}

/// The lines a generated program starts with, before the runtime.
pub open spec fn generated_head(src_name: Seq<char>) -> Seq<char> {
    "#![allow(unused, dead_code, nonstandard_style)]\n"@ + "// Generated by Zero compiler (zeroc v0.3.0)\n"@
        + "// Source: "@ + src_name + "\n"@ + "\n"@
}

} // verus!
