//! Low-level emission helpers for Rust code generation.

use vstd::prelude::*;

use crate::ast::{Stmt, StmtV};
use crate::diag::line_end_from;
use crate::text::{chars_of, is_whitespace, push_char, push_str, string_of_range, unicode_whitespace};

verus! {

broadcast use vstd::seq_lib::group_seq_properties;

pub const INDENT: &'static str = "    ";

/// `n` indentation levels.
pub open spec fn indent_text(n: nat) -> Seq<char>
    decreases n,
{
    if n == 0 {
        Seq::empty()
    } else {
        indent_text((n - 1) as nat) + "    "@
    }
}

/// Append `n` indentation levels to `out`.
pub fn push_indent(out: &mut String, n: usize)
    ensures
        final(out)@ == old(out)@ + indent_text(n as nat),
{
    proof {
        reveal_strlit("    ");
    }
    let mut k: usize = 0;
    while k < n
        invariant
            k <= n,
            out@ == old(out)@ + indent_text(k as nat),
        decreases n - k,
    {
        push_str(out, INDENT);
        proof {
            assert(old(out)@ + indent_text((k + 1) as nat) =~= old(out)@ + indent_text(k as nat)
                + "    "@);
        }
        k = k + 1;
    }
}

/// Whether a statement list ends with an explicit `return`.
pub open spec fn ends_with_return_spec(stmts: Seq<StmtV>) -> bool {
    stmts.len() > 0 && stmts.last() is Return
}

/// True when the function body already ends with an explicit `return`.
pub fn ends_with_return(stmts: &Vec<Stmt>) -> (r: bool)
    ensures
        r == (stmts@.len() > 0 && stmts@.last() is Return),
{
    if stmts.len() == 0 {
        return false;
    }
    match &stmts[stmts.len() - 1] {
        Stmt::Return { .. } => true,
        _ => false,
    }
}

/// The Rust escape of one character inside a string literal.
pub open spec fn escape_char(c: char) -> Seq<char> {
    if c == '"' {
        "\\\""@
    } else if c == '\\' {
        "\\\\"@
    } else if c == '\n' {
        "\\n"@
    } else if c == '\r' {
        "\\r"@
    } else if c == '\t' {
        "\\t"@
    } else if c == '\0' {
        "\\0"@
    } else {
        seq![c]
    }
}

pub open spec fn escaped_body(s: Seq<char>) -> Seq<char>
    decreases s.len(),
{
    if s.len() == 0 {
        Seq::empty()
    } else {
        escaped_body(s.drop_last()) + escape_char(s.last())
    }
}

/// A Zero string as a Rust string literal.
pub open spec fn escaped(s: Seq<char>) -> Seq<char> {
    seq!['"'] + escaped_body(s) + seq!['"']
}

/// Escape a Zero string as a Rust string literal.
pub fn escape_rust_string(s: &str) -> (out: String)
    ensures
        out@ == escaped(s@),
{
    proof {
        reveal_strlit("\\\"");
        reveal_strlit("\\\\");
        reveal_strlit("\\n");
        reveal_strlit("\\r");
        reveal_strlit("\\t");
        reveal_strlit("\\0");
    }
    let chars = chars_of(s);
    let mut out = String::new();
    push_char(&mut out, '"');
    let mut k: usize = 0;
    while k < chars.len()
        invariant
            k <= chars@.len(),
            chars@ == s@,
            out@ == seq!['"'] + escaped_body(chars@.take(k as int)),
        decreases chars@.len() - k,
    {
        let c = chars[k];
        if c == '"' {
            push_str(&mut out, "\\\"");
        } else if c == '\\' {
            push_str(&mut out, "\\\\");
        } else if c == '\n' {
            push_str(&mut out, "\\n");
        } else if c == '\r' {
            push_str(&mut out, "\\r");
        } else if c == '\t' {
            push_str(&mut out, "\\t");
        } else if c == '\0' {
            push_str(&mut out, "\\0");
        } else {
            push_char(&mut out, c);
        }
        proof {
            assert(chars@.take(k + 1).drop_last() =~= chars@.take(k as int));
            assert(out@ =~= seq!['"'] + escaped_body(chars@.take(k + 1)));
        }
        k = k + 1;
    }
    push_char(&mut out, '"');
    proof {
        assert(chars@.take(chars@.len() as int) =~= chars@);
    }
    out
}

/// The lines of `s` from index `i` as `str::lines` yields them: split at
/// `\n`, a `\r` right before a `\n` removed, no piece after a final `\n`.
pub open spec fn lines_from(s: Seq<char>, i: int) -> Seq<Seq<char>>
    decreases s.len() - i,
{
    if i < 0 || i >= s.len() {
        Seq::empty()
    } else {
        let e = line_end_from(s, i);
        if e < s.len() {
            let text = s.subrange(i, e);
            let piece = if text.len() > 0 && text.last() == '\r' {
                text.drop_last()
            } else {
                text
            };
            proof {
                lemma_line_end_from_range(s, i);
            }
            seq![piece] + lines_from(s, e + 1)
        } else {
            seq![s.subrange(i, s.len() as int)]
        }
    }
}

pub proof fn lemma_line_end_from_range(s: Seq<char>, i: int)
    requires
        0 <= i,
    ensures
        i <= s.len() ==> i <= line_end_from(s, i) <= s.len(),
        line_end_from(s, i) < s.len() ==> s[line_end_from(s, i)] == '\n',
        forall|k: int| i <= k < line_end_from(s, i) && k < s.len() ==> s[k] != '\n',
    decreases s.len() - i,
{
    if i < s.len() && s[i] != '\n' {
        lemma_line_end_from_range(s, i + 1);
    }
}

/// `str::lines`: the lines of `s`.
pub fn lines_of(s: &str) -> (v: Vec<String>)
    ensures
        v@.len() == lines_from(s@, 0).len(),
        forall|k: int| 0 <= k < v@.len() ==> #[trigger] v@[k]@ == lines_from(s@, 0)[k],
{
    let chars = chars_of(s);
    let n = chars.len();
    let mut v: Vec<String> = Vec::new();
    let mut i: usize = 0;
    while i < n
        invariant
            chars@ == s@,
            n == chars@.len(),
            i <= n,
            lines_from(s@, 0) == Seq::new(v@.len(), |k: int| v@[k]@) + lines_from(s@, i as int),
        decreases n - i,
    {
        let ghost before = Seq::new(v@.len(), |k: int| v@[k]@);
        let mut e = i;
        while e < n && chars[e] != '\n'
            invariant
                i <= e <= n,
                n == chars@.len(),
                line_end_from(chars@, i as int) == line_end_from(chars@, e as int),
            decreases n - e,
        {
            e = e + 1;
        }
        if e < n {
            let stop = if e > i && chars[e - 1] == '\r' {
                e - 1
            } else {
                e
            };
            let piece = string_of_range(&chars, i, stop);
            proof {
                lemma_line_end_from_range(chars@, i as int);
                assert(piece@ == (if chars@.subrange(i as int, e as int).len() > 0 && chars@.subrange(
                    i as int,
                    e as int,
                ).last() == '\r' {
                    chars@.subrange(i as int, e as int).drop_last()
                } else {
                    chars@.subrange(i as int, e as int)
                }));
            }
            v.push(piece);
            proof {
                assert(Seq::new(v@.len(), |k: int| v@[k]@) =~= before.push(piece@));
                assert(lines_from(s@, i as int) == seq![piece@] + lines_from(s@, e + 1));
                assert(before + lines_from(s@, i as int) =~= before.push(piece@) + lines_from(
                    s@,
                    e + 1,
                ));
            }
            i = e + 1;
        } else {
            let piece = string_of_range(&chars, i, n);
            v.push(piece);
            proof {
                assert(Seq::new(v@.len(), |k: int| v@[k]@) =~= before.push(piece@));
                assert(lines_from(s@, n as int) =~= Seq::<Seq<char>>::empty());
                assert(before + lines_from(s@, i as int) =~= before.push(piece@) + lines_from(
                    s@,
                    n as int,
                ));
            }
            i = n;
        }
    }
    proof {
        assert(lines_from(s@, i as int) =~= Seq::<Seq<char>>::empty());
        assert(lines_from(s@, 0) =~= Seq::new(v@.len(), |k: int| v@[k]@));
    }
    v
}

/// `s` without its trailing whitespace (`str::trim_end`).
pub open spec fn trim_end_spec(s: Seq<char>) -> Seq<char>
    decreases s.len(),
{
    if s.len() > 0 && unicode_whitespace(s.last()) {
        trim_end_spec(s.drop_last())
    } else {
        s
    }
}

pub fn trim_end(s: &str) -> (r: String)
    ensures
        r@ == trim_end_spec(s@),
{
    let chars = chars_of(s);
    let mut e = chars.len();
    proof {
        assert(chars@.take(e as int) =~= chars@);
    }
    while e > 0 && is_whitespace(chars[e - 1])
        invariant
            e <= chars@.len(),
            chars@ == s@,
            trim_end_spec(s@) == trim_end_spec(chars@.take(e as int)),
        decreases e,
    {
        proof {
            assert(chars@.take(e as int).drop_last() =~= chars@.take(e - 1));
        }
        e = e - 1;
    }
    string_of_range(&chars, 0, e)
}

/// `pieces` joined with `sep` between them.
pub open spec fn join(pieces: Seq<Seq<char>>, sep: Seq<char>) -> Seq<char>
    decreases pieces.len(),
{
    if pieces.len() == 0 {
        Seq::empty()
    } else if pieces.len() == 1 {
        pieces[0]
    } else {
        join(pieces.drop_last(), sep) + sep + pieces.last()
    }
}

pub proof fn lemma_join_push(pieces: Seq<Seq<char>>, sep: Seq<char>, p: Seq<char>)
    ensures
        join(pieces.push(p), sep) == (if pieces.len() == 0 {
            p
        } else {
            join(pieces, sep) + sep + p
        }),
{
    assert(pieces.push(p).drop_last() =~= pieces);
}

/// A `call_rust` snippet as a Rust block expression at indentation
/// `indent`.
pub open spec fn rust_block_spec(raw: Seq<char>, indent: nat) -> Seq<char> {
    if raw.contains('\n') {
        let pad = indent_text(indent + 1);
        let lines = lines_from(raw, 0);
        let indented = Seq::new(lines.len(), |k: int| pad + lines[k]);
        "{\n"@ + join(indented, "\n"@) + "\n"@ + indent_text(indent) + "}"@
    } else {
        "{ "@ + raw + " }"@
    }
}

/// Format a `call_rust` snippet as a Rust block expression.
pub fn rust_block(raw: &str, indent: usize) -> (out: String)
    requires
        indent < usize::MAX,
    ensures
        out@ == rust_block_spec(raw@, indent as nat),
{
    proof {
        reveal_strlit("{\n");
        reveal_strlit("\n");
        reveal_strlit("}");
        reveal_strlit("{ ");
        reveal_strlit(" }");
    }
    let chars = chars_of(raw);
    let mut has_newline = false;
    let mut k: usize = 0;
    while k < chars.len()
        invariant
            k <= chars@.len(),
            chars@ == raw@,
            has_newline == (exists|j: int| 0 <= j < k && chars@[j] == '\n'),
        decreases chars@.len() - k,
    {
        if chars[k] == '\n' {
            has_newline = true;
        }
        k = k + 1;
    }
    if has_newline {
        let lines = lines_of(raw);
        let ghost indented = Seq::new(lines@.len(), |j: int| indent_text((indent + 1) as nat) + lines@[j]@);
        let mut out = String::new();
        push_str(&mut out, "{\n");
        let mut j: usize = 0;
        while j < lines.len()
            invariant
                j <= lines@.len(),
                indent < usize::MAX,
                indented == Seq::new(lines@.len(), |m: int| indent_text((indent + 1) as nat) + lines@[m]@),
                out@ == "{\n"@ + join(indented.take(j as int), "\n"@),
            decreases lines@.len() - j,
        {
            let ghost before = out@;
            if j > 0 {
                push_str(&mut out, "\n");
            }
            push_indent(&mut out, indent + 1);
            push_str(&mut out, lines[j].as_str());
            proof {
                assert(indented.take(j + 1) =~= indented.take(j as int).push(indented[j as int]));
                lemma_join_push(indented.take(j as int), "\n"@, indented[j as int]);
                assert(out@ =~= "{\n"@ + join(indented.take(j + 1), "\n"@));
            }
            j = j + 1;
        }
        push_str(&mut out, "\n");
        push_indent(&mut out, indent);
        push_str(&mut out, "}");
        proof {
            assert(indented.take(lines@.len() as int) =~= indented);
            assert(raw@.contains('\n'));
            assert(indented =~= Seq::new(
                lines_from(raw@, 0).len(),
                |m: int| indent_text((indent + 1) as nat) + lines_from(raw@, 0)[m],
            ));
        }
        out
    } else {
        let mut out = String::new();
        push_str(&mut out, "{ ");
        push_str(&mut out, raw);
        push_str(&mut out, " }");
        proof {
            if raw@.contains('\n') {
                let j = choose|j: int| 0 <= j < raw@.len() && raw@[j] == '\n';
                assert(chars@[j] == '\n');
            }
        }
        out
    }
}

} // verus!
