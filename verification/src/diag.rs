//! Compiler diagnostics: source spans, the error type and its rendering.

use vstd::prelude::*;

use crate::text::{
    byte_at, byte_len, chars_of, decimal, lemma_byte_at_bounded, lemma_byte_at_mono,
    lemma_byte_len_take_step, push_char, push_decimal, push_str, str_byte_len, string_of_range,
    utf8_width,
};

verus! {

broadcast use vstd::seq_lib::group_seq_properties;

/// A half-open byte range `start..end` of the source text.
#[derive(Debug, Clone, Copy, PartialEq, Eq)]
pub struct Span {
    pub start: usize,
    pub end: usize,
}

impl Span {
    pub fn new(start: usize, end: usize) -> (s: Span)
        ensures
            s.start == start,
            s.end == end,
    {
        Span { start, end }
    }
}

/// A compiler error carrying an optional source span.
#[derive(Debug)]
pub struct CompileError {
    pub message: String,
    pub span: Option<Span>,
    pub file: String,
}

impl CompileError {
    /// An error without a source location.
    pub fn new(message: &str, file: &str) -> (e: CompileError)
        ensures
            e.message@ == message@,
            e.span.is_none(),
            e.file@ == file@,
    {
        CompileError { message: message.to_owned(), span: None, file: file.to_owned() }
    }

    /// An error located at `span`.
    pub fn at(message: &str, file: &str, span: Span) -> (e: CompileError)
        ensures
            e.message@ == message@,
            e.span == Some(span),
            e.file@ == file@,
    {
        CompileError { message: message.to_owned(), span: Some(span), file: file.to_owned() }
    }
}

/// Line and column (both 1-based) reached after reading the characters `s`.
pub open spec fn line_col_of(s: Seq<char>) -> (int, int)
    decreases s.len(),
{
    if s.len() == 0 {
        (1, 1)
    } else {
        let (l, c) = line_col_of(s.drop_last());
        if s.last() == '\n' {
            (l + 1, 1)
        } else {
            (l, c + 1)
        }
    }
}

/// Number of leading characters of `s` whose first byte lies before the
/// byte offset `off`.
pub open spec fn chars_before(s: Seq<char>, off: int) -> nat
    decreases s.len(),
{
    if s.len() == 0 {
        0
    } else if byte_at(s, s.len() - 1) < off {
        s.len()
    } else {
        chars_before(s.drop_last(), off)
    }
}

/// The 1-based line and column of byte offset `off` (clamped to the end).
pub open spec fn line_col_spec(s: Seq<char>, off: int) -> (int, int) {
    line_col_of(s.take(chars_before(s, off) as int))
}

proof fn lemma_line_col_bounds(s: Seq<char>)
    ensures
        1 <= line_col_of(s).0 <= s.len() + 1,
        1 <= line_col_of(s).1 <= s.len() + 1,
    decreases s.len(),
{
    if s.len() > 0 {
        lemma_line_col_bounds(s.drop_last());
    }
}

proof fn lemma_byte_at_drop_last(s: Seq<char>, k: int)
    requires
        0 <= k < s.len(),
    ensures
        byte_at(s.drop_last(), k) == byte_at(s, k),
{
    assert(s.drop_last().take(k) =~= s.take(k));
}

/// `chars_before` counts exactly the characters whose start byte is below
/// `off`.
proof fn lemma_chars_before(s: Seq<char>, off: int, i: int)
    requires
        0 <= i <= s.len(),
    ensures
        i <= chars_before(s, off) <==> (i == 0 || byte_at(s, i - 1) < off),
    decreases s.len(),
{
    if s.len() > 0 && i > 0 {
        if byte_at(s, s.len() - 1) < off {
            lemma_byte_at_mono(s, i - 1, s.len() - 1);
        } else if i == s.len() {
            lemma_chars_before_le(s.drop_last(), off);
        } else {
            lemma_byte_at_drop_last(s, i - 1);
            lemma_chars_before(s.drop_last(), off, i);
        }
    }
}

proof fn lemma_chars_before_le(s: Seq<char>, off: int)
    ensures
        chars_before(s, off) <= s.len(),
    decreases s.len(),
{
    if s.len() > 0 {
        lemma_chars_before_le(s.drop_last(), off);
    }
}

/// The 1-based line of a byte offset (clamped to the end), counted without
/// a bound on the number of lines.
pub fn line_number(src: &str, offset: usize) -> (r: usize)
    requires
        src@.len() < usize::MAX,
    ensures
        r == line_col_spec(src@, offset as int).0,
{
    let chars = chars_of(src);
    let n = chars.len();
    let mut line: usize = 1;
    let mut i: usize = 0;
    let mut pos: usize = 0;
    let total = str_byte_len(src);
    let ghost s = chars@;
    while i < n && pos < offset
        invariant
            s == chars@,
            s == src@,
            n == s.len(),
            n < usize::MAX,
            total == byte_len(s),
            i <= n,
            pos == byte_at(s, i as int),
            i <= chars_before(s, offset as int),
            line as int == line_col_of(s.take(i as int)).0,
        decreases n - i,
    {
        proof {
            lemma_chars_before(s, offset as int, i + 1);
            lemma_line_col_bounds(s.take(i as int));
            lemma_byte_len_take_step(s, i as int);
            lemma_byte_at_bounded(s, i + 1);
            assert(s.take(i + 1).drop_last() =~= s.take(i as int));
        }
        let c = chars[i];
        if c == '\n' {
            line = line + 1;
        }
        pos = pos + utf8_width(c);
        i = i + 1;
    }
    proof {
        lemma_chars_before_le(s, offset as int);
        if i < chars_before(s, offset as int) {
            lemma_chars_before(s, offset as int, i + 1);
        }
    }
    line
}

/// Compute the 1-based line and column for a byte offset.
pub fn line_col(src: &str, offset: usize) -> (r: (u32, u32))
    requires
        src@.len() < u32::MAX,
    ensures
        r.0 == line_col_spec(src@, offset as int).0,
        r.1 == line_col_spec(src@, offset as int).1,
{
    let chars = chars_of(src);
    let n = chars.len();
    let mut line: u32 = 1;
    let mut col: u32 = 1;
    let mut i: usize = 0;
    let mut pos: usize = 0;
    let total = str_byte_len(src);
    let ghost s = chars@;
    while i < n && pos < offset
        invariant
            s == chars@,
            s == src@,
            n == s.len(),
            n < u32::MAX,
            total == byte_len(s),
            i <= n,
            pos == byte_at(s, i as int),
            i <= chars_before(s, offset as int),
            (line as int, col as int) == line_col_of(s.take(i as int)),
        decreases n - i,
    {
        proof {
            lemma_chars_before(s, offset as int, i + 1);
            lemma_line_col_bounds(s.take(i as int));
            lemma_byte_len_take_step(s, i as int);
            lemma_byte_at_bounded(s, i + 1);
            assert(s.take(i + 1).drop_last() =~= s.take(i as int));
        }
        let c = chars[i];
        if c == '\n' {
            line = line + 1;
            col = 1;
        } else {
            col = col + 1;
        }
        pos = pos + utf8_width(c);
        i = i + 1;
    }
    proof {
        lemma_chars_before_le(s, offset as int);
        if i < chars_before(s, offset as int) {
            lemma_chars_before(s, offset as int, i + 1);
        }
    }
    (line, col)
}

/// Index just past the `k`-th newline at or after `i` (`k == 0` gives `i`);
/// `s.len() + 1` when there are too few newlines.
pub open spec fn line_start_from(s: Seq<char>, k: nat, i: int) -> int
    decreases k, s.len() - i,
{
    if k == 0 {
        i
    } else if i >= s.len() || i < 0 {
        s.len() + 1int
    } else if s[i] == '\n' {
        line_start_from(s, (k - 1) as nat, i + 1)
    } else {
        line_start_from(s, k, i + 1)
    }
}

/// Index of the first newline at or after `i`, or `s.len()`.
pub open spec fn line_end_from(s: Seq<char>, i: int) -> int
    decreases s.len() - i,
{
    if i >= s.len() || i < 0 {
        s.len() as int
    } else if s[i] == '\n' {
        i
    } else {
        line_end_from(s, i + 1)
    }
}

/// The `k`-th (0-based) line of `s` as `str::lines` yields it, or the empty
/// text when there is no such line.
pub open spec fn nth_line(s: Seq<char>, k: nat) -> Seq<char> {
    let start = line_start_from(s, k, 0);
    if start < s.len() {
        let end = line_end_from(s, start);
        let text = s.subrange(start, end);
        if end < s.len() && text.len() > 0 && text.last() == '\r' {
            text.drop_last()
        } else {
            text
        }
    } else {
        Seq::empty()
    }
}

proof fn lemma_line_start_range(s: Seq<char>, k: nat, i: int)
    requires
        0 <= i <= s.len(),
    ensures
        i <= line_start_from(s, k, i) <= s.len() + 1,
    decreases k, s.len() - i,
{
    if k > 0 && i < s.len() {
        if s[i] == '\n' {
            lemma_line_start_range(s, (k - 1) as nat, i + 1);
        } else {
            lemma_line_start_range(s, k, i + 1);
        }
    }
}

proof fn lemma_line_end_range(s: Seq<char>, i: int)
    requires
        0 <= i <= s.len(),
    ensures
        i <= line_end_from(s, i) <= s.len(),
    decreases s.len() - i,
{
    if i < s.len() && s[i] != '\n' {
        lemma_line_end_range(s, i + 1);
    }
}

/// The `k`-th line of a character sequence.
fn line_text(s: &Vec<char>, k: usize) -> (r: String)
    ensures
        r@ == nth_line(s@, k as nat),
{
    let n = s.len();
    let mut i: usize = 0;
    let mut left: usize = k;
    while left > 0 && i < n
        invariant
            i <= n == s@.len(),
            left <= k,
            line_start_from(s@, k as nat, 0) == line_start_from(s@, left as nat, i as int),
        decreases n - i,
    {
        if s[i] == '\n' {
            left = left - 1;
        }
        i = i + 1;
    }
    if left > 0 || i >= n {
        return String::new();
    }
    let start = i;
    while i < n && s[i] != '\n'
        invariant
            start <= i <= n == s@.len(),
            line_end_from(s@, start as int) == line_end_from(s@, i as int),
        decreases n - i,
    {
        i = i + 1;
    }
    let mut end = i;
    if end < n && end > start && s[end - 1] == '\r' {
        end = end - 1;
    }
    let r = string_of_range(s, start, end);
    proof {
        let text = s@.subrange(start as int, i as int);
        if i < n && i > start && s@[i - 1] == '\r' {
            assert(text.drop_last() =~= s@.subrange(start as int, end as int));
        }
    }
    r
}

/// `n` spaces.
pub open spec fn spaces(n: nat) -> Seq<char> {
    Seq::new(n, |i: int| ' ')
}

fn push_spaces(s: &mut String, n: u32)
    ensures
        final(s)@ == old(s)@ + spaces(n as nat),
{
    let mut i: u32 = 0;
    while i < n
        invariant
            i <= n,
            s@ == old(s)@ + spaces(i as nat),
        decreases n - i,
    {
        push_char(s, ' ');
        assert(spaces((i + 1) as nat) =~= spaces(i as nat).push(' '));
        i = i + 1;
    }
}

/// The text `render_error` produces for an error message, file, optional
/// span start and source.
pub open spec fn rendered_error(
    message: Seq<char>,
    file: Seq<char>,
    span: Option<Span>,
    src: Seq<char>,
) -> Seq<char> {
    let head = "error: "@ + message;
    match span {
        None => head,
        Some(sp) => {
            let (line, col) = line_col_spec(src, sp.start as int);
            head + "\n  --> "@ + file + ":"@ + decimal(line as nat) + ":"@ + decimal(col as nat)
                + "\n   | "@ + nth_line(src, (line - 1) as nat) + "\n   | "@ + spaces(
                (col - 1) as nat,
            ) + "^"@
        },
    }
}

/// Render an error with a source snippet and a caret, for the CLI.
pub fn render_error(err: &CompileError, src: &str) -> (out: String)
    requires
        src@.len() < u32::MAX,
    ensures
        out@ == rendered_error(err.message@, err.file@, err.span, src@),
{
    proof {
        reveal_strlit("error: ");
        reveal_strlit("\n  --> ");
        reveal_strlit(":");
        reveal_strlit("\n   | ");
        reveal_strlit("^");
    }
    let mut out = String::new();
    push_str(&mut out, "error: ");
    push_str(&mut out, err.message.as_str());
    if let Some(span) = err.span {
        let (line, col) = line_col(src, span.start);
        proof {
            let n = chars_before(src@, span.start as int);
            lemma_chars_before_le(src@, span.start as int);
            lemma_line_col_bounds(src@.take(n as int));
        }
        push_str(&mut out, "\n  --> ");
        push_str(&mut out, err.file.as_str());
        push_str(&mut out, ":");
        push_decimal(&mut out, line as u64);
        push_str(&mut out, ":");
        push_decimal(&mut out, col as u64);
        push_str(&mut out, "\n   | ");
        let chars = chars_of(src);
        let text = line_text(&chars, (line - 1) as usize);
        push_str(&mut out, text.as_str());
        push_str(&mut out, "\n   | ");
        push_spaces(&mut out, col - 1);
        push_str(&mut out, "^");
    }
    out
}

} // verus!
