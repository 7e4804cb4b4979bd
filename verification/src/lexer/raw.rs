//! Scanning of raw `lowlevel` blocks: unparsed Rust code between the
//! braces of `scope lowlevel { ... }`. Braces inside strings, char
//! literals, raw strings and comments are ignored.

use vstd::prelude::*;

use crate::diag::{CompileError, Span};
use crate::text::{
    boundary_index, byte_at, byte_len, byte_offset, char_index, chars_of, is_boundary,
    is_alphanumeric, str_byte_len, string_of_range, char_alphanumeric,
};

verus! {

/// What went wrong while scanning a raw block.
#[derive(Debug, Clone, Copy, PartialEq, Eq)]
pub enum RawErrorKind {
    NoOpenBrace,
    UnterminatedString,
    MalformedRawString,
    UnterminatedRawString,
    UnterminatedBlock,
}

/// The diagnostic text of a raw-block scanning error.
pub open spec fn raw_error_text(k: RawErrorKind) -> Seq<char> {
    match k {
        RawErrorKind::NoOpenBrace => "internal error: raw block does not start with '{'"@,
        RawErrorKind::UnterminatedString => "unterminated string literal in lowlevel block"@,
        RawErrorKind::MalformedRawString => "malformed raw string in lowlevel block"@,
        RawErrorKind::UnterminatedRawString => "unterminated raw string in lowlevel block"@,
        RawErrorKind::UnterminatedBlock => "unterminated lowlevel block (missing '}')"@,
    }
}

impl RawErrorKind {
    pub fn message(&self) -> (m: &'static str)
        ensures
            m@ == raw_error_text(*self),
    {
        match self {
            RawErrorKind::NoOpenBrace => "internal error: raw block does not start with '{'",
            RawErrorKind::UnterminatedString => "unterminated string literal in lowlevel block",
            RawErrorKind::MalformedRawString => "malformed raw string in lowlevel block",
            RawErrorKind::UnterminatedRawString => "unterminated raw string in lowlevel block",
            RawErrorKind::UnterminatedBlock => "unterminated lowlevel block (missing '}')",
        }
    }
}

/// A scanning failure: its kind and its span, in byte offsets.
pub type RawFailure = (RawErrorKind, int, int);

/// Skip the body of a string literal whose opening quote precedes index
/// `p`: the index just past the closing quote.
pub open spec fn skip_string_from(s: Seq<char>, p: int) -> Result<int, RawFailure>
    decreases s.len() - p,
{
    if p < 0 || p >= s.len() {
        let b = byte_len(s) as int;
        Err((RawErrorKind::UnterminatedString, b, b))
    } else if s[p] == '\\' {
        if p + 1 < s.len() {
            skip_string_from(s, p + 2)
        } else {
            let b = byte_len(s) as int;
            Err((RawErrorKind::UnterminatedString, b, b))
        }
    } else if s[p] == '"' {
        Ok(p + 1)
    } else if s[p] == '\n' {
        Err((RawErrorKind::UnterminatedString, byte_at(s, p) as int, byte_at(s, p) + 1int))
    } else {
        skip_string_from(s, p + 1)
    }
}

/// Number of consecutive `#` characters starting at index `p`.
pub open spec fn hash_run(s: Seq<char>, p: int) -> nat
    decreases s.len() - p,
{
    if 0 <= p < s.len() && s[p] == '#' {
        1 + hash_run(s, p + 1)
    } else {
        0
    }
}

/// `h` `#` characters follow index `p`.
pub open spec fn hashes_at(s: Seq<char>, p: int, h: nat) -> bool {
    p + h <= s.len() && forall|j: int| p <= j < p + h ==> s[j] == '#'
}

/// Search for the closing `"` plus `h` hashes of a raw string, from `p`.
pub open spec fn raw_close_from(s: Seq<char>, p: int, h: nat) -> Result<int, RawFailure>
    decreases s.len() - p,
{
    if p < 0 || p >= s.len() {
        let b = byte_len(s) as int;
        Err((RawErrorKind::UnterminatedRawString, b, b))
    } else if s[p] == '"' && hashes_at(s, p + 1, h) {
        Ok(p + 1 + h)
    } else {
        raw_close_from(s, p + 1, h)
    }
}

/// Skip a raw string literal (`r"..."`, `r#"..."#`) starting at the `r`
/// at index `p`.
pub open spec fn skip_raw_string_from(s: Seq<char>, p: int) -> Result<int, RawFailure> {
    let h = hash_run(s, p + 1);
    let q = p + 1 + h;
    if q < s.len() && s[q] == '"' {
        raw_close_from(s, q + 1, h)
    } else {
        let b = if q < s.len() {
            byte_at(s, q) as int
        } else {
            byte_len(s) as int
        };
        Err((RawErrorKind::MalformedRawString, b, b + 1))
    }
}

/// A quote at index `i` opens a char literal (rather than a lifetime).
pub open spec fn opens_char_literal(s: Seq<char>, i: int) -> bool {
    if i + 1 < s.len() {
        let next = s[i + 1];
        if next == '\\' {
            true
        } else if i + 2 < s.len() {
            let after = s[i + 2];
            (char_alphanumeric(next) && after == '\'') || (next == '}' && after == '\'')
        } else {
            false
        }
    } else {
        false
    }
}

/// Index of the closing quote of a char literal, searching from `j`
/// (escapes honoured); `s.len()` when there is none.
pub open spec fn char_literal_close(s: Seq<char>, j: int) -> int
    decreases s.len() - j,
{
    if j < 0 || j >= s.len() {
        s.len() as int
    } else if s[j] == '\\' {
        if j + 1 < s.len() {
            char_literal_close(s, j + 2)
        } else {
            s.len() as int
        }
    } else if s[j] == '\'' {
        j
    } else {
        char_literal_close(s, j + 1)
    }
}

/// Index of the first newline at or after `i`, or `s.len()`.
pub open spec fn newline_from(s: Seq<char>, i: int) -> int
    decreases s.len() - i,
{
    if i < 0 || i >= s.len() {
        s.len() as int
    } else if s[i] == '\n' {
        i
    } else {
        newline_from(s, i + 1)
    }
}

/// `s` holds the two characters `a`, `b` at index `j`.
pub open spec fn pair_at(s: Seq<char>, j: int, a: char, b: char) -> bool {
    0 <= j && j + 1 < s.len() && s[j] == a && s[j + 1] == b
}

/// End of a (nested) block comment whose body starts at `j` with `d` open
/// comments.
pub open spec fn block_comment_end(s: Seq<char>, j: int, d: nat) -> int
    decreases s.len() - j,
{
    if j < 0 || j >= s.len() {
        s.len() as int
    } else if pair_at(s, j, '/', '*') {
        block_comment_end(s, j + 2, d + 1)
    } else if pair_at(s, j, '*', '/') {
        if d <= 1 {
            j + 2
        } else {
            block_comment_end(s, j + 2, (d - 1) as nat)
        }
    } else {
        block_comment_end(s, j + 1, d)
    }
}

pub proof fn lemma_skip_string_advances(s: Seq<char>, p: int)
    requires
        0 <= p,
    ensures
        skip_string_from(s, p) matches Ok(j) ==> p < j <= s.len(),
    decreases s.len() - p,
{
    if 0 <= p < s.len() {
        if s[p] == '\\' && p + 1 < s.len() {
            lemma_skip_string_advances(s, p + 2);
        } else if s[p] != '"' && s[p] != '\n' && s[p] != '\\' {
            lemma_skip_string_advances(s, p + 1);
        }
    }
}

pub proof fn lemma_raw_close_advances(s: Seq<char>, p: int, h: nat)
    requires
        0 <= p,
    ensures
        raw_close_from(s, p, h) matches Ok(j) ==> p < j <= s.len(),
    decreases s.len() - p,
{
    if 0 <= p < s.len() && !(s[p] == '"' && hashes_at(s, p + 1, h)) {
        lemma_raw_close_advances(s, p + 1, h);
    }
}

pub proof fn lemma_hash_run_bound(s: Seq<char>, p: int)
    requires
        0 <= p <= s.len(),
    ensures
        p + hash_run(s, p) <= s.len(),
        hashes_at(s, p, hash_run(s, p)),
    decreases s.len() - p,
{
    if 0 <= p < s.len() && s[p] == '#' {
        lemma_hash_run_bound(s, p + 1);
        assert forall|j: int| p <= j < p + hash_run(s, p) implies s[j] == '#' by {
            if j > p {
                assert(hashes_at(s, p + 1, hash_run(s, p + 1)));
            }
        }
    }
}

pub proof fn lemma_char_literal_close_range(s: Seq<char>, j: int)
    requires
        0 <= j,
    ensures
        j <= char_literal_close(s, j) <= s.len() || (j > s.len() && char_literal_close(s, j)
            == s.len()),
    decreases s.len() - j,
{
    if 0 <= j < s.len() {
        if s[j] == '\\' && j + 1 < s.len() {
            lemma_char_literal_close_range(s, j + 2);
        } else if s[j] != '\\' && s[j] != '\'' {
            lemma_char_literal_close_range(s, j + 1);
        }
    }
}

pub proof fn lemma_newline_from_range(s: Seq<char>, i: int)
    requires
        0 <= i <= s.len(),
    ensures
        i <= newline_from(s, i) <= s.len(),
    decreases s.len() - i,
{
    if i < s.len() && s[i] != '\n' {
        lemma_newline_from_range(s, i + 1);
    }
}

pub proof fn lemma_block_comment_end_range(s: Seq<char>, j: int, d: nat)
    requires
        0 <= j <= s.len(),
    ensures
        j <= block_comment_end(s, j, d) <= s.len(),
    decreases s.len() - j,
{
    if j < s.len() {
        if pair_at(s, j, '/', '*') {
            lemma_block_comment_end_range(s, j + 2, d + 1);
        } else if pair_at(s, j, '*', '/') {
            if d > 1 {
                lemma_block_comment_end_range(s, j + 2, (d - 1) as nat);
            }
        } else {
            lemma_block_comment_end_range(s, j + 1, d);
        }
    }
}

/// Scan the inside of a raw block from index `i` with `depth` open braces;
/// the result is the index of the matching closing brace. `start` is the
/// byte offset of the opening brace.
#[verifier::opaque]
pub open spec fn scan_block_from(s: Seq<char>, i: int, depth: int, start: int) -> Result<
    int,
    RawFailure,
>
    decreases s.len() - i,
{
    if i < 0 || i >= s.len() {
        Err((RawErrorKind::UnterminatedBlock, start, byte_len(s) as int))
    } else {
        let c = s[i];
        if c == '{' {
            scan_block_from(s, i + 1, depth + 1, start)
        } else if c == '}' {
            if depth <= 1 {
                Ok(i)
            } else {
                scan_block_from(s, i + 1, depth - 1, start)
            }
        } else if c == '"' {
            match skip_string_from(s, i + 1) {
                Ok(j) => {
                    proof {
                        lemma_skip_string_advances(s, i + 1);
                    }
                    scan_block_from(s, j, depth, start)
                },
                Err(e) => Err(e),
            }
        } else if c == '\'' {
            if opens_char_literal(s, i) {
                let j = char_literal_close(s, i + 1);
                proof {
                    lemma_char_literal_close_range(s, i + 1);
                }
                if j < s.len() {
                    scan_block_from(s, j + 1, depth, start)
                } else {
                    scan_block_from(s, i + 1, depth, start)
                }
            } else {
                scan_block_from(s, i + 1, depth, start)
            }
        } else if c == 'r' && i + 1 < s.len() && (s[i + 1] == '"' || s[i + 1] == '#') {
            match skip_raw_string_from(s, i) {
                Ok(j) => {
                    proof {
                        lemma_hash_run_bound(s, i + 1);
                        let h = hash_run(s, i + 1);
                        lemma_raw_close_advances(s, i + 2 + h, h);
                    }
                    scan_block_from(s, j, depth, start)
                },
                Err(e) => Err(e),
            }
        } else if pair_at(s, i, '/', '/') {
            proof {
                lemma_newline_from_range(s, i + 1);
            }
            scan_block_from(s, newline_from(s, i + 1), depth, start)
        } else if pair_at(s, i, '/', '*') {
            proof {
                lemma_block_comment_end_range(s, i + 2, 1);
            }
            scan_block_from(s, block_comment_end(s, i + 2, 1), depth, start)
        } else {
            scan_block_from(s, i + 1, depth, start)
        }
    }
}

/// The raw block whose `{` is at character index `k`: the index of the
/// matching `}`.
pub open spec fn scan_raw_spec(s: Seq<char>, k: int) -> Result<int, RawFailure> {
    if 0 <= k < s.len() && s[k] == '{' {
        scan_block_from(s, k + 1, 1, byte_at(s, k) as int)
    } else {
        let b = byte_at(s, k) as int;
        Err((RawErrorKind::NoOpenBrace, b, b + 1))
    }
}

/// Whether `r` is what scanning the raw block at byte offset `start` of
/// `src` produces, with `file` as the error's file name.
pub open spec fn raw_block_result(
    src: Seq<char>,
    start: int,
    r: Result<(String, usize), CompileError>,
) -> bool {
    let k = boundary_index(src, start);
    match (scan_raw_spec(src, k), r) {
        (Ok(close), Ok((text, end))) => {
            &&& text@ == src.subrange(k + 1, close)
            &&& end == byte_at(src, close) + 1
        },
        (Err((kind, a, b)), Err(e)) => {
            &&& e.message@ == raw_error_text(kind)
            &&& e.span == Some(Span { start: a as usize, end: b as usize })
            &&& e.file@ == "<source>"@
        },
        _ => false,
    }
}

fn raw_error(chars: &Vec<char>, kind: RawErrorKind, a: usize, b: usize) -> (e: CompileError)
    ensures
        e.message@ == raw_error_text(kind),
        e.span == Some(Span { start: a, end: b }),
        e.file@ == "<source>"@,
{
    CompileError::at(kind.message(), "<source>", Span::new(a, b))
}

/// Index just past the closing quote of a string literal whose body
/// starts at `p`, or the failure.
fn skip_string(s: &Vec<char>, p: usize, total: usize) -> (r: Result<usize, (RawErrorKind, usize, usize)>)
    requires
        total == byte_len(s@),
        p <= s@.len(),
    ensures
        match (skip_string_from(s@, p as int), r) {
            (Ok(j), Ok(k)) => j == k,
            (Err((ek, a, b)), Err((rk, ra, rb))) => ek == rk && a == ra && b == rb,
            _ => false,
        },
{
    let n = s.len();
    let mut i = p;
    while i < n
        invariant
            n == s@.len(),
            p <= i <= n,
            total == byte_len(s@),
            skip_string_from(s@, p as int) == skip_string_from(s@, i as int),
        decreases n - i,
    {
        let c = s[i];
        if c == '\\' {
            if i + 1 < n {
                i = i + 2;
            } else {
                return Err((RawErrorKind::UnterminatedString, total, total));
            }
        } else if c == '"' {
            return Ok(i + 1);
        } else if c == '\n' {
            let b = byte_offset(s, i);
            proof {
                crate::text::lemma_byte_at_bounded(s@, i as int);
                crate::text::lemma_byte_at_mono(s@, i as int, n as int);
                crate::text::lemma_byte_len_take_step(s@, i as int);
                crate::text::lemma_byte_at_bounded(s@, i + 1);
            }
            return Err((RawErrorKind::UnterminatedString, b, b + 1));
        } else {
            i = i + 1;
        }
    }
    Err((RawErrorKind::UnterminatedString, total, total))
}

/// Skip a raw string literal starting at the `r` at index `p`.
fn skip_raw_string(s: &Vec<char>, p: usize, total: usize) -> (r: Result<usize, (RawErrorKind, usize, usize)>)
    requires
        total == byte_len(s@),
        p < s@.len(),
        total < usize::MAX,
    ensures
        match (skip_raw_string_from(s@, p as int), r) {
            (Ok(j), Ok(k)) => j == k,
            (Err((ek, a, b)), Err((rk, ra, rb))) => ek == rk && a == ra && b == rb,
            _ => false,
        },
{
    let n = s.len();
    let mut q = p + 1;
    let mut h: usize = 0;
    while q < n && s[q] == '#'
        invariant
            n == s@.len(),
            p + 1 <= q <= n,
            h == q - (p + 1),
            hash_run(s@, p + 1) == h + hash_run(s@, q as int),
        decreases n - q,
    {
        q = q + 1;
        h = h + 1;
    }
    if !(q < n && s[q] == '"') {
        let b = if q < n {
            byte_offset(s, q)
        } else {
            total
        };
        proof {
            if q < n {
                crate::text::lemma_byte_at_mono(s@, q as int, n as int);
                assert(s@.take(n as int) =~= s@);
            }
        }
        return Err((RawErrorKind::MalformedRawString, b, b + 1));
    }
    let mut i = q + 1;
    while i < n
        invariant
            n == s@.len(),
            q < i <= n,
            q < n,
            s@[q as int] == '"',
            hash_run(s@, p + 1) == h,
            h == q - (p + 1),
            raw_close_from(s@, q + 1, h as nat) == raw_close_from(s@, i as int, h as nat),
        decreases n - i,
    {
        if s[i] == '"' {
            let mut ok = h <= n - (i + 1);
            let mut j = i + 1;
            while ok && j < i + 1 + h
                invariant
                    n == s@.len(),
                    i < n,
                    ok ==> i + 1 <= j <= i + 1 + h,
                    ok ==> i + 1 + h <= n,
                    ok ==> forall|m: int| i + 1 <= m < j ==> s@[m] == '#',
                    !ok ==> !hashes_at(s@, i + 1, h as nat),
                decreases i + 1 + h - j,
            {
                if s[j] != '#' {
                    ok = false;
                }
                j = j + 1;
            }
            if ok {
                assert(hashes_at(s@, i + 1, h as nat));
                assert(raw_close_from(s@, i as int, h as nat) == Ok::<int, RawFailure>(
                    (i + 1 + h) as int,
                ));
                return Ok(i + 1 + h);
            }
        }
        i = i + 1;
    }
    Err((RawErrorKind::UnterminatedRawString, total, total))
}

/// Index after a quote at `i`: past a char literal, or just past the quote
/// when it starts a lifetime.
fn skip_quote(s: &Vec<char>, i: usize) -> (r: usize)
    requires
        i < s@.len(),
        s@[i as int] == '\'',
    ensures
        r == (if opens_char_literal(s@, i as int) {
            let j = char_literal_close(s@, i + 1);
            if j < s@.len() {
                j + 1
            } else {
                i + 1
            }
        } else {
            i + 1
        }),
        i < r <= s@.len(),
{
    let n = s.len();
    let lit = if i + 1 < n {
        let next = s[i + 1];
        if next == '\\' {
            true
        } else if i + 2 < n {
            let after = s[i + 2];
            (is_alphanumeric(next) && after == '\'') || (next == '}' && after == '\'')
        } else {
            false
        }
    } else {
        false
    };
    if lit {
        let mut j = i + 1;
        while j < n && s[j] != '\''
            invariant
                n == s@.len(),
                i + 1 <= j <= n,
                char_literal_close(s@, i + 1) == char_literal_close(s@, j as int),
            decreases n - j,
        {
            if s[j] == '\\' {
                if j + 1 < n {
                    j = j + 2;
                } else {
                    j = n;
                }
            } else {
                j = j + 1;
            }
        }
        if j < n {
            j + 1
        } else {
            i + 1
        }
    } else {
        i + 1
    }
}

/// Index of the newline ending a line comment (searching from `i`).
fn skip_line_comment(s: &Vec<char>, i: usize) -> (r: usize)
    requires
        i <= s@.len(),
    ensures
        r == newline_from(s@, i as int),
{
    let n = s.len();
    let mut j = i;
    while j < n && s[j] != '\n'
        invariant
            n == s@.len(),
            i <= j <= n,
            newline_from(s@, i as int) == newline_from(s@, j as int),
        decreases n - j,
    {
        j = j + 1;
    }
    j
}

/// Index just past a (nested) block comment whose body starts at `i`.
fn skip_block_comment(s: &Vec<char>, i: usize) -> (r: usize)
    requires
        i <= s@.len(),
    ensures
        r == block_comment_end(s@, i as int, 1),
{
    let n = s.len();
    let mut j = i;
    let mut d: usize = 1;
    let mut done = false;
    while j < n && !done
        invariant
            n == s@.len(),
            i <= j <= n,
            1 <= d <= j + 1,
            !done ==> block_comment_end(s@, i as int, 1) == block_comment_end(
                s@,
                j as int,
                d as nat,
            ),
            done ==> block_comment_end(s@, i as int, 1) == j,
        decreases n - j,
    {
        if j + 1 < n && s[j] == '/' && s[j + 1] == '*' {
            d = d + 1;
            j = j + 2;
        } else if j + 1 < n && s[j] == '*' && s[j + 1] == '/' {
            if d == 1 {
                done = true;
            } else {
                d = d - 1;
            }
            j = j + 2;
        } else {
            j = j + 1;
        }
    }
    j
}

/// One step of raw-block scanning.
enum ScanStep {
    Continue(usize, usize),
    Close,
    Fail(RawErrorKind, usize, usize),
}

fn scan_step(s: &Vec<char>, i: usize, depth: usize, start: usize, total: usize) -> (r: ScanStep)
    requires
        i < s@.len(),
        1 <= depth <= i,
        total == byte_len(s@),
        total < usize::MAX,
    ensures
        match r {
            ScanStep::Continue(i2, d2) => {
                &&& i < i2 <= s@.len()
                &&& 1 <= d2 <= i2
                &&& scan_block_from(s@, i as int, depth as int, start as int) == scan_block_from(
                    s@,
                    i2 as int,
                    d2 as int,
                    start as int,
                )
            },
            ScanStep::Close => scan_block_from(s@, i as int, depth as int, start as int) == Ok::<
                int,
                RawFailure,
            >(i as int),
            ScanStep::Fail(ek, a, b) => scan_block_from(s@, i as int, depth as int, start as int)
                == Err::<int, RawFailure>((ek, a as int, b as int)),
        },
{
    reveal(scan_block_from);
    let n = s.len();
    let c = s[i];
    if c == '{' {
        ScanStep::Continue(i + 1, depth + 1)
    } else if c == '}' {
        if depth == 1 {
            ScanStep::Close
        } else {
            ScanStep::Continue(i + 1, depth - 1)
        }
    } else if c == '"' {
        match skip_string(s, i + 1, total) {
            Ok(j) => {
                proof {
                    lemma_skip_string_advances(s@, i + 1);
                }
                ScanStep::Continue(j, depth)
            },
            Err((ek, a, b)) => ScanStep::Fail(ek, a, b),
        }
    } else if c == '\'' {
        ScanStep::Continue(skip_quote(s, i), depth)
    } else if c == 'r' && i + 1 < n && (s[i + 1] == '"' || s[i + 1] == '#') {
        match skip_raw_string(s, i, total) {
            Ok(j) => {
                proof {
                    lemma_hash_run_bound(s@, i + 1);
                    let h = hash_run(s@, i + 1);
                    lemma_raw_close_advances(s@, i + 2 + h, h);
                }
                ScanStep::Continue(j, depth)
            },
            Err((ek, a, b)) => ScanStep::Fail(ek, a, b),
        }
    } else if c == '/' && i + 1 < n && s[i + 1] == '/' {
        let j = skip_line_comment(s, i + 1);
        proof {
            lemma_newline_from_range(s@, i + 1);
        }
        ScanStep::Continue(j, depth)
    } else if c == '/' && i + 1 < n && s[i + 1] == '*' {
        let j = skip_block_comment(s, i + 2);
        proof {
            lemma_block_comment_end_range(s@, i + 2, 1);
        }
        ScanStep::Continue(j, depth)
    } else {
        ScanStep::Continue(i + 1, depth)
    }
}

/// Scan a raw `lowlevel` block: everything between the opening `{` at
/// byte offset `start` and its matching `}`. Returns the raw text and the
/// byte offset just after the closing brace. Braces inside strings, char
/// literals, raw strings and comments are ignored, so arbitrary Rust code
/// can appear.
pub fn scan_raw_block(src: &str, start: usize) -> (r: Result<(String, usize), CompileError>)
    requires
        is_boundary(src@, start as int),
        byte_len(src@) < usize::MAX,
    ensures
        raw_block_result(src@, start as int, r),
{
    let s = chars_of(src);
    let total = str_byte_len(src);
    let n = s.len();
    let k = char_index(&s, start);
    if !(k < n && s[k] == '{') {
        let b = start;
        proof {
            if k < n {
                crate::text::lemma_byte_at_mono(s@, k as int, n as int);
                assert(s@.take(n as int) =~= s@);
            }
        }
        proof {
            crate::text::lemma_byte_at_bounded(s@, k as int);
        }
        return Err(raw_error(&s, RawErrorKind::NoOpenBrace, b, b + 1));
    }
    proof {
        crate::text::lemma_byte_at_mono(s@, k as int, n as int);
        assert(s@.take(n as int) =~= s@);
    }
    let mut i = k + 1;
    let mut depth: usize = 1;
    while i < n
        invariant
            n == s@.len(),
            s@ == src@,
            k < n,
            k + 1 <= i <= n,
            1 <= depth <= i,
            total == byte_len(s@),
            total < usize::MAX,
            byte_at(s@, k as int) == start,
            k == boundary_index(s@, start as int),
            scan_raw_spec(s@, k as int) == scan_block_from(s@, i as int, depth as int, start as int),
        decreases n - i,
    {
        match scan_step(&s, i, depth, start, total) {
            ScanStep::Continue(i2, d2) => {
                i = i2;
                depth = d2;
            },
            ScanStep::Close => {
                let text = string_of_range(&s, k + 1, i);
                let b = byte_offset(&s, i);
                proof {
                    crate::text::lemma_byte_at_mono(s@, i as int, n as int);
                    assert(s@.take(n as int) =~= s@);
                    assert(scan_raw_spec(s@, k as int) == Ok::<int, RawFailure>(i as int));
                    assert(boundary_index(src@, start as int) == k);
                }
                return Ok((text, b + 1));
            },
            ScanStep::Fail(ek, a, b) => {
                return Err(raw_error(&s, ek, a, b));
            },
        }
    }
    proof {
        reveal(scan_block_from);
    }
    let b = total;
    Err(raw_error(&s, RawErrorKind::UnterminatedBlock, start, b))
}

} // verus!

verus! {

/// A raw block that scans successfully from index `i` ends at a closing
/// brace at or after `i`.
pub proof fn lemma_scan_block_range(s: Seq<char>, i: int, depth: int, start: int)
    requires
        0 <= i,
    ensures
        scan_block_from(s, i, depth, start) matches Ok(c) ==> i <= c < s.len() && s[c] == '}',
    decreases s.len() - i,
{
    reveal(scan_block_from);
    if 0 <= i < s.len() {
        let c = s[i];
        if c == '{' {
            lemma_scan_block_range(s, i + 1, depth + 1, start);
        } else if c == '}' {
            if depth > 1 {
                lemma_scan_block_range(s, i + 1, depth - 1, start);
            }
        } else if c == '"' {
            lemma_skip_string_advances(s, i + 1);
            if let Ok(j) = skip_string_from(s, i + 1) {
                lemma_scan_block_range(s, j, depth, start);
            }
        } else if c == '\'' {
            if opens_char_literal(s, i) {
                let j = char_literal_close(s, i + 1);
                lemma_char_literal_close_range(s, i + 1);
                if j < s.len() {
                    lemma_scan_block_range(s, j + 1, depth, start);
                } else {
                    lemma_scan_block_range(s, i + 1, depth, start);
                }
            } else {
                lemma_scan_block_range(s, i + 1, depth, start);
            }
        } else if c == 'r' && i + 1 < s.len() && (s[i + 1] == '"' || s[i + 1] == '#') {
            lemma_hash_run_bound(s, i + 1);
            let h = hash_run(s, i + 1);
            lemma_raw_close_advances(s, i + 2 + h, h);
            if let Ok(j) = skip_raw_string_from(s, i) {
                lemma_scan_block_range(s, j, depth, start);
            }
        } else if pair_at(s, i, '/', '/') {
            lemma_newline_from_range(s, i + 1);
            lemma_scan_block_range(s, newline_from(s, i + 1), depth, start);
        } else if pair_at(s, i, '/', '*') {
            lemma_block_comment_end_range(s, i + 2, 1);
            lemma_scan_block_range(s, block_comment_end(s, i + 2, 1), depth, start);
        } else {
            lemma_scan_block_range(s, i + 1, depth, start);
        }
    }
}

} // verus!
