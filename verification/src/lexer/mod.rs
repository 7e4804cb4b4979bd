//! Tokenizer for the Zero language.
//!
//! The lexer is pull-based so the parser can jump over raw `lowlevel`
//! blocks (which contain unparsed Rust code) without tokenizing them.
//! Positions are byte offsets into the source, as in every span.

pub mod raw;
pub mod token;

pub use raw::scan_raw_block;
pub use token::{TokKind, TokView, Token};

use vstd::prelude::*;

use crate::diag::{CompileError, Span};
use crate::text::{
    byte_at, byte_len, chars_of, is_alphabetic, is_alphanumeric, is_ascii_digit, is_boundary,
    is_digit, is_whitespace, lemma_byte_at_bounded, lemma_byte_at_mono, lemma_byte_len_take_step,
    push_char, push_str, str_byte_len, str_eq, string_of_range, char_alphabetic,
    char_alphanumeric, unicode_whitespace, utf8_width,
};
use raw::{lemma_newline_from_range, newline_from, pair_at};

verus! {

broadcast use vstd::seq_lib::group_seq_properties;

/// A lexing failure: message and byte span.
pub type LexFailure = (Seq<char>, int, int);

/// A lexed token: kind, byte span, and the character index after it.
pub type LexedToken = (TokView, int, int, int);

/// End of a (nested) block comment whose body starts at `j` with `d`
/// comments open; `None` when the source ends first.
pub open spec fn comment_close(s: Seq<char>, j: int, d: nat) -> Option<int>
    decreases s.len() - j,
{
    if j < 0 || j >= s.len() {
        None
    } else if pair_at(s, j, '/', '*') {
        comment_close(s, j + 2, d + 1)
    } else if pair_at(s, j, '*', '/') {
        if d <= 1 {
            Some(j + 2)
        } else {
            comment_close(s, j + 2, (d - 1) as nat)
        }
    } else {
        comment_close(s, j + 1, d)
    }
}

pub proof fn lemma_comment_close_range(s: Seq<char>, j: int, d: nat)
    requires
        0 <= j,
    ensures
        comment_close(s, j, d) matches Some(k) ==> j < k <= s.len(),
    decreases s.len() - j,
{
    if 0 <= j < s.len() {
        if pair_at(s, j, '/', '*') {
            lemma_comment_close_range(s, j + 2, d + 1);
        } else if pair_at(s, j, '*', '/') {
            if d > 1 {
                lemma_comment_close_range(s, j + 2, (d - 1) as nat);
            }
        } else {
            lemma_comment_close_range(s, j + 1, d);
        }
    }
}

/// Skip whitespace and comments from index `i`: the index of the next
/// significant character.
pub open spec fn skip_trivia_spec(s: Seq<char>, i: int) -> Result<int, LexFailure>
    decreases s.len() - i,
{
    if i < 0 || i >= s.len() {
        Ok(i)
    } else if unicode_whitespace(s[i]) {
        skip_trivia_spec(s, i + 1)
    } else if pair_at(s, i, '/', '/') {
        proof {
            lemma_newline_from_range(s, i + 1);
        }
        skip_trivia_spec(s, newline_from(s, i + 1))
    } else if pair_at(s, i, '/', '*') {
        match comment_close(s, i + 2, 1) {
            Some(j) => {
                proof {
                    lemma_comment_close_range(s, i + 2, 1);
                }
                skip_trivia_spec(s, j)
            },
            None => Err(("unterminated block comment"@, byte_at(s, i) as int, byte_len(s) as int)),
        }
    } else {
        Ok(i)
    }
}

/// Decoded value of an escape character.
pub open spec fn escape_value(c: char) -> Option<char> {
    if c == '"' {
        Some('"')
    } else if c == '\\' {
        Some('\\')
    } else if c == 'n' {
        Some('\n')
    } else if c == 'r' {
        Some('\r')
    } else if c == 't' {
        Some('\t')
    } else if c == '0' {
        Some('\0')
    } else {
        None
    }
}

/// Lex the body of a string literal from index `p` (after the opening
/// quote at byte `st`), with the value decoded so far in `acc`: the value
/// and the index after the closing quote.
#[verifier::opaque]
pub open spec fn string_spec(s: Seq<char>, p: int, acc: Seq<char>, st: int) -> Result<
    (Seq<char>, int),
    LexFailure,
>
    decreases s.len() - p,
{
    if p < 0 || p >= s.len() {
        Err(("unterminated string literal"@, st, byte_len(s) as int))
    } else if s[p] == '"' {
        Ok((acc, p + 1))
    } else if s[p] == '\\' {
        if p + 1 >= s.len() {
            Err(("unterminated string literal"@, st, byte_len(s) as int))
        } else {
            match escape_value(s[p + 1]) {
                Some(v) => string_spec(s, p + 2, acc.push(v), st),
                None => Err(
                    (
                        "unknown escape sequence '\\"@ + seq![s[p + 1]] + "'"@,
                        st,
                        byte_at(s, p + 2) as int,
                    ),
                ),
            }
        }
    } else if s[p] == '\n' {
        Err(("unterminated string literal"@, st, byte_at(s, p + 1) as int))
    } else {
        string_spec(s, p + 1, acc.push(s[p]), st)
    }
}

/// Index of the first non-digit at or after `i`.
pub open spec fn digits_end(s: Seq<char>, i: int) -> int
    decreases s.len() - i,
{
    if 0 <= i < s.len() && is_digit(s[i]) {
        digits_end(s, i + 1)
    } else {
        i
    }
}

/// Value of a decimal digit run.
pub open spec fn digits_value(ds: Seq<char>) -> nat
    decreases ds.len(),
{
    if ds.len() == 0 {
        0
    } else {
        digits_value(ds.drop_last()) * 10 + ((ds.last() as int - '0' as int) as nat)
    }
}

/// The pieces of a number literal starting at index `st`: the end of the
/// integer digits, whether a fraction follows and where it ends, whether
/// an exponent follows (with a sign), where its digits start and where the
/// literal ends.
pub struct NumParts {
    pub a: int,
    pub has_frac: bool,
    pub b: int,
    pub signed: bool,
    pub la: int,
    pub has_exp: bool,
    pub c: int,
}

pub open spec fn number_parts(s: Seq<char>, st: int) -> NumParts {
    let a = digits_end(s, st);
    let has_frac = a + 1 < s.len() && s[a] == '.' && is_digit(s[a + 1]);
    let b = if has_frac {
        digits_end(s, a + 1)
    } else {
        a
    };
    let has_e = b < s.len() && (s[b] == 'e' || s[b] == 'E');
    let signed = has_e && b + 1 < s.len() && (s[b + 1] == '+' || s[b + 1] == '-');
    let la = if signed {
        b + 2
    } else {
        b + 1
    };
    let has_exp = has_e && la < s.len() && is_digit(s[la]);
    let c = if has_exp {
        digits_end(s, la)
    } else {
        b
    };
    NumParts { a, has_frac, b, signed, la, has_exp, c }
}

/// Normalised text of a float literal: `e` is always lower case.
pub open spec fn float_text(s: Seq<char>, st: int, p: NumParts) -> Seq<char> {
    let frac = if p.has_frac {
        seq!['.'] + s.subrange(p.a + 1, p.b)
    } else {
        Seq::empty()
    };
    let exp = if p.has_exp {
        seq!['e'] + (if p.signed {
            seq![s[p.b + 1]]
        } else {
            Seq::empty()
        }) + s.subrange(p.la, p.c)
    } else {
        Seq::empty()
    };
    s.subrange(st, p.a) + frac + exp
}

/// Lex a number whose first digit is at index `st`.
pub open spec fn number_spec(s: Seq<char>, st: int) -> Result<(TokView, int), LexFailure> {
    let p = number_parts(s, st);
    if p.has_frac || p.has_exp {
        Ok((TokView::Float(float_text(s, st, p)), p.c))
    } else {
        let v = digits_value(s.subrange(st, p.a));
        if v <= i64::MAX {
            Ok((TokView::Int(v as i64), p.a))
        } else {
            Err(("integer literal is out of range"@, byte_at(s, st) as int, byte_at(s, p.a) as int))
        }
    }
}

/// Characters allowed in identifiers after the first.
pub open spec fn is_ident_char(c: char) -> bool {
    char_alphanumeric(c) || c == '_'
}

/// Index of the first non-identifier character at or after `i`.
pub open spec fn ident_end(s: Seq<char>, i: int) -> int
    decreases s.len() - i,
{
    if 0 <= i < s.len() && is_ident_char(s[i]) {
        ident_end(s, i + 1)
    } else {
        i
    }
}

/// The token kind of a word: a keyword, or an identifier.
pub open spec fn word_kind(w: Seq<char>) -> TokView {
    if w == "fn"@ {
        TokView::Fn
    } else if w == "func"@ {
        TokView::Func
    } else if w == "return"@ {
        TokView::Return
    } else if w == "if"@ {
        TokView::If
    } else if w == "else"@ {
        TokView::Else
    } else if w == "else_if"@ {
        TokView::ElseIf
    } else if w == "while"@ {
        TokView::While
    } else if w == "for"@ {
        TokView::For
    } else if w == "each"@ {
        TokView::Each
    } else if w == "in"@ {
        TokView::In
    } else if w == "switch"@ {
        TokView::Switch
    } else if w == "case"@ {
        TokView::Case
    } else if w == "default"@ {
        TokView::Default
    } else if w == "try"@ {
        TokView::Try
    } else if w == "catch"@ {
        TokView::Catch
    } else if w == "import"@ {
        TokView::Import
    } else if w == "scope"@ {
        TokView::Scope
    } else if w == "highlevel"@ {
        TokView::HighLevel
    } else if w == "lowlevel"@ {
        TokView::LowLevel
    } else if w == "const"@ {
        TokView::Const
    } else if w == "true"@ {
        TokView::True
    } else if w == "false"@ {
        TokView::False
    } else if w == "and"@ {
        TokView::And
    } else if w == "or"@ {
        TokView::Or
    } else if w == "break"@ {
        TokView::Break
    } else if w == "continue"@ {
        TokView::Continue
    } else if w == "NULL"@ || w == "null"@ {
        TokView::Null
    } else {
        TokView::Ident(w)
    }
}

/// A one- or two-character operator or punctuation token starting at `i`:
/// its kind and length.
pub open spec fn punct_spec(s: Seq<char>, i: int) -> Option<(TokView, int)> {
    let c = s[i];
    let n1 = if i + 1 < s.len() {
        Some(s[i + 1])
    } else {
        None
    };
    if c == '{' {
        Some((TokView::LBrace, 1))
    } else if c == '}' {
        Some((TokView::RBrace, 1))
    } else if c == '(' {
        Some((TokView::LParen, 1))
    } else if c == ')' {
        Some((TokView::RParen, 1))
    } else if c == ';' {
        Some((TokView::Semi, 1))
    } else if c == ':' {
        Some((TokView::Colon, 1))
    } else if c == ',' {
        Some((TokView::Comma, 1))
    } else if c == '.' {
        if n1 == Some('.') {
            if i + 2 < s.len() && s[i + 2] == '=' {
                Some((TokView::DotDotEq, 3))
            } else {
                Some((TokView::DotDot, 2))
            }
        } else {
            Some((TokView::Dot, 1))
        }
    } else if c == '+' {
        if n1 == Some('=') {
            Some((TokView::PlusEq, 2))
        } else {
            Some((TokView::Plus, 1))
        }
    } else if c == '-' {
        if n1 == Some('>') {
            Some((TokView::Arrow, 2))
        } else if n1 == Some('=') {
            Some((TokView::MinusEq, 2))
        } else {
            Some((TokView::Minus, 1))
        }
    } else if c == '*' {
        if n1 == Some('=') {
            Some((TokView::StarEq, 2))
        } else {
            Some((TokView::Star, 1))
        }
    } else if c == '/' {
        Some((TokView::Slash, 1))
    } else if c == '%' {
        Some((TokView::Percent, 1))
    } else if c == '!' {
        if n1 == Some('=') {
            Some((TokView::BangEq, 2))
        } else {
            Some((TokView::Bang, 1))
        }
    } else if c == '<' {
        if n1 == Some('=') {
            Some((TokView::Le, 2))
        } else {
            Some((TokView::Lt, 1))
        }
    } else if c == '>' {
        if n1 == Some('=') {
            Some((TokView::Ge, 2))
        } else {
            Some((TokView::Gt, 1))
        }
    } else if c == '=' {
        if n1 == Some('=') {
            Some((TokView::EqEq, 2))
        } else {
            Some((TokView::Equal, 1))
        }
    } else {
        None
    }
}

/// The token starting at the significant character index `i`.
pub open spec fn token_at(s: Seq<char>, i: int) -> Result<(TokView, int), LexFailure> {
    if i < 0 || i >= s.len() {
        Ok((TokView::Eof, i))
    } else {
        let c = s[i];
        let b = byte_at(s, i) as int;
        match punct_spec(s, i) {
            Some((k, len)) => Ok((k, i + len)),
            None => {
                if c == '&' {
                    Err(("unexpected character '&' (use the keyword 'and')"@, b, b + 1))
                } else if c == '|' {
                    Err(("unexpected character '|' (use the keyword 'or')"@, b, b + 1))
                } else if c == '"' {
                    match string_spec(s, i + 1, Seq::empty(), b) {
                        Ok((v, j)) => Ok((TokView::Str(v), j)),
                        Err(e) => Err(e),
                    }
                } else if is_digit(c) {
                    number_spec(s, i)
                } else if char_alphabetic(c) || c == '_' {
                    let e = ident_end(s, i + 1);
                    Ok((word_kind(s.subrange(i, e)), e))
                } else {
                    Err(
                        (
                            "unexpected character '"@ + seq![c] + "'"@,
                            b,
                            byte_at(s, i + 1) as int,
                        ),
                    )
                }
            },
        }
    }
}

/// Whether a token whose first character is `c` ends the lexer at the end
/// of its error span when it fails (strings and numbers); any other failing
/// token leaves the lexer at its first character.
pub open spec fn stops_at_error_end(c: char) -> bool {
    c == '"' || is_digit(c)
}

/// Whether lexing from index `i` fails on a single unexpected character:
/// the lexer then stays at that character, at the start of the error span;
/// on any other failure it stands at the end of the error span.
pub open spec fn lex_char_error(s: Seq<char>, i: int) -> bool {
    match skip_trivia_spec(s, i) {
        Ok(st) => 0 <= st < s.len() && !stops_at_error_end(s[st]),
        Err(_) => false,
    }
}

/// The next token of `s` from character index `i`: its kind, byte span
/// and the index after it.
#[verifier::opaque]
pub open spec fn lex_spec(s: Seq<char>, i: int) -> Result<LexedToken, LexFailure> {
    match skip_trivia_spec(s, i) {
        Err(e) => Err(e),
        Ok(st) => match token_at(s, st) {
            Err(e) => Err(e),
            Ok((k, j)) => Ok((k, byte_at(s, st) as int, byte_at(s, j) as int, j)),
        },
    }
}

pub struct Lexer {
    chars: Vec<char>,
    /// Character index of the next unread character.
    idx: usize,
    /// Byte offset of the next unread character.
    pos: usize,
    /// Byte length of the source.
    total: usize,
}

impl Lexer {
    /// The source characters.
    pub closed spec fn text(&self) -> Seq<char> {
        self.chars@
    }

    /// Character index of the next unread character.
    pub closed spec fn index(&self) -> int {
        self.idx as int
    }

    pub closed spec fn wf(&self) -> bool {
        &&& self.idx <= self.chars@.len()
        &&& self.pos == byte_at(self.chars@, self.idx as int)
        &&& self.total == byte_len(self.chars@)
        &&& self.total < usize::MAX
        &&& self.chars@.len() <= self.total
    }

    /// The next unread character lies within the text.
    pub proof fn lemma_index_bound(&self)
        requires
            self.wf(),
        ensures
            0 <= self.index() <= self.text().len(),
    {
    }

    pub fn new(src: &str) -> (lx: Lexer)
        requires
            byte_len(src@) < usize::MAX,
        ensures
            lx.wf(),
            lx.text() == src@,
            lx.index() == 0,
    {
        let chars = chars_of(src);
        let total = str_byte_len(src);
        proof {
            assert(chars@.take(0) =~= Seq::<char>::empty());
            crate::text::lemma_byte_len_ge_len(chars@);
        }
        Lexer { chars, idx: 0, pos: 0, total }
    }

    /// Move the lexer to an absolute byte offset (used after raw blocks).
    /// Offsets past the end move it to the end.
    pub fn seek(&mut self, pos: usize)
        requires
            old(self).wf(),
            pos >= byte_len(old(self).text()) || is_boundary(old(self).text(), pos as int),
        ensures
            final(self).wf(),
            final(self).text() == old(self).text(),
            final(self).index() == (if pos >= byte_len(old(self).text()) {
                old(self).text().len() as int
            } else {
                crate::text::boundary_index(old(self).text(), pos as int)
            }),
    {
        if pos >= self.total {
            self.idx = self.chars.len();
            self.pos = self.total;
            proof {
                assert(self.chars@.take(self.chars@.len() as int) =~= self.chars@);
            }
        } else {
            let k = crate::text::char_index(&self.chars, pos);
            self.idx = k;
            self.pos = pos;
        }
    }

    /// Byte offset of the next unread character.
    pub fn position(&self) -> (p: usize)
        requires
            self.wf(),
        ensures
            p == byte_at(self.text(), self.index()),
    {
        self.pos
    }

    proof fn lemma_step(&self, i: int)
        requires
            self.wf(),
            0 <= i < self.chars@.len(),
        ensures
            byte_at(self.chars@, i + 1) == byte_at(self.chars@, i) + crate::text::char_width(
                self.chars@[i],
            ),
            byte_at(self.chars@, i + 1) <= self.total,
    {
        lemma_byte_len_take_step(self.chars@, i);
        lemma_byte_at_bounded(self.chars@, i + 1);
    }

    /// Consume the next character.
    fn bump(&mut self)
        requires
            old(self).wf(),
            old(self).idx < old(self).chars@.len(),
        ensures
            final(self).wf(),
            final(self).chars@ == old(self).chars@,
            final(self).idx == old(self).idx + 1,
    {
        proof {
            self.lemma_step(self.idx as int);
        }
        let n = self.chars.len();
        let w = utf8_width(self.chars[self.idx]);
        self.pos = self.pos + w;
        self.idx = self.idx + 1;
    }

    /// Byte offset of character index `i`.
    fn byte_of(&self, i: usize) -> (b: usize)
        requires
            self.wf(),
            i <= self.chars@.len(),
        ensures
            b == byte_at(self.chars@, i as int),
            b <= self.total,
    {
        proof {
            lemma_byte_at_bounded(self.chars@, i as int);
        }
        crate::text::byte_offset(&self.chars, i)
    }

    fn fail(&self, message: &str, start: usize, end: usize) -> (e: CompileError)
        ensures
            e.message@ == message@,
            e.span == Some(Span { start, end }),
            e.file@ == "<source>"@,
    {
        CompileError::at(message, "<source>", Span::new(start, end))
    }

    fn skip_trivia(&mut self) -> (r: Result<(), CompileError>)
        requires
            old(self).wf(),
        ensures
            final(self).wf(),
            final(self).chars@ == old(self).chars@,
            match (skip_trivia_spec(old(self).chars@, old(self).idx as int), r) {
                (Ok(j), Ok(_)) => final(self).idx == j,
                (Err((m, a, b)), Err(e)) => {
                    &&& e.message@ == m
                    &&& e.span == Some(Span { start: a as usize, end: b as usize })
                    &&& e.file@ == "<source>"@
                    &&& byte_at(final(self).chars@, final(self).idx as int) == b
                },
                _ => false,
            },
    {
        let n = self.chars.len();
        let ghost s = self.chars@;
        let ghost i0 = self.idx as int;
        while self.idx < n
            invariant
                self.wf(),
                self.chars@ == s,
                old(self).chars@ == s,
                old(self).idx == i0,
                n == s.len(),
                skip_trivia_spec(s, i0) == skip_trivia_spec(s, self.idx as int),
            decreases n - self.idx,
        {
            let c = self.chars[self.idx];
            if is_whitespace(c) {
                self.bump();
            } else if c == '/' && self.idx + 1 < n && self.chars[self.idx + 1] == '/' {
                proof {
                    lemma_newline_from_range(s, self.idx + 1);
                }
                let ghost before = self.idx as int;
                self.bump();
                while self.idx < n && self.chars[self.idx] != '\n'
                    invariant
                        self.idx > before,
                        self.wf(),
                        self.chars@ == s,
                        n == s.len(),
                        skip_trivia_spec(s, i0) == skip_trivia_spec(s, newline_from(s, self.idx as int)),
                    decreases n - self.idx,
                {
                    self.bump();
                }
            } else if c == '/' && self.idx + 1 < n && self.chars[self.idx + 1] == '*' {
                let ghost before = self.idx as int;
                proof {
                    lemma_comment_close_range(s, before + 2, 1);
                }
                match self.skip_block_comment() {
                    Ok(()) => {},
                    Err(e) => {
                        return Err(e);
                    },
                }
            } else {
                return Ok(());
            }
        }
        Ok(())
    }

    /// Skip a (nested) block comment that starts at the next character.
    #[verifier::spinoff_prover]
    #[verifier::rlimit(60)]
    fn skip_block_comment(&mut self) -> (r: Result<(), CompileError>)
        requires
            old(self).wf(),
            pair_at(old(self).chars@, old(self).idx as int, '/', '*'),
        ensures
            final(self).wf(),
            final(self).chars@ == old(self).chars@,
            match (comment_close(old(self).chars@, old(self).idx + 2, 1), r) {
                (Some(j), Ok(_)) => final(self).idx == j,
                (None, Err(e)) => {
                    &&& e.message@ == "unterminated block comment"@
                    &&& e.span == Some(
                        Span { start: old(self).pos, end: byte_len(old(self).chars@) as usize },
                    )
                    &&& e.file@ == "<source>"@
                    &&& byte_at(final(self).chars@, final(self).idx as int) == byte_len(old(self).chars@)
                },
                _ => false,
            },
    {
        let ghost s = self.chars@;
        let ghost open_idx = self.idx as int;
        let n = self.chars.len();
        let start = self.pos;
        self.bump();
        self.bump();
        let mut depth: usize = 1;
        while depth > 0
            invariant
                self.wf(),
                self.chars@ == s,
                old(self).chars@ == s,
                old(self).idx == open_idx,
                old(self).pos == start,
                n == s.len(),
                open_idx + 2 <= self.idx,
                depth <= self.idx,
                depth > 0 ==> comment_close(s, open_idx + 2, 1) == comment_close(
                    s,
                    self.idx as int,
                    depth as nat,
                ),
                depth == 0 ==> comment_close(s, open_idx + 2, 1) == Some(self.idx as int),
            decreases n - self.idx, depth,
        {
            if self.idx >= n {
                let end = self.pos;
                proof {
                    assert(s.take(n as int) =~= s);
                }
                return Err(self.fail("unterminated block comment", start, end));
            }
            if self.idx + 1 < n && self.chars[self.idx] == '/' && self.chars[self.idx + 1] == '*' {
                self.bump();
                self.bump();
                depth = depth + 1;
            } else if self.idx + 1 < n && self.chars[self.idx] == '*' && self.chars[self.idx + 1]
                == '/' {
                self.bump();
                self.bump();
                depth = depth - 1;
            } else {
                self.bump();
            }
        }
        Ok(())
    }

    /// Lex a string literal whose opening quote is the next character and
    /// starts at byte `start`.
    #[verifier::rlimit(40)]
    fn lex_string(&mut self, start: usize) -> (r: Result<TokKind, CompileError>)
        requires
            old(self).wf(),
            old(self).idx < old(self).chars@.len(),
            old(self).chars@[old(self).idx as int] == '"',
            start == byte_at(old(self).chars@, old(self).idx as int),
        ensures
            final(self).wf(),
            final(self).chars@ == old(self).chars@,
            match (
                string_spec(old(self).chars@, old(self).idx + 1, Seq::empty(), start as int),
                r,
            ) {
                (Ok((v, j)), Ok(k)) => final(self).idx == j && k@ == TokView::Str(v),
                (Err((m, a, b)), Err(e)) => {
                    &&& e.message@ == m
                    &&& e.span == Some(Span { start: a as usize, end: b as usize })
                    &&& e.file@ == "<source>"@
                    &&& byte_at(final(self).chars@, final(self).idx as int) == b
                },
                _ => false,
            },
    {
        proof {
            reveal_strlit("unknown escape sequence '\\");
            reveal_strlit("'");
        }
        let ghost s = self.chars@;
        let ghost i1 = self.idx + 1;
        self.bump();
        let n = self.chars.len();
        let mut value = String::new();
        loop
            invariant
                self.wf(),
                self.chars@ == s,
                old(self).chars@ == s,
                old(self).idx + 1 == i1,
                n == s.len(),
                i1 <= self.idx,
                string_spec(s, i1, Seq::empty(), start as int) == string_spec(
                    s,
                    self.idx as int,
                    value@,
                    start as int,
                ),
            decreases n - self.idx,
        {
            proof {
                reveal(string_spec);
            }
            if self.idx >= n {
                let end = self.pos;
                proof {
                    assert(s.take(n as int) =~= s);
                }
                return Err(self.fail("unterminated string literal", start, end));
            }
            let c = self.chars[self.idx];
            self.bump();
            if c == '"' {
                return Ok(TokKind::Str(value));
            } else if c == '\\' {
                if self.idx >= n {
                    let end = self.pos;
                    proof {
                        assert(s.take(n as int) =~= s);
                    }
                    return Err(self.fail("unterminated string literal", start, end));
                }
                let esc = self.chars[self.idx];
                self.bump();
                if esc == '"' {
                    push_char(&mut value, '"');
                } else if esc == '\\' {
                    push_char(&mut value, '\\');
                } else if esc == 'n' {
                    push_char(&mut value, '\n');
                } else if esc == 'r' {
                    push_char(&mut value, '\r');
                } else if esc == 't' {
                    push_char(&mut value, '\t');
                } else if esc == '0' {
                    push_char(&mut value, '\0');
                } else {
                    let mut msg = String::new();
                    push_str(&mut msg, "unknown escape sequence '\\");
                    push_char(&mut msg, esc);
                    push_str(&mut msg, "'");
                    let end = self.pos;
                    return Err(self.fail(msg.as_str(), start, end));
                }
            } else if c == '\n' {
                let end = self.pos;
                return Err(self.fail("unterminated string literal", start, end));
            } else {
                push_char(&mut value, c);
            }
        }
    }

    /// Advance over a run of ASCII digits.
    fn skip_digits(&mut self)
        requires
            old(self).wf(),
        ensures
            final(self).wf(),
            final(self).chars@ == old(self).chars@,
            final(self).idx == digits_end(old(self).chars@, old(self).idx as int),
    {
        let n = self.chars.len();
        let ghost s = self.chars@;
        let ghost i0 = self.idx as int;
        while self.idx < n && is_ascii_digit(self.chars[self.idx])
            invariant
                self.wf(),
                self.chars@ == s,
                old(self).chars@ == s,
                n == s.len(),
                digits_end(s, i0) == digits_end(s, self.idx as int),
            decreases n - self.idx,
        {
            self.bump();
        }
    }

    /// Advance over a number literal starting at the next character and
    /// return its pieces.
    fn scan_number(&mut self) -> (r: (usize, bool, usize, bool, usize, bool))
        requires
            old(self).wf(),
            old(self).idx < old(self).chars@.len(),
        ensures
            final(self).wf(),
            final(self).chars@ == old(self).chars@,
            ({
                let p = number_parts(old(self).chars@, old(self).idx as int);
                &&& r.0 == p.a
                &&& r.1 == p.has_frac
                &&& r.2 == p.b
                &&& r.3 == p.signed
                &&& r.4 == p.la
                &&& r.5 == p.has_exp
                &&& final(self).idx == p.c
                &&& old(self).idx <= p.a <= p.b <= p.c <= old(self).chars@.len()
                &&& p.has_frac ==> p.a + 1 <= p.b
                &&& p.has_exp ==> p.b < p.la <= p.c && p.la <= p.b + 2
                &&& p.signed ==> p.b + 1 < old(self).chars@.len()
                &&& forall|k: int| old(self).idx <= k < p.a ==> is_digit(#[trigger] old(self).chars@[k])
            }),
    {
        let ghost s = self.chars@;
        let n = self.chars.len();
        let st = self.idx;
        proof {
            lemma_digits_end(s, st as int);
        }
        self.skip_digits();
        let a = self.idx;
        let has_frac = a < n && a + 1 < n && self.chars[a] == '.' && is_ascii_digit(
            self.chars[a + 1],
        );
        if has_frac {
            proof {
                lemma_digits_end(s, a + 1);
            }
            self.bump();
            self.skip_digits();
        }
        let b = self.idx;
        let has_e = b < n && (self.chars[b] == 'e' || self.chars[b] == 'E');
        let signed = has_e && b + 1 < n && (self.chars[b + 1] == '+' || self.chars[b + 1] == '-');
        let la = if signed {
            b + 2
        } else {
            b + 1
        };
        let has_exp = has_e && la < n && is_ascii_digit(self.chars[la]);
        if has_exp {
            proof {
                lemma_digits_end(s, la as int);
            }
            self.bump();
            if signed {
                self.bump();
            }
            self.skip_digits();
        }
        (a, has_frac, b, signed, la, has_exp)
    }

    /// Lex an integer or floating-point literal starting at the next
    /// character (a digit at byte `start`). A `.` only starts the
    /// fractional part when it is followed by a digit, so ranges (`0..5`)
    /// are never confused with floats.
    #[verifier::rlimit(40)]
    fn lex_number(&mut self, start: usize) -> (r: Result<TokKind, CompileError>)
        requires
            old(self).wf(),
            old(self).idx < old(self).chars@.len(),
            is_digit(old(self).chars@[old(self).idx as int]),
            start == byte_at(old(self).chars@, old(self).idx as int),
        ensures
            final(self).wf(),
            final(self).chars@ == old(self).chars@,
            match (number_spec(old(self).chars@, old(self).idx as int), r) {
                (Ok((k, j)), Ok(t)) => final(self).idx == j && t@ == k,
                (Err((m, a, b)), Err(e)) => {
                    &&& e.message@ == m
                    &&& e.span == Some(Span { start: a as usize, end: b as usize })
                    &&& e.file@ == "<source>"@
                    &&& byte_at(final(self).chars@, final(self).idx as int) == b
                },
                _ => false,
            },
    {
        let st = self.idx;
        let (a, has_frac, b, signed, la, has_exp) = self.scan_number();
        if has_frac || has_exp {
            let text = self.float_literal(st, (a, has_frac, b, signed, la, has_exp));
            return Ok(TokKind::Float(text));
        }
        match self.digits_to_int(st, a) {
            Some(v) => Ok(TokKind::Int(v)),
            None => {
                let sb = self.byte_of(st);
                let eb = self.byte_of(a);
                Err(self.fail("integer literal is out of range", sb, eb))
            },
        }
    }

    /// Normalised text of the float literal from index `st` whose pieces
    /// `scan_number` found; the lexer stands at its end.
    fn float_literal(&self, st: usize, parts: (usize, bool, usize, bool, usize, bool)) -> (text: String)
        requires
            self.wf(),
            ({
                let p = number_parts(self.chars@, st as int);
                &&& parts.0 == p.a
                &&& parts.1 == p.has_frac
                &&& parts.2 == p.b
                &&& parts.3 == p.signed
                &&& parts.4 == p.la
                &&& parts.5 == p.has_exp
                &&& self.idx == p.c
                &&& st <= p.a <= p.b <= p.c <= self.chars@.len()
                &&& p.has_frac ==> p.a + 1 <= p.b
                &&& p.has_exp ==> p.b < p.la <= p.c && p.la <= p.b + 2
                &&& p.signed ==> p.b + 1 < self.chars@.len()
            }),
        ensures
            text@ == float_text(self.chars@, st as int, number_parts(self.chars@, st as int)),
    {
        let ghost s = self.chars@;
        let (a, has_frac, b, signed, la, has_exp) = parts;
        let c = self.idx;
        let mut text = string_of_range(&self.chars, st, a);
        if has_frac {
            push_char(&mut text, '.');
            let f = string_of_range(&self.chars, a + 1, b);
            push_str(&mut text, f.as_str());
        }
        if has_exp {
            push_char(&mut text, 'e');
            if signed {
                push_char(&mut text, self.chars[b + 1]);
            }
            let e = string_of_range(&self.chars, la, c);
            push_str(&mut text, e.as_str());
        }
        proof {
            let p = number_parts(s, st as int);
            let sign = if signed {
                seq![s[b + 1]]
            } else {
                Seq::<char>::empty()
            };
            assert(text@ =~= float_text(s, st as int, p));
        }
        text
    }

    /// Value of the digit run `st..a`, when it fits in an `i64`.
    fn digits_to_int(&self, st: usize, a: usize) -> (r: Option<i64>)
        requires
            self.wf(),
            st <= a <= self.chars@.len(),
            forall|k: int| st <= k < a ==> is_digit(#[trigger] self.chars@[k]),
        ensures
            match r {
                Some(v) => v == digits_value(self.chars@.subrange(st as int, a as int)),
                None => digits_value(self.chars@.subrange(st as int, a as int)) > i64::MAX,
            },
    {
        let ghost s = self.chars@;
        let mut v: i64 = 0;
        let mut k = st;
        proof {
            assert(s.subrange(st as int, st as int) =~= Seq::<char>::empty());
        }
        while k < a
            invariant
                self.chars@ == s,
                st <= k <= a <= s.len(),
                forall|m: int| st <= m < a ==> is_digit(#[trigger] s[m]),
                v == digits_value(s.subrange(st as int, k as int)),
            decreases a - k,
        {
            let d = (self.chars[k] as u32 - '0' as u32) as i64;
            proof {
                assert(s.subrange(st as int, k + 1).drop_last() =~= s.subrange(st as int, k as int));
            }
            if v > (i64::MAX - d) / 10 {
                proof {
                    lemma_digits_value_prefix(s.subrange(st as int, a as int), (k + 1 - st) as int);
                    assert(s.subrange(st as int, a as int).take((k + 1 - st) as int) =~= s.subrange(
                        st as int,
                        k + 1,
                    ));
                }
                return None;
            }
            v = v * 10 + d;
            k = k + 1;
        }
        Some(v)
    }

    /// Lex an identifier or keyword starting at the next character.
    fn lex_ident(&mut self) -> (k: TokKind)
        requires
            old(self).wf(),
            old(self).idx < old(self).chars@.len(),
        ensures
            final(self).wf(),
            final(self).chars@ == old(self).chars@,
            final(self).idx == ident_end(old(self).chars@, old(self).idx + 1),
            k@ == word_kind(old(self).chars@.subrange(old(self).idx as int, final(self).idx as int)),
    {
        let st = self.idx;
        let n = self.chars.len();
        let ghost s = self.chars@;
        self.bump();
        while self.idx < n && (is_alphanumeric(self.chars[self.idx]) || self.chars[self.idx] == '_')
            invariant
                self.wf(),
                self.chars@ == s,
                old(self).chars@ == s,
                n == s.len(),
                st < self.idx,
                ident_end(s, st + 1) == ident_end(s, self.idx as int),
            decreases n - self.idx,
        {
            self.bump();
        }
        let word = string_of_range(&self.chars, st, self.idx);
        keyword_or_ident(word)
    }

    /// Produce the next token.
    pub fn next_token(&mut self) -> (r: Result<Token, CompileError>)
        requires
            old(self).wf(),
        ensures
            final(self).wf(),
            final(self).text() == old(self).text(),
            match (lex_spec(old(self).text(), old(self).index()), r) {
                (Ok((k, a, b, j)), Ok(t)) => {
                    &&& t.kind@ == k
                    &&& t.span == Span { start: a as usize, end: b as usize }
                    &&& final(self).index() == j
                },
                (Err((m, a, b)), Err(e)) => {
                    &&& e.message@ == m
                    &&& e.span == Some(Span { start: a as usize, end: b as usize })
                    &&& e.file@ == "<source>"@
                    &&& byte_at(final(self).text(), final(self).index()) == (if lex_char_error(
                        old(self).text(),
                        old(self).index(),
                    ) {
                        a
                    } else {
                        b
                    })
                },
                _ => false,
            },
    {
        proof {
            reveal(lex_spec);
        }
        match self.skip_trivia() {
            Ok(()) => {},
            Err(e) => {
                return Err(e);
            },
        }
        let start = self.pos;
        let n = self.chars.len();
        if self.idx >= n {
            return Ok(Token { kind: TokKind::Eof, span: Span::new(start, start) });
        }
        let kind = match self.lex_token(start) {
            Ok(k) => k,
            Err(e) => {
                return Err(e);
            },
        };
        let end = self.pos;
        Ok(Token { kind, span: Span::new(start, end) })
    }

    /// Lex the token whose first (significant) character is the next one.
    fn lex_token(&mut self, start: usize) -> (r: Result<TokKind, CompileError>)
        requires
            old(self).wf(),
            old(self).idx < old(self).chars@.len(),
            start == byte_at(old(self).chars@, old(self).idx as int),
        ensures
            final(self).wf(),
            final(self).chars@ == old(self).chars@,
            match (token_at(old(self).chars@, old(self).idx as int), r) {
                (Ok((k, j)), Ok(t)) => final(self).idx == j && t@ == k,
                (Err((m, a, b)), Err(e)) => {
                    &&& e.message@ == m
                    &&& e.span == Some(Span { start: a as usize, end: b as usize })
                    &&& e.file@ == "<source>"@
                    &&& if stops_at_error_end(old(self).chars@[old(self).idx as int]) {
                        byte_at(final(self).chars@, final(self).idx as int) == b
                    } else {
                        final(self).idx == old(self).idx
                    }
                },
                _ => false,
            },
    {
        let c = self.chars[self.idx];
        match self.punct() {
            Some(k) => {
                return Ok(k);
            },
            None => {},
        }
        proof {
            self.lemma_step(self.idx as int);
        }
        if c == '&' {
            return Err(
                self.fail("unexpected character '&' (use the keyword 'and')", start, start + 1),
            );
        } else if c == '|' {
            return Err(
                self.fail("unexpected character '|' (use the keyword 'or')", start, start + 1),
            );
        } else if c == '"' {
            return self.lex_string(start);
        } else if is_ascii_digit(c) {
            return self.lex_number(start);
        } else if is_alphabetic(c) || c == '_' {
            return Ok(self.lex_ident());
        } else {
            proof {
                reveal_strlit("unexpected character '");
                reveal_strlit("'");
            }
            let mut msg = String::new();
            push_str(&mut msg, "unexpected character '");
            push_char(&mut msg, c);
            push_str(&mut msg, "'");
            let end = start + utf8_width(c);
            return Err(self.fail(msg.as_str(), start, end));
        }
    }

    /// Lex an operator or punctuation token at the next character, if it
    /// starts one.
    fn punct(&mut self) -> (r: Option<TokKind>)
        requires
            old(self).wf(),
            old(self).idx < old(self).chars@.len(),
        ensures
            final(self).wf(),
            final(self).chars@ == old(self).chars@,
            match (punct_spec(old(self).chars@, old(self).idx as int), r) {
                (Some((k, len)), Some(t)) => t@ == k && final(self).idx == old(self).idx + len,
                (None, None) => final(self).idx == old(self).idx,
                _ => false,
            },
    {
        let n = self.chars.len();
        let i = self.idx;
        let c = self.chars[i];
        let n1 = if i + 1 < n {
            Some(self.chars[i + 1])
        } else {
            None
        };
        let (k, len): (TokKind, usize) = if c == '{' {
            (TokKind::LBrace, 1)
        } else if c == '}' {
            (TokKind::RBrace, 1)
        } else if c == '(' {
            (TokKind::LParen, 1)
        } else if c == ')' {
            (TokKind::RParen, 1)
        } else if c == ';' {
            (TokKind::Semi, 1)
        } else if c == ':' {
            (TokKind::Colon, 1)
        } else if c == ',' {
            (TokKind::Comma, 1)
        } else if c == '.' {
            if n1 == Some('.') {
                if i + 2 < n && self.chars[i + 2] == '=' {
                    (TokKind::DotDotEq, 3)
                } else {
                    (TokKind::DotDot, 2)
                }
            } else {
                (TokKind::Dot, 1)
            }
        } else if c == '+' {
            if n1 == Some('=') {
                (TokKind::PlusEq, 2)
            } else {
                (TokKind::Plus, 1)
            }
        } else if c == '-' {
            if n1 == Some('>') {
                (TokKind::Arrow, 2)
            } else if n1 == Some('=') {
                (TokKind::MinusEq, 2)
            } else {
                (TokKind::Minus, 1)
            }
        } else if c == '*' {
            if n1 == Some('=') {
                (TokKind::StarEq, 2)
            } else {
                (TokKind::Star, 1)
            }
        } else if c == '/' {
            (TokKind::Slash, 1)
        } else if c == '%' {
            (TokKind::Percent, 1)
        } else if c == '!' {
            if n1 == Some('=') {
                (TokKind::BangEq, 2)
            } else {
                (TokKind::Bang, 1)
            }
        } else if c == '<' {
            if n1 == Some('=') {
                (TokKind::Le, 2)
            } else {
                (TokKind::Lt, 1)
            }
        } else if c == '>' {
            if n1 == Some('=') {
                (TokKind::Ge, 2)
            } else {
                (TokKind::Gt, 1)
            }
        } else if c == '=' {
            if n1 == Some('=') {
                (TokKind::EqEq, 2)
            } else {
                (TokKind::Equal, 1)
            }
        } else {
            return None;
        };
        self.bump();
        if len >= 2 {
            self.bump();
        }
        if len >= 3 {
            self.bump();
        }
        Some(k)
    }
}

pub proof fn lemma_digits_end(s: Seq<char>, i: int)
    requires
        0 <= i <= s.len(),
    ensures
        i <= digits_end(s, i) <= s.len(),
        forall|k: int| i <= k < digits_end(s, i) ==> is_digit(#[trigger] s[k]),
    decreases s.len() - i,
{
    if i < s.len() && is_digit(s[i]) {
        lemma_digits_end(s, i + 1);
    }
}

pub proof fn lemma_digits_value_prefix(ds: Seq<char>, j: int)
    requires
        0 <= j <= ds.len(),
    ensures
        digits_value(ds.take(j)) <= digits_value(ds),
    decreases ds.len() - j,
{
    if j < ds.len() {
        lemma_digits_value_prefix(ds, j + 1);
        assert(ds.take(j + 1).drop_last() =~= ds.take(j));
    } else {
        assert(ds.take(j) =~= ds);
    }
}

/// The keyword named by `word`, or an identifier.
fn keyword_or_ident(word: String) -> (k: TokKind)
    ensures
        k@ == word_kind(word@),
{
    let w = word.as_str();
    if str_eq(w, "fn") {
        TokKind::Fn
    } else if str_eq(w, "func") {
        TokKind::Func
    } else if str_eq(w, "return") {
        TokKind::Return
    } else if str_eq(w, "if") {
        TokKind::If
    } else if str_eq(w, "else") {
        TokKind::Else
    } else if str_eq(w, "else_if") {
        TokKind::ElseIf
    } else if str_eq(w, "while") {
        TokKind::While
    } else if str_eq(w, "for") {
        TokKind::For
    } else if str_eq(w, "each") {
        TokKind::Each
    } else if str_eq(w, "in") {
        TokKind::In
    } else if str_eq(w, "switch") {
        TokKind::Switch
    } else if str_eq(w, "case") {
        TokKind::Case
    } else if str_eq(w, "default") {
        TokKind::Default
    } else if str_eq(w, "try") {
        TokKind::Try
    } else if str_eq(w, "catch") {
        TokKind::Catch
    } else if str_eq(w, "import") {
        TokKind::Import
    } else if str_eq(w, "scope") {
        TokKind::Scope
    } else if str_eq(w, "highlevel") {
        TokKind::HighLevel
    } else if str_eq(w, "lowlevel") {
        TokKind::LowLevel
    } else if str_eq(w, "const") {
        TokKind::Const
    } else if str_eq(w, "true") {
        TokKind::True
    } else if str_eq(w, "false") {
        TokKind::False
    } else if str_eq(w, "and") {
        TokKind::And
    } else if str_eq(w, "or") {
        TokKind::Or
    } else if str_eq(w, "break") {
        TokKind::Break
    } else if str_eq(w, "continue") {
        TokKind::Continue
    } else if str_eq(w, "NULL") || str_eq(w, "null") {
        TokKind::Null
    } else {
        TokKind::Ident(word)
    }
}

} // verus!

verus! {

pub proof fn lemma_skip_trivia_range(s: Seq<char>, i: int)
    requires
        0 <= i <= s.len(),
    ensures
        skip_trivia_spec(s, i) matches Ok(j) ==> i <= j <= s.len(),
    decreases s.len() - i,
{
    if i < s.len() {
        if unicode_whitespace(s[i]) {
            lemma_skip_trivia_range(s, i + 1);
        } else if pair_at(s, i, '/', '/') {
            lemma_newline_from_range(s, i + 1);
            lemma_skip_trivia_range(s, newline_from(s, i + 1));
        } else if pair_at(s, i, '/', '*') {
            lemma_comment_close_range(s, i + 2, 1);
            if let Some(j) = comment_close(s, i + 2, 1) {
                lemma_skip_trivia_range(s, j);
            }
        }
    }
}

pub proof fn lemma_string_range(s: Seq<char>, p: int, acc: Seq<char>, st: int)
    requires
        0 <= p,
    ensures
        string_spec(s, p, acc, st) matches Ok((v, j)) ==> p < j <= s.len(),
    decreases s.len() - p,
{
    reveal(string_spec);
    if 0 <= p < s.len() && s[p] != '"' {
        if s[p] == '\\' {
            if p + 1 < s.len() {
                if let Some(v) = escape_value(s[p + 1]) {
                    lemma_string_range(s, p + 2, acc.push(v), st);
                }
            }
        } else if s[p] != '\n' {
            lemma_string_range(s, p + 1, acc.push(s[p]), st);
        }
    }
}

pub proof fn lemma_ident_end(s: Seq<char>, i: int)
    requires
        0 <= i <= s.len(),
    ensures
        i <= ident_end(s, i) <= s.len(),
    decreases s.len() - i,
{
    if i < s.len() && is_ident_char(s[i]) {
        lemma_ident_end(s, i + 1);
    }
}

/// Where the token that `lex_spec` yields starts: lexing never moves
/// backwards and consumes at least one character, except at the end of the
/// input where it yields `Eof`.
pub proof fn lemma_lex_token(s: Seq<char>, i: int) -> (st: int)
    requires
        0 <= i <= s.len(),
    ensures
        lex_spec(s, i) matches Ok((k, a, b, j)) ==> {
            &&& i <= st <= j <= s.len()
            &&& a == byte_at(s, st)
            &&& b == byte_at(s, j)
            &&& (k is Eof ==> st == j && j == s.len())
            &&& (!(k is Eof) ==> st < j)
            &&& (k is LBrace ==> j == st + 1 && s[st] == '{')
            &&& skip_trivia_spec(s, i) == Ok::<int, LexFailure>(st)
        },
{
    reveal(lex_spec);
    lemma_skip_trivia_range(s, i);
    if let Ok(st) = skip_trivia_spec(s, i) {
        if st < s.len() {
            let c = s[st];
            if punct_spec(s, st).is_none() {
                if c == '"' {
                    lemma_string_range(s, st + 1, Seq::empty(), byte_at(s, st) as int);
                } else if is_digit(c) {
                    lemma_digits_end(s, st);
                    lemma_digits_end(s, st + 1);
                    assert(digits_end(s, st) == digits_end(s, st + 1));
                    let p = number_parts(s, st);
                    if p.has_frac {
                        lemma_digits_end(s, p.a + 1);
                    }
                    if p.has_exp {
                        lemma_digits_end(s, p.la);
                    }
                } else if char_alphabetic(c) || c == '_' {
                    lemma_ident_end(s, st + 1);
                }
            }
        }
        st
    } else {
        i
    }
}

} // verus!
