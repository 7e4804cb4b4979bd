//! The string operations of the `lowlevel_strings` standard header and the
//! decisions of the `stream_io` header (formatting, choosing a stream), as
//! verified library functions.
//!
//! A generated program does not call these: it carries the headers' Rust
//! source, the text constants of `import::stdlib`, and runs that text.
//! These functions state, and prove, the behaviour that text is written to
//! have.
//!
//! A float is held as its decimal rendering, the only thing these
//! operations read of it.

use vstd::prelude::*;

use crate::codegen::emit::trim_end_spec;
use crate::text::{
    chars_of, int_text, is_whitespace, push_char, push_int, push_str, str_eq, string_of_range,
    to_lowercase, to_uppercase, unicode_lowercase, unicode_uppercase, unicode_whitespace,
};

verus! {

broadcast use vstd::seq_lib::group_seq_properties;

/// A dynamic Zero value.
#[derive(Debug)]
pub enum ZVal {
    Int(i64),
    /// A float, held as its decimal rendering.
    Float(String),
    Str(String),
    Bool(bool),
    Nil,
}

pub enum ZValV {
    Int(i64),
    Float(Seq<char>),
    Str(Seq<char>),
    Bool(bool),
    Nil,
}

impl View for ZVal {
    type V = ZValV;

    open spec fn view(&self) -> ZValV {
        match self {
            ZVal::Int(n) => ZValV::Int(*n),
            ZVal::Float(t) => ZValV::Float(t@),
            ZVal::Str(s) => ZValV::Str(s@),
            ZVal::Bool(b) => ZValV::Bool(*b),
            ZVal::Nil => ZValV::Nil,
        }
    }
}

/// The string form of a value.
pub open spec fn text_of(v: ZValV) -> Seq<char> {
    match v {
        ZValV::Int(n) => int_text(n as int),
        ZValV::Float(t) => t,
        ZValV::Str(s) => s,
        ZValV::Bool(b) => if b {
            "true"@
        } else {
            "false"@
        },
        ZValV::Nil => "nil"@,
    }
}

impl ZVal {
    pub fn to_rust_string(&self) -> (s: String)
        ensures
            s@ == text_of(self@),
    {
        match self {
            ZVal::Int(n) => crate::text::int_to_string(*n),
            ZVal::Float(t) => t.clone(),
            ZVal::Str(s) => s.clone(),
            ZVal::Bool(b) => String::from_str(if *b { "true" } else { "false" }),
            ZVal::Nil => String::from_str("nil"),
        }
    }

    pub fn as_int(&self) -> (r: Option<i64>)
        ensures
            r == (match self@ {
                ZValV::Int(n) => Some(n),
                _ => None,
            }),
    {
        match self {
            ZVal::Int(n) => Some(*n),
            _ => None,
        }
    }
}

/// `p` occurs in `s` at index `i`.
pub open spec fn occurs_at(s: Seq<char>, p: Seq<char>, i: int) -> bool {
    0 <= i && i + p.len() <= s.len() && s.subrange(i, i + p.len()) == p
}

/// The first index at or after `i` where `p` occurs in `s`.
pub open spec fn first_match(s: Seq<char>, p: Seq<char>, i: int) -> Option<int>
    decreases s.len() + 1 - i,
{
    if i < 0 || i + p.len() > s.len() {
        None
    } else if occurs_at(s, p, i) {
        Some(i)
    } else {
        first_match(s, p, i + 1)
    }
}

pub proof fn lemma_first_match(s: Seq<char>, p: Seq<char>, i: int)
    ensures
        first_match(s, p, i) matches Some(k) ==> i <= k && occurs_at(s, p, k),
    decreases s.len() + 1 - i,
{
    if 0 <= i && i + p.len() <= s.len() && !occurs_at(s, p, i) {
        lemma_first_match(s, p, i + 1);
    }
}

/// The number of non-overlapping occurrences of `p` in `s`, left to right
/// from index `i`; an empty pattern matches at every character boundary.
pub open spec fn count_from(s: Seq<char>, p: Seq<char>, i: int) -> nat
    decreases s.len() + 1 - i,
{
    if i < 0 || i + p.len() > s.len() {
        0
    } else if p.len() == 0 {
        (s.len() - i + 1) as nat
    } else if occurs_at(s, p, i) {
        1 + count_from(s, p, i + p.len())
    } else {
        count_from(s, p, i + 1)
    }
}

/// `s[i..]` with the non-overlapping occurrences of the non-empty `p`
/// replaced by `r`, left to right.
pub open spec fn replace_from(s: Seq<char>, p: Seq<char>, r: Seq<char>, i: int) -> Seq<char>
    decreases s.len() - i,
{
    if i < 0 || i >= s.len() {
        Seq::empty()
    } else if p.len() > 0 && occurs_at(s, p, i) {
        r + replace_from(s, p, r, i + p.len())
    } else {
        seq![s[i]] + replace_from(s, p, r, i + 1)
    }
}

/// `s[i..]` with `r` at every character boundary (the empty pattern).
pub open spec fn replace_empty(s: Seq<char>, r: Seq<char>, i: int) -> Seq<char>
    decreases s.len() - i,
{
    if i < 0 || i >= s.len() {
        r
    } else {
        r + seq![s[i]] + replace_empty(s, r, i + 1)
    }
}

/// `str::replace`.
pub open spec fn replace_spec(s: Seq<char>, p: Seq<char>, r: Seq<char>) -> Seq<char> {
    if p.len() == 0 {
        replace_empty(s, r, 0)
    } else {
        replace_from(s, p, r, 0)
    }
}

/// `s` without its leading white space.
pub open spec fn trim_start_spec(s: Seq<char>) -> Seq<char>
    decreases s.len(),
{
    if s.len() > 0 && unicode_whitespace(s[0]) {
        trim_start_spec(s.drop_first())
    } else {
        s
    }
}

/// `s` reversed.
pub open spec fn reversed(s: Seq<char>) -> Seq<char> {
    Seq::new(s.len(), |i: int| s[s.len() - 1 - i])
}

/// String length (in characters).
pub fn zlen(a: ZVal) -> (r: ZVal)
    ensures
        r@ == (match a@ {
            ZValV::Str(s) => ZValV::Int(s.len() as i64),
            _ => ZValV::Nil,
        }),
{
    match &a {
        ZVal::Str(s) => {
            let n = chars_of(s.as_str()).len();
            ZVal::Int(n as i64)
        },
        _ => ZVal::Nil,
    }
}

/// To upper case.
pub fn zupper(a: ZVal) -> (r: ZVal)
    ensures
        r@ == ZValV::Str(unicode_uppercase(text_of(a@))),
{
    let t = a.to_rust_string();
    ZVal::Str(to_uppercase(t.as_str()))
}

/// To lower case.
pub fn zlower(a: ZVal) -> (r: ZVal)
    ensures
        r@ == ZValV::Str(unicode_lowercase(text_of(a@))),
{
    let t = a.to_rust_string();
    ZVal::Str(to_lowercase(t.as_str()))
}

/// Without leading and trailing white space.
pub fn ztrim(a: ZVal) -> (r: ZVal)
    ensures
        r@ == ZValV::Str(trim_start_spec(trim_end_spec(text_of(a@)))),
{
    let t = a.to_rust_string();
    let end = crate::codegen::emit::trim_end(t.as_str());
    let chars = chars_of(end.as_str());
    let mut k: usize = 0;
    proof {
        assert(chars@.subrange(0, chars@.len() as int) =~= chars@);
    }
    while k < chars.len() && is_whitespace(chars[k])
        invariant
            k <= chars@.len(),
            trim_start_spec(chars@) == trim_start_spec(chars@.subrange(k as int, chars@.len() as int)),
        decreases chars@.len() - k,
    {
        proof {
            assert(chars@.subrange(k as int, chars@.len() as int).drop_first() =~= chars@.subrange(
                k + 1,
                chars@.len() as int,
            ));
        }
        k = k + 1;
    }
    ZVal::Str(string_of_range(&chars, k, chars.len()))
}

/// The first index at or after `from` where `p` occurs in `s`.
fn find_from(s: &Vec<char>, p: &Vec<char>, from: usize) -> (r: Option<usize>)
    requires
        from <= s@.len(),
    ensures
        match r {
            Some(i) => first_match(s@, p@, from as int) == Some(i as int),
            None => first_match(s@, p@, from as int) is None,
        },
{
    let n = s.len();
    let m = p.len();
    if m > n {
        return None;
    }
    let mut i = from;
    while i <= n - m
        invariant
            from <= i,
            m <= n,
            n == s@.len(),
            m == p@.len(),
            first_match(s@, p@, from as int) == first_match(s@, p@, i as int),
        decreases n - m + 1 - i,
    {
        let mut j: usize = 0;
        while j < m && s[i + j] == p[j]
            invariant
                j <= m,
                i + m <= n,
                n == s@.len(),
                m == p@.len(),
                forall|t: int| 0 <= t < j ==> s@[i + t] == p@[t],
            decreases m - j,
        {
            j = j + 1;
        }
        if j == m {
            proof {
                assert(s@.subrange(i as int, i + m) =~= p@);
            }
            return Some(i);
        }
        proof {
            assert(s@.subrange(i as int, i + m)[j as int] != p@[j as int]);
        }
        i = i + 1;
    }
    None
}

/// Whether `b`'s text occurs in `a`'s.
pub fn zcontains(a: ZVal, b: ZVal) -> (r: ZVal)
    ensures
        r@ == ZValV::Bool(first_match(text_of(a@), text_of(b@), 0) is Some),
{
    let s = chars_of(a.to_rust_string().as_str());
    let p = chars_of(b.to_rust_string().as_str());
    ZVal::Bool(find_from(&s, &p, 0).is_some())
}

/// Whether `a`'s text starts with `b`'s.
pub fn zstartswith(a: ZVal, b: ZVal) -> (r: ZVal)
    ensures
        r@ == ZValV::Bool(occurs_at(text_of(a@), text_of(b@), 0)),
{
    let s = chars_of(a.to_rust_string().as_str());
    let p = chars_of(b.to_rust_string().as_str());
    if p.len() > s.len() {
        return ZVal::Bool(false);
    }
    let mut j: usize = 0;
    while j < p.len() && s[j] == p[j]
        invariant
            j <= p@.len(),
            p@.len() <= s@.len(),
            forall|t: int| 0 <= t < j ==> s@[t] == p@[t],
        decreases p@.len() - j,
    {
        j = j + 1;
    }
    proof {
        if j == p@.len() {
            assert(s@.subrange(0, p@.len() as int) =~= p@);
        } else {
            assert(s@.subrange(0, p@.len() as int)[j as int] != p@[j as int]);
        }
    }
    ZVal::Bool(j == p.len())
}

/// Whether `a`'s text ends with `b`'s.
pub fn zendswith(a: ZVal, b: ZVal) -> (r: ZVal)
    ensures
        r@ == ZValV::Bool(occurs_at(text_of(a@), text_of(b@), text_of(a@).len() - text_of(b@).len())),
{
    let s = chars_of(a.to_rust_string().as_str());
    let p = chars_of(b.to_rust_string().as_str());
    if p.len() > s.len() {
        return ZVal::Bool(false);
    }
    let off = s.len() - p.len();
    let mut j: usize = 0;
    while j < p.len() && s[off + j] == p[j]
        invariant
            j <= p@.len(),
            off + p@.len() == s@.len(),
            s@.len() == s.len(),
            forall|t: int| 0 <= t < j ==> s@[off + t] == p@[t],
        decreases p@.len() - j,
    {
        j = j + 1;
    }
    proof {
        if j == p@.len() {
            assert(s@.subrange(off as int, off + p@.len()) =~= p@);
        } else {
            assert(s@.subrange(off as int, off + p@.len())[j as int] != p@[j as int]);
        }
    }
    ZVal::Bool(j == p.len())
}

/// Whether the text is empty.
pub fn zis_empty(a: ZVal) -> (r: ZVal)
    ensures
        r@ == ZValV::Bool(text_of(a@).len() == 0),
{
    let t = a.to_rust_string();
    ZVal::Bool(t.as_str().is_empty())
}

/// The `i`-th character (NULL when the index is out of range on either
/// side).
pub fn zchar_at(a: ZVal, i: ZVal) -> (r: ZVal)
    ensures
        r@ == (match (a@, i@) {
            (ZValV::Str(s), ZValV::Int(idx)) => if 0 <= idx < s.len() {
                ZValV::Str(seq![s[idx as int]])
            } else {
                ZValV::Nil
            },
            _ => ZValV::Nil,
        }),
{
    match (&a, i.as_int()) {
        (ZVal::Str(s), Some(idx)) => {
            let chars = chars_of(s.as_str());
            if idx < 0 {
                return ZVal::Nil;
            }
            if (idx as u64) < (chars.len() as u64) {
                let k = idx as usize;
                let mut out = String::new();
                push_char(&mut out, chars[k]);
                proof {
                    assert(out@ =~= seq![chars@[k as int]]);
                }
                ZVal::Str(out)
            } else {
                ZVal::Nil
            }
        },
        _ => ZVal::Nil,
    }
}

/// The substring of `len` characters from `start` (bounds-safe): negative
/// numbers count as 0, the end is cut at the text's end, a start past it
/// gives NULL.
pub fn zsubstr(a: ZVal, start: ZVal, len: ZVal) -> (r: ZVal)
    ensures
        r@ == (match (a@, start@, len@) {
            (ZValV::Str(s), ZValV::Int(st), ZValV::Int(l)) => {
                let b = if st < 0 {
                    0
                } else {
                    st as usize as int
                };
                let n = if l < 0 {
                    0
                } else {
                    l as usize as int
                };
                let e = if b + n > usize::MAX {
                    usize::MAX as int
                } else {
                    b + n
                };
                let e2 = if e > s.len() {
                    s.len() as int
                } else {
                    e
                };
                if b > s.len() {
                    ZValV::Nil
                } else {
                    ZValV::Str(s.subrange(b, e2))
                }
            },
            _ => ZValV::Nil,
        }),
{
    match (&a, start.as_int(), len.as_int()) {
        (ZVal::Str(s), Some(st), Some(l)) => {
            let chars = chars_of(s.as_str());
            let b: usize = if st < 0 {
                0
            } else {
                st as usize
            };
            let n: usize = if l < 0 {
                0
            } else {
                l as usize
            };
            let e = b.saturating_add(n);
            let e2 = if e > chars.len() {
                chars.len()
            } else {
                e
            };
            if b > chars.len() {
                return ZVal::Nil;
            }
            ZVal::Str(string_of_range(&chars, b, e2))
        },
        _ => ZVal::Nil,
    }
}

/// Every occurrence of `from`'s text in `a`'s replaced by `to`'s.
pub fn zreplace(a: ZVal, from: ZVal, to: ZVal) -> (r: ZVal)
    ensures
        r@ == ZValV::Str(replace_spec(text_of(a@), text_of(from@), text_of(to@))),
{
    let s = chars_of(a.to_rust_string().as_str());
    let p = chars_of(from.to_rust_string().as_str());
    let rt = to.to_rust_string();
    let ghost r = rt@;
    let n = s.len();
    let mut out = String::new();
    let mut i: usize = 0;
    if p.len() == 0 {
        while i < n
            invariant
                i <= n,
                n == s@.len(),
                r == rt@,
                out@ + replace_empty(s@, r, i as int) == replace_empty(s@, r, 0),
            decreases n - i,
        {
            let ghost before = out@;
            push_str(&mut out, rt.as_str());
            push_char(&mut out, s[i]);
            proof {
                assert(before + replace_empty(s@, r, i as int) =~= out@ + replace_empty(
                    s@,
                    r,
                    i + 1,
                ));
            }
            i = i + 1;
        }
        push_str(&mut out, rt.as_str());
        return ZVal::Str(out);
    }
    proof {
        assert(out@ + replace_from(s@, p@, r, 0) =~= replace_from(s@, p@, r, 0));
    }
    while i < n
        invariant
            i <= n,
            n == s@.len(),
            p@.len() > 0,
            r == rt@,
            out@ + replace_from(s@, p@, r, i as int) == replace_from(s@, p@, r, 0),
        decreases n - i,
    {
        let ghost before = out@;
        let hit = match find_from(&s, &p, i) {
            Some(k) => k == i,
            None => false,
        };
        proof {
            lemma_first_match(s@, p@, i as int);
            if hit {
                assert(occurs_at(s@, p@, i as int));
            } else if occurs_at(s@, p@, i as int) {
                assert(first_match(s@, p@, i as int) == Some(i as int));
            }
        }
        if hit {
            push_str(&mut out, rt.as_str());
            proof {
                assert(before + replace_from(s@, p@, r, i as int) =~= out@ + replace_from(
                    s@,
                    p@,
                    r,
                    i + p@.len(),
                ));
            }
            i = i + p.len();
        } else {
            push_char(&mut out, s[i]);
            proof {
                assert(before + replace_from(s@, p@, r, i as int) =~= out@ + replace_from(
                    s@,
                    p@,
                    r,
                    i + 1,
                ));
            }
            i = i + 1;
        }
    }
    proof {
        assert(out@ + Seq::<char>::empty() =~= out@);
    }
    ZVal::Str(out)
}

/// `a`'s text repeated `n` times (empty for `n <= 0`; NULL unless `a` is
/// a string and `n` an integer).
pub fn zrepeat(a: ZVal, n: ZVal) -> (r: ZVal)
    requires
        a@ matches ZValV::Str(s) ==> (n@ matches ZValV::Int(k) ==> k > 0 ==> crate::text::byte_len(s)
            * (k as usize) <= usize::MAX),
    ensures
        r@ == (match (a@, n@) {
            (ZValV::Str(s), ZValV::Int(k)) => ZValV::Str(repeated(s, if k > 0 {
                k as usize as nat
            } else {
                0
            })),
            _ => ZValV::Nil,
        }),
{
    match (&a, n.as_int()) {
        (ZVal::Str(s), Some(k)) => {
            let times: usize = if k > 0 {
                k as usize
            } else {
                0
            };
            let mut out = String::new();
            let mut c: usize = 0;
            while c < times
                invariant
                    c <= times,
                    out@ == repeated(s@, c as nat),
                decreases times - c,
            {
                push_str(&mut out, s.as_str());
                c = c + 1;
            }
            ZVal::Str(out)
        },
        _ => ZVal::Nil,
    }
}

/// `s` repeated `n` times.
pub open spec fn repeated(s: Seq<char>, n: nat) -> Seq<char>
    decreases n,
{
    if n == 0 {
        Seq::empty()
    } else {
        repeated(s, (n - 1) as nat) + s
    }
}

/// The text reversed (by characters).
pub fn zreverse(a: ZVal) -> (r: ZVal)
    ensures
        r@ == ZValV::Str(reversed(text_of(a@))),
{
    let s = chars_of(a.to_rust_string().as_str());
    let mut out = String::new();
    let mut k = s.len();
    while k > 0
        invariant
            k <= s@.len(),
            out@ == reversed(s@).subrange(0, s@.len() - k),
        decreases k,
    {
        push_char(&mut out, s[k - 1]);
        proof {
            assert(out@ =~= reversed(s@).subrange(0, s@.len() - k + 1));
        }
        k = k - 1;
    }
    proof {
        assert(reversed(s@).subrange(0, s@.len() as int) =~= reversed(s@));
    }
    ZVal::Str(out)
}

/// The character index of the first occurrence of `b` in `a` (-1 when
/// there is none; NULL unless both are strings).
pub fn zindex_of(a: ZVal, b: ZVal) -> (r: ZVal)
    ensures
        r@ == (match (a@, b@) {
            (ZValV::Str(s), ZValV::Str(sub)) => match first_match(s, sub, 0) {
                Some(i) => ZValV::Int(i as i64),
                None => ZValV::Int(-1i64),
            },
            _ => ZValV::Nil,
        }),
{
    match (&a, &b) {
        (ZVal::Str(s), ZVal::Str(sub)) => {
            let sc = chars_of(s.as_str());
            let pc = chars_of(sub.as_str());
            match find_from(&sc, &pc, 0) {
                Some(i) => ZVal::Int(i as i64),
                None => ZVal::Int(-1),
            }
        },
        _ => ZVal::Nil,
    }
}

/// The number of non-overlapping occurrences of `b`'s text in `a`'s.
pub fn zcount(a: ZVal, b: ZVal) -> (r: ZVal)
    requires
        text_of(a@).len() < usize::MAX,
    ensures
        r@ == ZValV::Int(count_from(text_of(a@), text_of(b@), 0) as i64),
{
    let s = chars_of(a.to_rust_string().as_str());
    let p = chars_of(b.to_rust_string().as_str());
    let n = s.len();
    let m = p.len();
    if m > n {
        return ZVal::Int(0);
    }
    if m == 0 {
        let all: usize = n + 1;
        return ZVal::Int(all as i64);
    }
    let mut count: usize = 0;
    let mut i: usize = 0;
    while i <= n - m
        invariant
            m <= n,
            i <= n,
            m > 0,
            n == s@.len(),
            m == p@.len(),
            count <= i,
            count + count_from(s@, p@, i as int) == count_from(s@, p@, 0),
        decreases n - i,
    {
        let hit = match find_from(&s, &p, i) {
            Some(k) => k == i,
            None => false,
        };
        proof {
            lemma_first_match(s@, p@, i as int);
            if !hit && occurs_at(s@, p@, i as int) {
                assert(first_match(s@, p@, i as int) == Some(i as int));
            }
        }
        if hit {
            count = count + 1;
            i = i + m;
        } else {
            i = i + 1;
        }
    }
    ZVal::Int(count as i64)
}

/// Replace `{}` placeholders with the string form of each argument, in
/// order; placeholders beyond the arguments stay `{}`.
pub open spec fn formatted(f: Seq<char>, i: int, args: Seq<ZValV>, k: int) -> Seq<char>
    decreases f.len() - i,
{
    if i < 0 || i >= f.len() {
        Seq::empty()
    } else if i + 1 < f.len() && f[i] == '{' && f[i + 1] == '}' {
        (if 0 <= k < args.len() {
            text_of(args[k])
        } else {
            "{}"@
        }) + formatted(f, i + 2, args, k + 1)
    } else {
        seq![f[i]] + formatted(f, i + 1, args, k)
    }
}

/// Replace `{}` placeholders with the string form of each argument.
pub fn zero_format(fmt: &str, args: &[ZVal]) -> (out: String)
    ensures
        out@ == formatted(fmt@, 0, Seq::new(args@.len(), |j: int| args@[j]@), 0),
{
    let ghost av = Seq::new(args@.len(), |j: int| args@[j]@);
    let f = chars_of(fmt);
    let n = f.len();
    let mut out = String::new();
    let mut i: usize = 0;
    let mut k: usize = 0;
    while i < n
        invariant
            i <= n,
            n == f@.len(),
            f@ == fmt@,
            k <= i,
            av == Seq::new(args@.len(), |j: int| args@[j]@),
            out@ + formatted(f@, i as int, av, k as int) == formatted(f@, 0, av, 0),
        decreases n - i,
    {
        let ghost before = out@;
        if i + 1 < n && f[i] == '{' && f[i + 1] == '}' {
            if k < args.len() {
                let t = args[k].to_rust_string();
                push_str(&mut out, t.as_str());
            } else {
                proof {
                    reveal_strlit("{}");
                }
                push_str(&mut out, "{}");
            }
            proof {
                assert(before + formatted(f@, i as int, av, k as int) =~= out@ + formatted(
                    f@,
                    i + 2,
                    av,
                    k + 1,
                ));
            }
            i = i + 2;
            k = k + 1;
        } else {
            push_char(&mut out, f[i]);
            proof {
                assert(before + formatted(f@, i as int, av, k as int) =~= out@ + formatted(
                    f@,
                    i + 1,
                    av,
                    k as int,
                ));
            }
            i = i + 1;
        }
    }
    proof {
        assert(out@ + Seq::<char>::empty() =~= out@);
    }
    out
}

/// Stream kinds: the terminal (shell) or a file.
#[derive(Clone, Copy, PartialEq, Eq, Debug, Structural)]
pub enum ZStreamKind {
    Shell,
    File,
}

/// A stream to switch to: its kind and name.
pub struct ZStreamTarget {
    pub kind: ZStreamKind,
    pub name: String,
}

/// The IO stream: what it writes and which stream it switches to.
pub struct ZStreamIO;

impl ZStreamIO {
    /// The text `print` writes for `fmt` and `args` (the `{}`
    /// placeholders filled in).
    pub fn write(fmt: &str, args: &[ZVal]) -> (text: String)
        ensures
            text@ == formatted(fmt@, 0, Seq::new(args@.len(), |j: int| args@[j]@), 0),
    {
        zero_format(fmt, args)
    }

    /// The stream `set_stream(kind, name)` switches to: `"file"` (named
    /// `name`, `out.txt` by default) or else the shell.
    pub fn set(kind: &str, name: Option<&str>) -> (t: ZStreamTarget)
        ensures
            kind@ == "file"@ ==> t.kind == ZStreamKind::File && t.name@ == (match name {
                Some(n) => n@,
                None => "out.txt"@,
            }),
            kind@ != "file"@ ==> t.kind == ZStreamKind::Shell && t.name@ == "shell"@,
    {
        if str_eq(kind, "file") {
            let path = match name {
                Some(n) => n,
                None => "out.txt",
            };
            ZStreamTarget { kind: ZStreamKind::File, name: String::from_str(path) }
        } else {
            ZStreamTarget { kind: ZStreamKind::Shell, name: String::from_str("shell") }
        }
    }
}

} // verus!
