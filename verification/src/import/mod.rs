//! Header import resolution for the Zero language.
//!
//! `import name` resolves in this order:
//!   1. standard library headers (dependency chain `io -> stream_io ->
//!      stream`, and the standalone `lowlevel_math` / `lowlevel_strings`);
//!      all are inlined as raw Rust
//!   2. builtin alias table                  -> emits a Rust `use` statement
//!   3. a file next to the importing source:
//!        - `<name>.zh` / `<name>.zero` -> recursively compiled Zero header
//!        - `<name>.rs`                 -> raw Rust, inlined verbatim
//! Files are included once even when reachable through several imports.
//!
//! Finding and reading files is the caller's part: `import_step` decides
//! what an import needs, and the caller hands file contents back through
//! `add_rust_header` / `add_zero_header`.

pub mod paths;
pub mod stdlib;

use vstd::prelude::*;
use vstd::string::StringSliceAdditionalSpecFns;
use vstd::utf8::{decode_utf8, encode_utf8, is_char_boundary, is_continuation_byte, valid_utf8};

use crate::ast::{
    functions_of, item_view, Function, FunctionV, Import, Item, ItemV, ParamV, Program, ProgramV,
    ZType,
};
use crate::diag::{CompileError, Span};
use crate::parser::{err_is, parse};
use crate::parser::spec::parse_spec;
use crate::scope::callable::{io_function_names, io_functions, FnInfoV};
use crate::scope::{FnInfo, FnTable};
use crate::text::{
    byte_len, is_alphanumeric, is_whitespace, push_str, str_eq, to_lowercase, char_alphanumeric,
    unicode_lowercase, unicode_whitespace,
};
use stdlib::{builtin_use, builtin_use_spec, std_deps, std_deps_spec, std_source, std_source_spec};

verus! {

broadcast use vstd::seq_lib::group_seq_properties;

/// A byte that, read as a Latin-1 character, is white space.
pub open spec fn latin1_space(b: u8) -> bool {
    unicode_whitespace(b as char)
}

/// A byte that, read as a Latin-1 character, may be part of a name.
pub open spec fn latin1_word(b: u8) -> bool {
    char_alphanumeric(b as char) || b == 95u8
}

/// End of the run of white-space bytes from `j`.
pub open spec fn space_end(b: Seq<u8>, j: int) -> int
    decreases b.len() - j,
{
    if 0 <= j < b.len() && latin1_space(b[j]) {
        space_end(b, j + 1)
    } else {
        j
    }
}

/// End of the run of name bytes from `j`.
pub open spec fn word_end(b: Seq<u8>, j: int) -> int
    decreases b.len() - j,
{
    if 0 <= j < b.len() && latin1_word(b[j]) {
        word_end(b, j + 1)
    } else {
        j
    }
}

/// The first byte at or after `j` that does not continue a character.
pub open spec fn char_start_from(b: Seq<u8>, j: int) -> int
    decreases b.len() - j,
{
    if 0 <= j < b.len() && is_continuation_byte(b[j]) {
        char_start_from(b, j + 1)
    } else {
        j
    }
}

/// `k` is the end of `b` or the start of a character.
pub open spec fn on_boundary(b: Seq<u8>, k: int) -> bool {
    k >= b.len() || !is_continuation_byte(b[k])
}

/// Whether `fn` followed by a space or tab starts at byte `i`.
pub open spec fn fn_keyword_at(b: Seq<u8>, i: int) -> bool {
    &&& 0 <= i
    &&& i + 2 < b.len()
    &&& b[i] == 102u8
    &&& b[i + 1] == 110u8
    &&& (b[i + 2] == 32u8 || b[i + 2] == 9u8)
}

pub proof fn lemma_run_ends(b: Seq<u8>, j: int)
    requires
        0 <= j <= b.len(),
    ensures
        j <= space_end(b, j) <= b.len(),
        j <= word_end(b, j) <= b.len(),
        j <= char_start_from(b, j) <= b.len(),
    decreases b.len() - j,
{
    if j < b.len() {
        lemma_run_ends(b, j + 1);
    }
}

/// The function names that a raw Rust header declares, by scanning for
/// `fn <name>` from byte `i`. Strings and comments are not skipped: false
/// positives only widen the set of callable names. A name whose bytes do
/// not form whole characters is skipped.
pub open spec fn rust_fn_names(b: Seq<u8>, i: int) -> Seq<Seq<char>>
    decreases b.len() - i,
{
    if i < 0 || i >= b.len() {
        Seq::empty()
    } else if fn_keyword_at(b, i) {
        let j1 = space_end(b, i + 2);
        let j2 = word_end(b, j1);
        proof {
            lemma_run_ends(b, i + 2);
            lemma_run_ends(b, j1);
        }
        if j2 > j1 && on_boundary(b, j1) && on_boundary(b, j2) {
            seq![decode_utf8(b.subrange(j1, j2))] + rust_fn_names(b, j2)
        } else {
            rust_fn_names(b, j2)
        }
    } else {
        proof {
            lemma_run_ends(b, i + 1);
        }
        rust_fn_names(b, char_start_from(b, i + 1))
    }
}

/// What an unchecked raw-Rust callable looks like in the function table.
pub open spec fn unchecked_fn() -> FnInfoV {
    FnInfoV { arity: None, params: Seq::empty() }
}

/// The table with each of `names` added (as an unchecked callable) unless
/// present.
pub open spec fn with_unchecked(m: Map<Seq<char>, FnInfoV>, names: Seq<Seq<char>>) -> Map<
    Seq<char>,
    FnInfoV,
>
    decreases names.len(),
{
    if names.len() == 0 {
        m
    } else {
        let m1 = if m.contains_key(names[0]) {
            m
        } else {
            m.insert(names[0], unchecked_fn())
        };
        with_unchecked(m1, names.subrange(1, names.len() as int))
    }
}

/// An unchecked callable's entry.
fn unchecked_info() -> (i: FnInfo)
    ensures
        i@ == unchecked_fn(),
{
    FnInfo { arity: None, params: Vec::new() }
}

/// Register the functions a raw Rust header declares.
pub fn register_rust_fns(functions: &mut FnTable, content: &str)
    requires
        old(functions).wf(),
    ensures
        final(functions).wf(),
        final(functions)@ == with_unchecked(old(functions)@, rust_fn_names(content.spec_bytes(), 0)),
{
    let bytes = content.as_bytes();
    let ghost b = content.spec_bytes();
    let n = bytes.len();
    proof {
        vstd::utf8::encode_utf8_valid_utf8(content@);
        assert(b.len() == n);
    }
    let mut i: usize = 0;
    let ghost done: Seq<Seq<char>> = Seq::empty();
    while i < n
        invariant
            bytes@ == b,
            n == b.len(),
            valid_utf8(b),
            b == encode_utf8(content@),
            i <= n,
            functions.wf(),
            rust_fn_names(b, 0) == done + rust_fn_names(b, i as int),
            functions@ == with_unchecked(old(functions)@, done),
        decreases n - i,
    {
        if n > 2 && i < n - 2 && bytes[i] == 102u8 && bytes[i + 1] == 110u8 && (bytes[i + 2] == 32u8
            || bytes[i + 2] == 9u8) {
            let mut j = i + 2;
            proof {
                lemma_run_ends(b, i + 2);
            }
            while j < n && is_whitespace(latin1(bytes[j]))
                invariant
                    i + 2 <= j <= n,
                    n == b.len(),
                    bytes@ == b,
                    space_end(b, i + 2) == space_end(b, j as int),
                decreases n - j,
            {
                j = j + 1;
            }
            let start = j;
            proof {
                lemma_run_ends(b, start as int);
            }
            while j < n && (is_alphanumeric(latin1(bytes[j])) || bytes[j] == 95u8)
                invariant
                    start <= j <= n,
                    n == b.len(),
                    bytes@ == b,
                    word_end(b, start as int) == word_end(b, j as int),
                decreases n - j,
            {
                j = j + 1;
            }
            let whole = j > start && (start == n || (bytes[start] & 0xC0u8) != 0x80u8) && (j == n
                || (bytes[j] & 0xC0u8) != 0x80u8);
            proof {
                if start < n {
                    let byte = bytes@[start as int];
                    assert((byte & 0xC0u8) != 0x80u8 <==> !(0x80u8 <= byte <= 0xbfu8)) by (bit_vector);
                }
                if j < n {
                    let byte = bytes@[j as int];
                    assert((byte & 0xC0u8) != 0x80u8 <==> !(0x80u8 <= byte <= 0xbfu8)) by (bit_vector);
                }
            }
            if whole {
                proof {
                    vstd::utf8::is_char_boundary_start_end_of_seq(b);
                    if start < n {
                        vstd::utf8::is_char_boundary_iff_not_is_continuation_byte(b, start as int);
                    }
                    if j < n {
                        vstd::utf8::is_char_boundary_iff_not_is_continuation_byte(b, j as int);
                    }
                }
                let name = slice_name(content, start, j);
                let ghost key = name@;
                proof {
                    assert(rust_fn_names(b, i as int) == seq![key] + rust_fn_names(b, j as int));
                    lemma_with_unchecked_push(old(functions)@, done, key);
                    assert(done.push(key) + rust_fn_names(b, j as int) =~= done + (seq![key]
                        + rust_fn_names(b, j as int)));
                    done = done.push(key);
                }
                functions.insert_if_absent(name, unchecked_info());
            }
            i = j;
        } else {
            let ghost i0 = i as int;
            i = i + 1;
            proof {
                lemma_run_ends(b, i as int);
            }
            while i < n && (bytes[i] & 0xC0u8) == 0x80u8
                invariant
                    i0 < i <= n,
                    n == b.len(),
                    bytes@ == b,
                    char_start_from(b, i0 + 1) == char_start_from(b, i as int),
                decreases n - i,
            {
                let byte = bytes[i];
                proof {
                    assert((byte & 0xC0u8) == 0x80u8 ==> 0x80u8 <= byte <= 0xbfu8) by (bit_vector);
                }
                i = i + 1;
            }
            proof {
                if i < n {
                    let byte = bytes@[i as int];
                    assert(0x80u8 <= byte <= 0xbfu8 ==> (byte & 0xC0u8) == 0x80u8) by (bit_vector);
                }
            }
        }
    }
    proof {
        assert(done + Seq::<Seq<char>>::empty() =~= done);
    }
}

/// A byte read as a Latin-1 character.
fn latin1(b: u8) -> (c: char)
    ensures
        c == b as char,
{
    b as char
}

/// The text between two character boundaries of `content`.
fn slice_name(content: &str, start: usize, end: usize) -> (name: String)
    requires
        start <= end <= content.spec_bytes().len(),
        is_char_boundary(content.spec_bytes(), start as int),
        is_char_boundary(content.spec_bytes(), end as int),
    ensures
        name@ == decode_utf8(content.spec_bytes().subrange(start as int, end as int)),
{
    let ghost b = content.spec_bytes();
    proof {
        vstd::utf8::encode_utf8_valid_utf8(content@);
    }
    let (_, rest) = content.split_at(start);
    proof {
        vstd::utf8::valid_utf8_split(b, start as int);
        lemma_boundary_shift(b, start as int, end as int);
    }
    let (piece, _) = rest.split_at(end - start);
    proof {
        assert(piece.spec_bytes() =~= b.subrange(start as int, end as int));
        vstd::utf8::encode_utf8_decode_utf8(piece@);
    }
    piece.to_owned()
}

/// A boundary of `b` at or after `start` is one of `b[start..]`.
proof fn lemma_boundary_shift(b: Seq<u8>, start: int, end: int)
    requires
        valid_utf8(b),
        0 <= start <= end <= b.len(),
        is_char_boundary(b, start),
        is_char_boundary(b, end),
    ensures
        is_char_boundary(b.subrange(start, b.len() as int), end - start),
{
    let tail = b.subrange(start, b.len() as int);
    vstd::utf8::valid_utf8_split(b, start);
    vstd::utf8::is_char_boundary_start_end_of_seq(tail);
    if end < b.len() {
        vstd::utf8::is_char_boundary_iff_not_is_continuation_byte(b, end);
        vstd::utf8::is_char_boundary_iff_not_is_continuation_byte(tail, end - start);
    }
}

/// Adding one more name to those already added.
proof fn lemma_with_unchecked_push(m: Map<Seq<char>, FnInfoV>, names: Seq<Seq<char>>, n: Seq<char>)
    ensures
        with_unchecked(m, names.push(n)) == (if with_unchecked(m, names).contains_key(n) {
            with_unchecked(m, names)
        } else {
            with_unchecked(m, names).insert(n, unchecked_fn())
        }),
    decreases names.len(),
{
    if names.len() == 0 {
        assert(names.push(n).subrange(1, 1) =~= Seq::<Seq<char>>::empty());
        let m1 = if m.contains_key(n) {
            m
        } else {
            m.insert(n, unchecked_fn())
        };
        assert(with_unchecked(m1, Seq::<Seq<char>>::empty()) == m1);
        assert(with_unchecked(m, names) == m);
    } else {
        let m1 = if m.contains_key(names[0]) {
            m
        } else {
            m.insert(names[0], unchecked_fn())
        };
        lemma_with_unchecked_push(m1, names.subrange(1, names.len() as int), n);
        assert(names.push(n).subrange(1, names.len() + 1int) =~= names.subrange(1, names.len() as int).push(n));
    }
}

/// The function table with `name` registered for a Zero function of
/// `params` parameters; `None` when the name is taken.
pub open spec fn with_function(m: Map<Seq<char>, FnInfoV>, f: FunctionV) -> Option<Map<Seq<char>, FnInfoV>> {
    if m.contains_key(f.name) {
        None
    } else {
        Some(m.insert(f.name, FnInfoV { arity: Some(f.params.len() as usize), params: param_types(f.params) }))
    }
}

pub open spec fn param_types(ps: Seq<ParamV>) -> Seq<Option<ZType>> {
    Seq::new(ps.len(), |i: int| ps[i].ty)
}

/// The table after registering `fns` in order (skipping `main` when
/// `skip_main`) up to the first duplicate name, which is not registered:
/// what the table holds whether or not registration fails.
pub open spec fn register_upto(m: Map<Seq<char>, FnInfoV>, fns: Seq<FunctionV>, skip_main: bool) -> Map<
    Seq<char>,
    FnInfoV,
>
    decreases fns.len(),
{
    if fns.len() == 0 {
        m
    } else {
        let f = fns[0];
        let rest = fns.subrange(1, fns.len() as int);
        if skip_main && f.name == "main"@ {
            register_upto(m, rest, skip_main)
        } else {
            match with_function(m, f) {
                None => m,
                Some(m1) => register_upto(m1, rest, skip_main),
            }
        }
    }
}

/// Register `fns` in order (skipping `main` when `skip_main`); the first
/// duplicate name is an error at that function's span.
pub open spec fn register_all(m: Map<Seq<char>, FnInfoV>, fns: Seq<FunctionV>, skip_main: bool) -> Result<
    Map<Seq<char>, FnInfoV>,
    (Seq<char>, Span),
>
    decreases fns.len(),
{
    if fns.len() == 0 {
        Ok(m)
    } else {
        let f = fns[0];
        let rest = fns.subrange(1, fns.len() as int);
        if skip_main && f.name == "main"@ {
            register_all(m, rest, skip_main)
        } else {
            match with_function(m, f) {
                None => Err(("duplicate function '"@ + f.name + "'"@, f.span)),
                Some(m1) => register_all(m1, rest, skip_main),
            }
        }
    }
}

/// What an import needs from the caller.
#[derive(Debug, PartialEq, Eq, Structural)]
pub enum ImportStep {
    /// Handled here: the `control` syntax library, a standard header or a
    /// builtin alias.
    Done,
    /// A header file next to the importing source: the caller finds and
    /// reads it.
    File,
}

/// The kinds of header file.
#[derive(Debug, Clone, Copy, PartialEq, Eq, Structural)]
pub enum HeaderKind {
    /// Raw Rust, inlined verbatim.
    Rust,
    /// A Zero header, compiled recursively.
    Zero,
}

pub struct Loader {
    /// The directory the main source lives in.
    pub root_dir: String,
    /// True once `import io` has been seen: the IO API becomes available.
    pub io_imported: bool,
    /// Builtin aliases used (ordered, deduplicated).
    pub builtins: Vec<String>,
    /// Raw Rust headers, inlined in order: (display path, content).
    pub rust_headers: Vec<(String, String)>,
    /// Compiled Zero headers: (display path, program).
    pub zero_headers: Vec<(String, Program)>,
    /// Every callable function in main + headers (+ io).
    pub functions: FnTable,
    /// Header files already included (canonical paths).
    pub imported_files: Vec<String>,
    /// Standard headers already loaded.
    pub std_set: Vec<String>,
}

/// What loading the standard headers changes.
pub struct StdState {
    pub loaded: Seq<Seq<char>>,
    pub io: bool,
    pub fns: Map<Seq<char>, FnInfoV>,
    pub headers: Seq<(Seq<char>, Seq<char>)>,
}

/// The standard state with header `name` marked loaded, then (when
/// `deps` ran) its source added.
pub open spec fn std_finish(st: StdState, name: Seq<char>) -> StdState {
    let content = std_source_spec(name);
    let s1 = if name == "lowlevel_math"@ || name == "lowlevel_strings"@ {
        StdState { fns: with_unchecked(st.fns, rust_fn_names(encode_utf8(content), 0)), ..st }
    } else {
        st
    };
    StdState { headers: s1.headers.push(("std/"@ + name + ".rs"@, content)), ..s1 }
}

/// Load a standard header without dependencies, at most once.
pub open spec fn std_load_leaf(st: StdState, name: Seq<char>) -> StdState {
    if st.loaded.contains(name) {
        st
    } else {
        std_finish(StdState { loaded: st.loaded.push(name), ..st }, name)
    }
}

/// Load `stream_io` (after `stream`), at most once.
pub open spec fn std_load_stream_io(st: StdState) -> StdState {
    if st.loaded.contains("stream_io"@) {
        st
    } else {
        let s1 = StdState { loaded: st.loaded.push("stream_io"@), ..st };
        std_finish(std_load_leaf(s1, "stream"@), "stream_io"@)
    }
}

/// Load `io` (after `stream_io`), at most once; it makes the IO API
/// callable.
pub open spec fn std_load_io(st: StdState) -> StdState {
    if st.loaded.contains("io"@) {
        st
    } else {
        let s1 = StdState {
            loaded: st.loaded.push("io"@),
            io: true,
            fns: with_unchecked(st.fns, io_function_names()),
            ..st
        };
        std_finish(std_load_stream_io(s1), "io"@)
    }
}

/// Load a standard header and, first, its dependencies; each at most once.
pub open spec fn std_load(st: StdState, name: Seq<char>) -> StdState {
    if name == "io"@ {
        std_load_io(st)
    } else if name == "stream_io"@ {
        std_load_stream_io(st)
    } else {
        std_load_leaf(st, name)
    }
}

impl Loader {
    pub closed spec fn wf(&self) -> bool {
        self.functions.wf()
    }

    /// The loader's standard-header state.
    pub open spec fn std_state(&self) -> StdState {
        StdState {
            loaded: Seq::new(self.std_set@.len(), |i: int| self.std_set@[i]@),
            io: self.io_imported,
            fns: self.functions@,
            headers: Seq::new(
                self.rust_headers@.len(),
                |i: int| (self.rust_headers@[i].0@, self.rust_headers@[i].1@),
            ),
        }
    }

    pub open spec fn root(&self) -> Seq<char> {
        self.root_dir@
    }

    pub open spec fn io(&self) -> bool {
        self.io_imported
    }

    pub open spec fn fns(&self) -> Map<Seq<char>, FnInfoV> {
        self.functions@
    }

    pub open spec fn builtin_list(&self) -> Seq<Seq<char>> {
        Seq::new(self.builtins@.len(), |i: int| self.builtins@[i]@)
    }

    pub open spec fn rust_list(&self) -> Seq<(Seq<char>, Seq<char>)> {
        Seq::new(self.rust_headers@.len(), |i: int| (self.rust_headers@[i].0@, self.rust_headers@[i].1@))
    }

    pub open spec fn zero_list(&self) -> Seq<(Seq<char>, ProgramV)> {
        Seq::new(self.zero_headers@.len(), |i: int| (self.zero_headers@[i].0@, self.zero_headers@[i].1@))
    }

    pub open spec fn files(&self) -> Seq<Seq<char>> {
        Seq::new(self.imported_files@.len(), |i: int| self.imported_files@[i]@)
    }

    pub fn new(root_dir: &str) -> (l: Loader)
        ensures
            l.wf(),
            l.root() == root_dir@,
            !l.io(),
            l.builtin_list().len() == 0,
            l.rust_list().len() == 0,
            l.zero_list().len() == 0,
            l.fns() == Map::<Seq<char>, FnInfoV>::empty(),
            l.files().len() == 0,
            l.std_state().loaded.len() == 0,
    {
        Loader {
            root_dir: root_dir.to_owned(),
            io_imported: false,
            builtins: Vec::new(),
            rust_headers: Vec::new(),
            zero_headers: Vec::new(),
            functions: FnTable::new(),
            imported_files: Vec::new(),
            std_set: Vec::new(),
        }
    }

    /// The directory the main source lives in.
    pub fn root_dir(&self) -> (r: &str)
        ensures
            r@ == self.root(),
    {
        self.root_dir.as_str()
    }

    fn register_function(&mut self, f: &Function, file: &str) -> (r: Result<(), CompileError>)
        requires
            old(self).wf(),
        ensures
            final(self).wf(),
            final(self).io_imported == old(self).io_imported,
            final(self).builtins@ == old(self).builtins@,
            final(self).rust_headers@ == old(self).rust_headers@,
            final(self).zero_headers@ == old(self).zero_headers@,
            final(self).std_set@ == old(self).std_set@,
            final(self).imported_files@ == old(self).imported_files@,
            final(self).root_dir@ == old(self).root_dir@,
            match (with_function(old(self).functions@, f@), r) {
                (Some(m), Ok(())) => final(self).functions@ == m,
                (None, Err(e)) => err_is(e, ("duplicate function '"@ + f.name@ + "'"@, f.span), file@)
                    && final(self).functions@ == old(self).functions@,
                _ => false,
            },
    {
        if self.functions.contains(f.name.as_str()) {
            proof {
                reveal_strlit("duplicate function '");
                reveal_strlit("'");
            }
            let mut m = String::from_str("duplicate function '");
            push_str(&mut m, f.name.as_str());
            push_str(&mut m, "'");
            return Err(CompileError::at(m.as_str(), file, f.span));
        }
        let mut params: Vec<Option<ZType>> = Vec::new();
        let mut k: usize = 0;
        while k < f.params.len()
            invariant
                k <= f.params@.len(),
                params@.len() == k,
                forall|j: int| 0 <= j < k ==> #[trigger] params@[j] == f.params@[j].ty,
            decreases f.params@.len() - k,
        {
            params.push(f.params[k].ty);
            k = k + 1;
        }
        let info = FnInfo { arity: Some(f.params.len()), params };
        proof {
            assert(info@.params =~= param_types(f@.params));
        }
        self.functions.insert_new(f.name.clone(), info);
        Ok(())
    }

    /// Register the functions of `fns` (skipping `main` when `skip_main`).
    fn register_functions(&mut self, fns: &Vec<&Function>, file: &str, skip_main: bool) -> (r: Result<(), CompileError>)
        requires
            old(self).wf(),
        ensures
            final(self).wf(),
            final(self).io_imported == old(self).io_imported,
            final(self).builtins@ == old(self).builtins@,
            final(self).rust_headers@ == old(self).rust_headers@,
            final(self).zero_headers@ == old(self).zero_headers@,
            final(self).std_set@ == old(self).std_set@,
            final(self).imported_files@ == old(self).imported_files@,
            final(self).root_dir@ == old(self).root_dir@,
            match (register_all(old(self).functions@, Seq::new(fns@.len(), |i: int| (*fns@[i])@), skip_main), r) {
                (Ok(m), Ok(())) => final(self).functions@ == m,
                (Err(pe), Err(e)) => err_is(e, pe, file@),
                _ => false,
            },
            final(self).functions@ == register_upto(old(self).functions@, Seq::new(fns@.len(), |i: int| (*fns@[i])@), skip_main),
    {
        let ghost fv = Seq::new(fns@.len(), |i: int| (*fns@[i])@);
        let ghost m0 = self.functions@;
        proof {
            assert(fv.subrange(0, fv.len() as int) =~= fv);
        }
        let mut k: usize = 0;
        while k < fns.len()
            invariant
                k <= fns@.len(),
                fv == Seq::new(fns@.len(), |i: int| (*fns@[i])@),
                m0 == old(self).functions@,
                self.wf(),
                self.io_imported == old(self).io_imported,
                self.builtins@ == old(self).builtins@,
                self.rust_headers@ == old(self).rust_headers@,
                self.zero_headers@ == old(self).zero_headers@,
                self.std_set@ == old(self).std_set@,
                self.imported_files@ == old(self).imported_files@,
                self.root_dir@ == old(self).root_dir@,
                register_all(m0, fv, skip_main) == register_all(self.functions@, fv.subrange(k as int, fv.len() as int), skip_main),
                register_upto(m0, fv, skip_main) == register_upto(self.functions@, fv.subrange(k as int, fv.len() as int), skip_main),
            decreases fns@.len() - k,
        {
            proof {
                assert(fv.subrange(k as int, fv.len() as int).subrange(1, fv.len() - k) =~= fv.subrange(
                    k + 1,
                    fv.len() as int,
                ));
                reveal_strlit("main");
            }
            let f = fns[k];
            if !(skip_main && str_eq(f.name.as_str(), "main")) {
                match self.register_function(f, file) {
                    Ok(()) => {},
                    Err(e) => {
                        return Err(e);
                    },
                }
            }
            k = k + 1;
        }
        Ok(())
    }

    /// Register the functions of the main program (including `main`).
    pub fn register_main(&mut self, prog: &Program, file: &str) -> (r: Result<(), CompileError>)
        requires
            old(self).wf(),
        ensures
            final(self).wf(),
            final(self).io() == old(self).io(),
            final(self).builtin_list() == old(self).builtin_list(),
            final(self).rust_list() == old(self).rust_list(),
            final(self).zero_list() == old(self).zero_list(),
            final(self).std_state().loaded == old(self).std_state().loaded,
            final(self).files() == old(self).files(),
            final(self).root() == old(self).root(),
            match (register_all(old(self).fns(), program_functions(prog), false), r) {
                (Ok(m), Ok(())) => final(self).fns() == m,
                (Err(pe), Err(e)) => err_is(e, pe, file@),
                _ => false,
            },
            final(self).fns() == register_upto(old(self).fns(), program_functions(prog), false),
    {
        let fns = prog.functions();
        proof {
            assert(Seq::new(fns@.len(), |i: int| (*fns@[i])@) =~= program_functions(prog));
        }
        self.register_functions(&fns, file, false)
    }
}

impl Loader {
    /// Whether the standard header `name` is loaded.
    fn std_loaded(&self, name: &str) -> (r: bool)
        ensures
            r == self.std_state().loaded.contains(name@),
    {
        let ghost l = self.std_state().loaded;
        let mut k: usize = 0;
        while k < self.std_set.len()
            invariant
                k <= self.std_set@.len(),
                l == Seq::new(self.std_set@.len(), |i: int| self.std_set@[i]@),
                forall|j: int| 0 <= j < k ==> l[j] != name@,
            decreases self.std_set@.len() - k,
        {
            if str_eq(self.std_set[k].as_str(), name) {
                proof {
                    assert(l[k as int] == name@);
                }
                return true;
            }
            k = k + 1;
        }
        false
    }

    /// Mark the standard header `name` loaded.
    fn mark_std(&mut self, name: &str)
        ensures
            final(self).std_state() == (StdState { loaded: old(self).std_state().loaded.push(name@), ..old(self).std_state() }),
            final(self).functions == old(self).functions,
            final(self).builtins@ == old(self).builtins@,
            final(self).zero_headers@ == old(self).zero_headers@,
            final(self).imported_files@ == old(self).imported_files@,
            final(self).root_dir@ == old(self).root_dir@,
    {
        self.std_set.push(name.to_owned());
        proof {
            assert(self.std_state().loaded =~= old(self).std_state().loaded.push(name@));
        }
    }

    /// Register the IO API (arity checked specially by the analyzer).
    fn register_io(&mut self)
        requires
            old(self).wf(),
        ensures
            final(self).wf(),
            final(self).std_state() == (StdState {
                io: true,
                fns: with_unchecked(old(self).functions@, io_function_names()),
                ..old(self).std_state()
            }),
            final(self).builtins@ == old(self).builtins@,
            final(self).zero_headers@ == old(self).zero_headers@,
            final(self).imported_files@ == old(self).imported_files@,
            final(self).root_dir@ == old(self).root_dir@,
    {
        self.io_imported = true;
        let names = io_functions();
        let ghost ns = io_function_names();
        let mut k: usize = 0;
        proof {
            assert(ns.take(0) =~= Seq::<Seq<char>>::empty());
        }
        while k < names.len()
            invariant
                k <= names@.len(),
                names@.len() == ns.len(),
                ns == io_function_names(),
                forall|j: int| 0 <= j < ns.len() ==> #[trigger] names@[j]@ == ns[j],
                self.wf(),
                self.io_imported,
                self.functions@ == with_unchecked(old(self).functions@, ns.take(k as int)),
                self.std_set@ == old(self).std_set@,
                self.rust_headers@ == old(self).rust_headers@,
                self.builtins@ == old(self).builtins@,
                self.zero_headers@ == old(self).zero_headers@,
                self.imported_files@ == old(self).imported_files@,
                self.root_dir@ == old(self).root_dir@,
            decreases names@.len() - k,
        {
            proof {
                lemma_with_unchecked_push(old(self).functions@, ns.take(k as int), ns[k as int]);
                assert(ns.take(k + 1) =~= ns.take(k as int).push(ns[k as int]));
            }
            self.functions.insert_if_absent(names[k].to_owned(), unchecked_info());
            k = k + 1;
        }
        proof {
            assert(ns.take(ns.len() as int) =~= ns);
        }
    }

    /// Add a standard header's source (after its dependencies); the
    /// lowlevel headers expose callable names (`zadd`, `zlen`, ...).
    fn finish_std(&mut self, name: &str)
        requires
            old(self).wf(),
        ensures
            final(self).wf(),
            final(self).std_state() == std_finish(old(self).std_state(), name@),
            final(self).builtins@ == old(self).builtins@,
            final(self).zero_headers@ == old(self).zero_headers@,
            final(self).imported_files@ == old(self).imported_files@,
            final(self).root_dir@ == old(self).root_dir@,
    {
        proof {
            reveal_strlit("lowlevel_math");
            reveal_strlit("lowlevel_strings");
            reveal_strlit("std/");
            reveal_strlit(".rs");
        }
        let content = std_source(name);
        if str_eq(name, "lowlevel_math") || str_eq(name, "lowlevel_strings") {
            register_rust_fns(&mut self.functions, content);
        }
        let mut display = String::from_str("std/");
        push_str(&mut display, name);
        push_str(&mut display, ".rs");
        self.rust_headers.push((display, content.to_owned()));
        proof {
            assert(self.std_state().headers =~= old(self).std_state().headers.push(("std/"@ + name@ + ".rs"@, std_source_spec(name@))));
        }
    }

    fn load_leaf(&mut self, name: &str)
        requires
            old(self).wf(),
        ensures
            final(self).wf(),
            final(self).std_state() == std_load_leaf(old(self).std_state(), name@),
            final(self).builtins@ == old(self).builtins@,
            final(self).zero_headers@ == old(self).zero_headers@,
            final(self).imported_files@ == old(self).imported_files@,
            final(self).root_dir@ == old(self).root_dir@,
    {
        if self.std_loaded(name) {
            return;
        }
        self.mark_std(name);
        self.finish_std(name);
    }

    fn load_stream_io(&mut self)
        requires
            old(self).wf(),
        ensures
            final(self).wf(),
            final(self).std_state() == std_load_stream_io(old(self).std_state()),
            final(self).builtins@ == old(self).builtins@,
            final(self).zero_headers@ == old(self).zero_headers@,
            final(self).imported_files@ == old(self).imported_files@,
            final(self).root_dir@ == old(self).root_dir@,
    {
        if self.std_loaded("stream_io") {
            return;
        }
        self.mark_std("stream_io");
        self.load_leaf("stream");
        self.finish_std("stream_io");
    }

    fn load_io(&mut self)
        requires
            old(self).wf(),
        ensures
            final(self).wf(),
            final(self).std_state() == std_load_io(old(self).std_state()),
            final(self).builtins@ == old(self).builtins@,
            final(self).zero_headers@ == old(self).zero_headers@,
            final(self).imported_files@ == old(self).imported_files@,
            final(self).root_dir@ == old(self).root_dir@,
    {
        if self.std_loaded("io") {
            return;
        }
        self.mark_std("io");
        self.register_io();
        self.load_stream_io();
        self.finish_std("io");
    }

    /// Load a standard library header plus its dependency chain.
    pub fn load_std(&mut self, name: &str)
        requires
            old(self).wf(),
            std_deps_spec(name@) is Some,
        ensures
            final(self).wf(),
            final(self).std_state() == std_load(old(self).std_state(), name@),
            final(self).builtin_list() == old(self).builtin_list(),
            final(self).zero_list() == old(self).zero_list(),
            final(self).files() == old(self).files(),
            final(self).root() == old(self).root(),
    {
        if str_eq(name, "io") {
            self.load_io();
        } else if str_eq(name, "stream_io") {
            self.load_stream_io();
        } else {
            self.load_leaf(name);
        }
    }
}

impl Loader {
    /// Decide what an import needs: the `control` syntax library, standard
    /// headers and builtin aliases are handled here; anything else is a
    /// header file for the caller to find.
    pub fn import_step(&mut self, imp: &Import) -> (r: ImportStep)
        requires
            old(self).wf(),
        ensures
            final(self).wf(),
            final(self).zero_list() == old(self).zero_list(),
            final(self).files() == old(self).files(),
            final(self).root() == old(self).root(),
            if imp.name@ == "control"@ {
                &&& r == ImportStep::Done
                &&& final(self).std_state() == old(self).std_state()
                &&& final(self).builtin_list() == old(self).builtin_list()
            } else if std_deps_spec(imp.name@) is Some {
                &&& r == ImportStep::Done
                &&& final(self).std_state() == std_load(old(self).std_state(), imp.name@)
                &&& final(self).builtin_list() == old(self).builtin_list()
            } else if builtin_use_spec(imp.name@) is Some {
                &&& r == ImportStep::Done
                &&& final(self).std_state() == old(self).std_state()
                &&& final(self).builtin_list() == (if old(self).builtin_list().contains(imp.name@) {
                    old(self).builtin_list()
                } else {
                    old(self).builtin_list().push(imp.name@)
                })
            } else {
                &&& r == ImportStep::File
                &&& final(self).std_state() == old(self).std_state()
                &&& final(self).builtin_list() == old(self).builtin_list()
            },
    {
        let name = imp.name.as_str();
        // 0. control-flow library: pure syntax, enabled by the parser
        if str_eq(name, "control") {
            return ImportStep::Done;
        }
        // 1. standard library headers
        if std_deps(name).is_some() {
            self.load_std(name);
            return ImportStep::Done;
        }
        // 2. builtin aliases -> `use` statements
        if builtin_use(name).is_some() {
            if !self.has_builtin(name) {
                let ghost bl = self.builtin_list();
                self.builtins.push(name.to_owned());
                proof {
                    assert(self.builtin_list() =~= bl.push(name@));
                }
            }
            return ImportStep::Done;
        }
        // 3. header files
        ImportStep::File
    }

    /// Whether the builtin alias `name` is already used.
    fn has_builtin(&self, name: &str) -> (r: bool)
        ensures
            r == self.builtin_list().contains(name@),
    {
        let ghost bl = self.builtin_list();
        let mut k: usize = 0;
        while k < self.builtins.len()
            invariant
                k <= self.builtins@.len(),
                bl == Seq::new(self.builtins@.len(), |i: int| self.builtins@[i]@),
                forall|j: int| 0 <= j < k ==> bl[j] != name@,
            decreases self.builtins@.len() - k,
        {
            if str_eq(self.builtins[k].as_str(), name) {
                proof {
                    assert(bl[k as int] == name@);
                }
                return true;
            }
            k = k + 1;
        }
        false
    }

    /// Record that the header file at `canonical` is included; false when
    /// it already was (files are included once).
    pub fn mark_imported(&mut self, canonical: &str) -> (r: bool)
        ensures
            r == !old(self).files().contains(canonical@),
            final(self).files() == (if r {
                old(self).files().push(canonical@)
            } else {
                old(self).files()
            }),
            final(self).fns() == old(self).fns(),
            final(self).wf() == old(self).wf(),
            final(self).std_state() == old(self).std_state(),
            final(self).builtin_list() == old(self).builtin_list(),
            final(self).zero_list() == old(self).zero_list(),
            final(self).root() == old(self).root(),
    {
        let ghost fl = self.files();
        let mut k: usize = 0;
        while k < self.imported_files.len()
            invariant
                k <= self.imported_files@.len(),
                fl == Seq::new(self.imported_files@.len(), |i: int| self.imported_files@[i]@),
                forall|j: int| 0 <= j < k ==> fl[j] != canonical@,
            decreases self.imported_files@.len() - k,
        {
            if str_eq(self.imported_files[k].as_str(), canonical) {
                proof {
                    assert(fl[k as int] == canonical@);
                }
                return false;
            }
            k = k + 1;
        }
        self.imported_files.push(canonical.to_owned());
        proof {
            assert(self.files() =~= fl.push(canonical@));
        }
        true
    }

    /// Add a raw Rust header, inlined verbatim; its `fn` names become
    /// callable.
    pub fn add_rust_header(&mut self, display: String, content: String)
        requires
            old(self).wf(),
        ensures
            final(self).wf(),
            final(self).rust_list() == old(self).rust_list().push((display@, content@)),
            final(self).fns() == with_unchecked(old(self).fns(), rust_fn_names(encode_utf8(content@), 0)),
            final(self).io() == old(self).io(),
            final(self).std_state().loaded == old(self).std_state().loaded,
            final(self).builtin_list() == old(self).builtin_list(),
            final(self).zero_list() == old(self).zero_list(),
            final(self).files() == old(self).files(),
            final(self).root() == old(self).root(),
    {
        register_rust_fns(&mut self.functions, content.as_str());
        self.rust_headers.push((display, content));
        proof {
            assert(self.rust_list() =~= old(self).rust_list().push((display@, content@)));
        }
    }

    /// Add a Zero header: parse it (errors are reported in `display`),
    /// register its functions except `main`, and give its index in
    /// `zero_headers` (its own imports are for the caller to load next).
    pub fn add_zero_header(&mut self, display: String, content: &str) -> (r: Result<usize, CompileError>)
        requires
            old(self).wf(),
            byte_len(content@) < usize::MAX,
        ensures
            final(self).wf(),
            final(self).io() == old(self).io(),
            final(self).std_state().loaded == old(self).std_state().loaded,
            final(self).rust_list() == old(self).rust_list(),
            final(self).builtin_list() == old(self).builtin_list(),
            final(self).files() == old(self).files(),
            final(self).root() == old(self).root(),
            r is Err ==> final(self).zero_list() == old(self).zero_list(),
            match parse_spec(content@) {
                Err(pe) => r matches Err(e) && err_is(e, pe, display@) && final(self).fns() == old(self).fns(),
                Ok(items) => match register_all(old(self).fns(), functions_of_items(items), true) {
                    Err(pe) => r matches Err(e) && err_is(e, pe, display@) && final(self).fns()
                        == register_upto(old(self).fns(), functions_of_items(items), true),
                    Ok(m) => r matches Ok(k) && {
                        &&& k == old(self).zero_list().len()
                        &&& final(self).fns() == m
                        &&& final(self).zero_list() == old(self).zero_list().push(
                            (display@, ProgramV { items }),
                        )
                    },
                },
            },
    {
        let header = match parse(content, display.as_str()) {
            Ok(p) => p,
            Err(e) => {
                return Err(e);
            },
        };
        let fns = header.functions();
        proof {
            lemma_functions_of_items(header.items@);
            assert(Seq::new(fns@.len(), |i: int| (*fns@[i])@) =~= functions_of_items(header@.items));
        }
        match self.register_functions(&fns, display.as_str(), true) {
            Ok(()) => {},
            Err(e) => {
                return Err(e);
            },
        }
        let k = self.zero_headers.len();
        self.zero_headers.push((display, header));
        proof {
            assert(self.zero_list() =~= old(self).zero_list().push((display@, ProgramV { items: header@.items })));
        }
        Ok(k)
    }
}

/// The functions among viewed items, in order.
pub open spec fn functions_of_items(items: Seq<ItemV>) -> Seq<FunctionV>
    decreases items.len(),
{
    if items.len() == 0 {
        Seq::empty()
    } else {
        let rest = functions_of_items(items.drop_last());
        match items.last() {
            ItemV::Function(f) => rest.push(f),
            _ => rest,
        }
    }
}

/// The viewed functions of items are the views of their functions.
pub proof fn lemma_functions_of_items(items: Seq<Item>)
    ensures
        functions_of_items(Seq::new(items.len(), |i: int| item_view(items[i]))) == Seq::new(
            functions_of(items).len(),
            |i: int| functions_of(items)[i]@,
        ),
    decreases items.len(),
{
    let iv = Seq::new(items.len(), |i: int| item_view(items[i]));
    if items.len() > 0 {
        lemma_functions_of_items(items.drop_last());
        assert(iv.drop_last() =~= Seq::new(items.drop_last().len(), |i: int| item_view(items.drop_last()[i])));
        let a = functions_of_items(iv.drop_last());
        let fs = functions_of(items.drop_last());
        match items.last() {
            Item::Function(f) => {
                assert(Seq::new(functions_of(items).len(), |i: int| functions_of(items)[i]@) =~= Seq::new(fs.len(), |i: int| fs[i]@).push(f@));
            },
            _ => {
                assert(Seq::new(functions_of(items).len(), |i: int| functions_of(items)[i]@) =~= Seq::new(fs.len(), |i: int| fs[i]@));
            },
        }
    } else {
        assert(Seq::new(functions_of(items).len(), |i: int| functions_of(items)[i]@) =~= Seq::<FunctionV>::empty());
    }
}

/// The error for a header file that no candidate path holds.
pub fn missing_header(name: &str, searched: &Vec<String>, file: &str, span: Span) -> (e: CompileError)
    ensures
        e.message@ == "cannot find header '"@ + name@ + "' (searched: "@ + crate::codegen::emit::join(
            Seq::new(searched@.len(), |i: int| searched@[i]@),
            ", "@,
        ) + ")"@,
        e.span == Some(span),
        e.file@ == file@,
{
    let ghost pieces = Seq::new(searched@.len(), |i: int| searched@[i]@);
    let mut list = String::new();
    let mut k: usize = 0;
    while k < searched.len()
        invariant
            k <= searched@.len(),
            pieces == Seq::new(searched@.len(), |i: int| searched@[i]@),
            list@ == crate::codegen::emit::join(pieces.take(k as int), ", "@),
        decreases searched@.len() - k,
    {
        proof {
            assert(pieces.take(k + 1) =~= pieces.take(k as int).push(pieces[k as int]));
            crate::codegen::emit::lemma_join_push(pieces.take(k as int), ", "@, pieces[k as int]);
        }
        if k > 0 {
            push_str(&mut list, ", ");
        }
        push_str(&mut list, searched[k].as_str());
        k = k + 1;
    }
    proof {
        assert(pieces.take(searched@.len() as int) =~= pieces);
    }
    let mut m = String::from_str("cannot find header '");
    push_str(&mut m, name);
    push_str(&mut m, "' (searched: ");
    push_str(&mut m, list.as_str());
    push_str(&mut m, ")");
    CompileError::at(m.as_str(), file, span)
}

/// The error for a header file that could not be read.
pub fn unreadable_header(path: &str, reason: &str, file: &str, span: Span) -> (e: CompileError)
    ensures
        e.message@ == "cannot read header '"@ + path@ + "': "@ + reason@,
        e.span == Some(span),
        e.file@ == file@,
{
    let mut m = String::from_str("cannot read header '");
    push_str(&mut m, path);
    push_str(&mut m, "': ");
    push_str(&mut m, reason);
    CompileError::at(m.as_str(), file, span)
}

/// The kind of a header file by its extension (compared in lower case).
pub fn header_kind(ext: &str, file: &str, span: Span) -> (r: Result<HeaderKind, CompileError>)
    ensures
        ({
            let lower = unicode_lowercase(ext@);
            if lower == "rs"@ {
                r == Ok::<HeaderKind, CompileError>(HeaderKind::Rust)
            } else if lower == "zh"@ || lower == "zero"@ {
                r == Ok::<HeaderKind, CompileError>(HeaderKind::Zero)
            } else {
                r matches Err(e) && err_is(e, ("unsupported header extension '."@ + lower + "'"@, span), file@)
            }
        }),
{
    let lower = to_lowercase(ext);
    if str_eq(lower.as_str(), "rs") {
        Ok(HeaderKind::Rust)
    } else if str_eq(lower.as_str(), "zh") || str_eq(lower.as_str(), "zero") {
        Ok(HeaderKind::Zero)
    } else {
        let mut m = String::from_str("unsupported header extension '.");
        push_str(&mut m, lower.as_str());
        push_str(&mut m, "'");
        Err(CompileError::at(m.as_str(), file, span))
    }
}

/// The views of a program's functions, in order.
pub open spec fn program_functions(prog: &Program) -> Seq<FunctionV> {
    Seq::new(functions_of(prog.items@).len(), |i: int| functions_of(prog.items@)[i]@)
}

} // verus!
