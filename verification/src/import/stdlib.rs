//! Standard library header definitions embedded into the compiler.
//! Dependency chain: `io` -> `stream_io` -> `stream`; the `lowlevel_math`
//! and `lowlevel_strings` headers stand alone. All of them are raw Rust,
//! inlined into the generated program.

use vstd::prelude::*;

use crate::text::str_eq;

verus! {

/// Source of the `io` standard header.
pub const STD_IO: &'static str = r##"// io.rs —— 面向用户的输入输出函数（依赖 stream_io -> stream）
// 提供 print / input_s / input / set_stream 四个函数。

pub fn print(fmt: &str, args: &[ZVal]) {
    ZStreamIO::write(fmt, args);
}

pub fn input_s() -> ZVal {
    ZStreamIO::read_line()
}

pub fn input(fmt: &str, args: &[ZVal]) -> ZVal {
    ZStreamIO::prompt_read(fmt, args)
}

pub fn set_stream(kind: &str, name: Option<&str>) {
    ZStreamIO::set(kind, name)
}
"##;

/// Source of the `stream_io` standard header.
pub const STD_STREAM_IO: &'static str = r##"// stream_io.rs —— 在 stream 之上封装一条“适用于 IO 的流”（依赖 stream）
// 提供格式化写入、读行、切换流等 IO 语义，供 io 头文件调用。

/// 一条封装好的 IO 流（静态函数集合）。
pub struct ZStreamIO;

impl ZStreamIO {
    /// 按 `{}` 占位符格式化并写入当前流（`print` 的底层实现）。
    pub fn write(fmt: &str, args: &[ZVal]) {
        let text = __zero_format(fmt, args);
        zstream_global().lock().unwrap().write(&text);
    }

    /// 原样写入当前流，不做格式化。
    pub fn write_raw(text: &str) {
        zstream_global().lock().unwrap().write(text);
    }

    /// 从当前流读一行并解析为 ZVal（数字自动转 Int）。
    pub fn read_line() -> ZVal {
        let s = zstream_global().lock().unwrap().read_line();
        ZVal::from_line(&s)
    }

    /// 打印提示后读入（`input` 的底层实现）。
    pub fn prompt_read(fmt: &str, args: &[ZVal]) -> ZVal {
        Self::write(fmt, args);
        Self::read_line()
    }

    /// 切换当前流：`"shell"` 或 `"file"`（后跟文件名，可选）。
    pub fn set(kind: &str, name: Option<&str>) {
        let mut g = zstream_global().lock().unwrap();
        match kind {
            "file" => {
                let path = name.unwrap_or("out.txt");
                *g = ZStream::new_file(path);
            }
            _ => {
                *g = ZStream::new_shell();
            }
        }
    }
}
"##;

/// Source of the `stream` standard header.
pub const STD_STREAM: &'static str = r##"// stream.rs —— 底层流抽象（Zero 标准库最底层）
// 一条流：shell（终端）或 file（文件）。stream_io 与 io 都建立在它之上。

use std::fs::{File, OpenOptions};
use std::io::{self, BufRead, BufReader, Write};
use std::sync::{Mutex, OnceLock};

/// 流类型：终端（shell）或文件（file）。
#[derive(Clone, Copy, PartialEq, Eq, Debug)]
pub enum ZStreamKind {
    Shell,
    File,
}

/// 一条流。写入端与读取端共用一条路径（文件流读写同一文件）。
pub struct ZStream {
    pub kind: ZStreamKind,
    pub name: String,
    writer: Option<File>,
    reader: Option<BufReader<File>>,
}

impl ZStream {
    /// 终端流：输出到 stdout，输入来自 stdin。
    pub fn new_shell() -> Self {
        ZStream {
            kind: ZStreamKind::Shell,
            name: "shell".to_string(),
            writer: None,
            reader: None,
        }
    }

    /// 文件流：输出追加写入，输入按行读取。
    pub fn new_file(path: &str) -> Self {
        let writer = OpenOptions::new().create(true).append(true).open(path).ok();
        let reader = File::open(path).ok().map(BufReader::new);
        ZStream {
            kind: ZStreamKind::File,
            name: path.to_string(),
            writer,
            reader,
        }
    }

    /// 向流写入一段文本。
    pub fn write(&mut self, text: &str) {
        match self.kind {
            ZStreamKind::Shell => {
                print!("{text}");
                let _ = io::stdout().flush();
            }
            ZStreamKind::File => {
                if let Some(f) = &mut self.writer {
                    let _ = f.write_all(text.as_bytes());
                    let _ = f.flush();
                }
            }
        }
    }

    /// 从流读取一行（去掉行尾换行），EOF 时返回空串。
    pub fn read_line(&mut self) -> String {
        let mut buf = String::new();
        match self.kind {
            ZStreamKind::Shell => {
                let _ = io::stdin().read_line(&mut buf);
            }
            ZStreamKind::File => {
                if let Some(r) = &mut self.reader {
                    let _ = r.read_line(&mut buf);
                }
            }
        }
        buf.trim_end_matches(['\r', '\n']).to_string()
    }
}

/// 全局当前流（默认 shell）。编译器把 `set_stream` 映射到这里。
pub fn zstream_global() -> &'static Mutex<ZStream> {
    static STREAM: OnceLock<Mutex<ZStream>> = OnceLock::new();
    STREAM.get_or_init(|| Mutex::new(ZStream::new_shell()))
}
"##;

/// Source of the `lowlevel_math` standard header.
pub const STD_LOWLEVEL_MATH: &'static str = r##"// lowlevel_math.rs —— 底层数学运算（Zero 标准库最底层，Rust 实现）
// 仅提供基本运算：加、减、乘、除、取余、取负。
// `math` 头文件（Zero 实现）从这些基本运算构建高级函数。

pub fn zadd(a: ZVal, b: ZVal) -> ZVal {
    a.add(&b)
}

pub fn zsub(a: ZVal, b: ZVal) -> ZVal {
    a.sub(&b)
}

pub fn zmul(a: ZVal, b: ZVal) -> ZVal {
    a.mul(&b)
}

pub fn zdiv(a: ZVal, b: ZVal) -> ZVal {
    a.div(&b)
}

pub fn zrem(a: ZVal, b: ZVal) -> ZVal {
    a.rem(&b)
}

pub fn zneg(a: ZVal) -> ZVal {
    a.neg()
}

/// 平方根（返回 Float；负数返回 NULL）。
pub fn zsqrt(a: ZVal) -> ZVal {
    match a {
        ZVal::Float(f) if f >= 0.0 => ZVal::Float(f.sqrt()),
        ZVal::Int(n) if n >= 0 => ZVal::Float((n as f64).sqrt()),
        _ => ZVal::Nil,
    }
}

/// 向下取整（Float 保留 Float，Int 原样返回）。
pub fn zfloor(a: ZVal) -> ZVal {
    match a {
        ZVal::Float(f) => ZVal::Float(f.floor()),
        ZVal::Int(n) => ZVal::Int(n),
        _ => ZVal::Nil,
    }
}

/// 向上取整（Float 保留 Float，Int 原样返回）。
pub fn zceil(a: ZVal) -> ZVal {
    match a {
        ZVal::Float(f) => ZVal::Float(f.ceil()),
        ZVal::Int(n) => ZVal::Int(n),
        _ => ZVal::Nil,
    }
}

/// 四舍五入（Float 保留 Float，Int 原样返回）。
pub fn zround(a: ZVal) -> ZVal {
    match a {
        ZVal::Float(f) => ZVal::Float(f.round()),
        ZVal::Int(n) => ZVal::Int(n),
        _ => ZVal::Nil,
    }
}
"##;

/// Source of the `lowlevel_strings` standard header.
pub const STD_LOWLEVEL_STRINGS: &'static str = r##"// lowlevel_strings.rs —— 底层字符串运算（Zero 标准库最底层，Rust 实现）
// 提供基础字符串操作；`strings` 头文件（Zero 实现）在此基础上构建高级函数。

/// 字符串长度（按字符数）。
pub fn zlen(a: ZVal) -> ZVal {
    match &a {
        ZVal::Str(s) => ZVal::Int(s.chars().count() as i64),
        _ => ZVal::Nil,
    }
}

/// 转大写。
pub fn zupper(a: ZVal) -> ZVal {
    ZVal::Str(a.to_rust_string().to_uppercase())
}

/// 转小写。
pub fn zlower(a: ZVal) -> ZVal {
    ZVal::Str(a.to_rust_string().to_lowercase())
}

/// 去除首尾空白。
pub fn ztrim(a: ZVal) -> ZVal {
    ZVal::Str(a.to_rust_string().trim().to_string())
}

/// 是否包含子串。
pub fn zcontains(a: ZVal, b: ZVal) -> ZVal {
    ZVal::Bool(a.to_rust_string().contains(&b.to_rust_string()))
}

/// 是否以某前缀开头。
pub fn zstartswith(a: ZVal, b: ZVal) -> ZVal {
    ZVal::Bool(a.to_rust_string().starts_with(&b.to_rust_string()))
}

/// 是否以某后缀结尾。
pub fn zendswith(a: ZVal, b: ZVal) -> ZVal {
    ZVal::Bool(a.to_rust_string().ends_with(&b.to_rust_string()))
}

/// 是否为空字符串。
pub fn zis_empty(a: ZVal) -> ZVal {
    ZVal::Bool(a.to_rust_string().is_empty())
}

/// 取第 i 个字符（越界返回 NULL）。
pub fn zchar_at(a: ZVal, i: ZVal) -> ZVal {
    match (&a, i.as_int()) {
        (ZVal::Str(s), Some(idx)) if idx >= 0 => match s.chars().nth(idx as usize) {
            Some(c) => ZVal::Str(c.to_string()),
            None => ZVal::Nil,
        },
        _ => ZVal::Nil,
    }
}

/// 取子串：substr(s, start, len)（越界安全）。
pub fn zsubstr(a: ZVal, start: ZVal, len: ZVal) -> ZVal {
    match (&a, start.as_int(), len.as_int()) {
        (ZVal::Str(s), Some(st), Some(l)) => {
            let chars: Vec<char> = s.chars().collect();
            let st = if st < 0 { 0 } else { st as usize };
            let en = st.saturating_add(if l < 0 { 0 } else { l as usize }).min(chars.len());
            if st > chars.len() {
                return ZVal::Nil;
            }
            ZVal::Str(chars[st..en].iter().collect())
        }
        _ => ZVal::Nil,
    }
}

/// 替换所有出现的 from 为 to。
pub fn zreplace(a: ZVal, from: ZVal, to: ZVal) -> ZVal {
    ZVal::Str(
        a.to_rust_string()
            .replace(&from.to_rust_string(), &to.to_rust_string()),
    )
}

/// 重复字符串 n 次。
pub fn zrepeat(a: ZVal, n: ZVal) -> ZVal {
    match (&a, n.as_int()) {
        (ZVal::Str(s), Some(k)) if k > 0 => ZVal::Str(s.repeat(k as usize)),
        (ZVal::Str(_), Some(_)) => ZVal::Str(String::new()),
        _ => ZVal::Nil,
    }
}

/// 反转字符串。
pub fn zreverse(a: ZVal) -> ZVal {
    ZVal::Str(a.to_rust_string().chars().rev().collect())
}

/// 首次出现子串的字符下标（未找到返回 -1）。
pub fn zindex_of(a: ZVal, b: ZVal) -> ZVal {
    match (&a, &b) {
        (ZVal::Str(s), ZVal::Str(sub)) => match s.find(sub) {
            Some(idx) => ZVal::Int(s[..idx].chars().count() as i64),
            None => ZVal::Int(-1),
        },
        _ => ZVal::Nil,
    }
}

/// 统计子串出现次数。
pub fn zcount(a: ZVal, b: ZVal) -> ZVal {
    ZVal::Int(
        a.to_rust_string()
            .matches(&b.to_rust_string())
            .count() as i64,
    )
}
"##;

/// The standard headers and the headers each depends on.
pub open spec fn std_deps_spec(name: Seq<char>) -> Option<Seq<Seq<char>>> {
    if name == "io"@ {
        Some(seq!["stream_io"@])
    } else if name == "stream_io"@ {
        Some(seq!["stream"@])
    } else if name == "stream"@ || name == "lowlevel_math"@ || name == "lowlevel_strings"@ {
        Some(Seq::empty())
    } else {
        None
    }
}

/// The dependencies of a standard header; `None` for other names.
pub fn std_deps(name: &str) -> (r: Option<Vec<&'static str>>)
    ensures
        match (std_deps_spec(name@), r) {
            (Some(d), Some(v)) => v@.len() == d.len() && forall|k: int|
                0 <= k < d.len() ==> #[trigger] v@[k]@ == d[k],
            (None, None) => true,
            _ => false,
        },
{
    let mut v: Vec<&'static str> = Vec::new();
    if str_eq(name, "io") {
        v.push("stream_io");
        Some(v)
    } else if str_eq(name, "stream_io") {
        v.push("stream");
        Some(v)
    } else if str_eq(name, "stream") || str_eq(name, "lowlevel_math") || str_eq(
        name,
        "lowlevel_strings",
    ) {
        Some(v)
    } else {
        None
    }
}

/// Source of a standard header.
pub open spec fn std_source_spec(name: Seq<char>) -> Seq<char> {
    if name == "io"@ {
        STD_IO@
    } else if name == "stream_io"@ {
        STD_STREAM_IO@
    } else if name == "stream"@ {
        STD_STREAM@
    } else if name == "lowlevel_math"@ {
        STD_LOWLEVEL_MATH@
    } else {
        STD_LOWLEVEL_STRINGS@
    }
}

pub fn std_source(name: &str) -> (r: &'static str)
    ensures
        r@ == std_source_spec(name@),
{
    if str_eq(name, "io") {
        STD_IO
    } else if str_eq(name, "stream_io") {
        STD_STREAM_IO
    } else if str_eq(name, "stream") {
        STD_STREAM
    } else if str_eq(name, "lowlevel_math") {
        STD_LOWLEVEL_MATH
    } else {
        STD_LOWLEVEL_STRINGS
    }
}

/// Builtin header aliases mapped to Rust `use` statements.
pub open spec fn builtin_use_spec(name: Seq<char>) -> Option<Seq<char>> {
    if name == "stdio"@ {
        Some("use std::io;"@)
    } else if name == "fs"@ {
        Some("use std::fs;"@)
    } else if name == "path"@ {
        Some("use std::path::{Path, PathBuf};"@)
    } else if name == "process"@ {
        Some("use std::process::Command;"@)
    } else if name == "env"@ {
        Some("use std::env;"@)
    } else if name == "time"@ {
        Some("use std::time;"@)
    } else if name == "collections"@ {
        Some("use std::collections;"@)
    } else if name == "string"@ {
        Some("use std::string::String;"@)
    } else {
        None
    }
}

/// The `use` statement a builtin header alias stands for.
pub fn builtin_use(name: &str) -> (r: Option<&'static str>)
    ensures
        match r {
            Some(u) => builtin_use_spec(name@) == Some(u@),
            None => builtin_use_spec(name@) is None,
        },
{
    if str_eq(name, "stdio") {
        Some("use std::io;")
    } else if str_eq(name, "fs") {
        Some("use std::fs;")
    } else if str_eq(name, "path") {
        Some("use std::path::{Path, PathBuf};")
    } else if str_eq(name, "process") {
        Some("use std::process::Command;")
    } else if str_eq(name, "env") {
        Some("use std::env;")
    } else if str_eq(name, "time") {
        Some("use std::time;")
    } else if str_eq(name, "collections") {
        Some("use std::collections;")
    } else if str_eq(name, "string") {
        Some("use std::string::String;")
    } else {
        None
    }
}

} // verus!
