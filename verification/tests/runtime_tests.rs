use zeroc::runtime::{
    zchar_at, zcontains, zcount, zendswith, zero_format, zindex_of, zis_empty, zlen, zlower,
    zrepeat, zreplace, zreverse, zstartswith, zsubstr, ztrim, zupper, ZStreamIO, ZStreamKind,
    ZVal,
};

fn s(t: &str) -> ZVal {
    ZVal::Str(t.to_string())
}

fn text(v: ZVal) -> String {
    v.to_rust_string()
}

#[test]
fn len_counts_characters() {
    assert_eq!(zlen(s("héllo")).as_int(), Some(5));
    assert_eq!(zlen(s("")).as_int(), Some(0));
    assert!(matches!(zlen(ZVal::Int(3)), ZVal::Nil));
}

#[test]
fn case_conversion() {
    assert_eq!(text(zupper(s("abc"))), "ABC");
    assert_eq!(text(zlower(s("AbC"))), "abc");
    assert_eq!(text(zupper(ZVal::Int(12))), "12");
}

#[test]
fn trim_removes_both_ends() {
    assert_eq!(text(ztrim(s("  a b \n"))), "a b");
    assert_eq!(text(ztrim(s("   "))), "");
}

#[test]
fn contains_starts_ends() {
    assert!(matches!(zcontains(s("hello"), s("ell")), ZVal::Bool(true)));
    assert!(matches!(zcontains(s("hello"), s("xyz")), ZVal::Bool(false)));
    assert!(matches!(zcontains(s("hello"), s("")), ZVal::Bool(true)));
    assert!(matches!(zstartswith(s("hello"), s("he")), ZVal::Bool(true)));
    assert!(matches!(zstartswith(s("he"), s("hello")), ZVal::Bool(false)));
    assert!(matches!(zendswith(s("hello"), s("llo")), ZVal::Bool(true)));
    assert!(matches!(zendswith(s("hello"), s("hel")), ZVal::Bool(false)));
}

#[test]
fn is_empty_reads_the_text() {
    assert!(matches!(zis_empty(s("")), ZVal::Bool(true)));
    assert!(matches!(zis_empty(ZVal::Nil), ZVal::Bool(false)));
}

#[test]
fn char_at_bounds() {
    assert_eq!(text(zchar_at(s("abc"), ZVal::Int(1))), "b");
    assert!(matches!(zchar_at(s("abc"), ZVal::Int(-1)), ZVal::Nil));
    assert!(matches!(zchar_at(s("abc"), ZVal::Str("1".to_string())), ZVal::Nil));
    assert!(matches!(zchar_at(s("abc"), ZVal::Int(3)), ZVal::Nil));
    assert!(matches!(zchar_at(ZVal::Int(1), ZVal::Int(0)), ZVal::Nil));
}

#[test]
fn substr_is_bounds_safe() {
    assert_eq!(text(zsubstr(s("hello"), ZVal::Int(1), ZVal::Int(3))), "ell");
    assert_eq!(text(zsubstr(s("hello"), ZVal::Int(3), ZVal::Int(100))), "lo");
    assert_eq!(text(zsubstr(s("hello"), ZVal::Int(-2), ZVal::Int(2))), "he");
    assert_eq!(text(zsubstr(s("hello"), ZVal::Int(5), ZVal::Int(2))), "");
    assert!(matches!(zsubstr(s("hello"), ZVal::Int(6), ZVal::Int(1)), ZVal::Nil));
    assert!(matches!(zsubstr(s("hello"), ZVal::Int(i64::MAX), ZVal::Int(i64::MAX)), ZVal::Nil));
}

#[test]
fn replace_all_occurrences() {
    assert_eq!(text(zreplace(s("a-b-c"), s("-"), s("+"))), "a+b+c");
    assert_eq!(text(zreplace(s("aaa"), s("aa"), s("b"))), "ba");
    assert_eq!(text(zreplace(s("ab"), s(""), s("."))), ".a.b.");
    assert_eq!(text(zreplace(s("abc"), s("x"), s("y"))), "abc");
}

#[test]
fn repeat_counts() {
    assert_eq!(text(zrepeat(s("ab"), ZVal::Int(3))), "ababab");
    assert_eq!(text(zrepeat(s("ab"), ZVal::Int(0))), "");
    assert_eq!(text(zrepeat(s("ab"), ZVal::Int(-1))), "");
    assert!(matches!(zrepeat(ZVal::Int(1), ZVal::Int(2)), ZVal::Nil));
}

#[test]
fn reverse_twice_is_identity() {
    assert_eq!(text(zreverse(s("héllo"))), "olléh");
    assert_eq!(text(zreverse(zreverse(s("héllo")))), "héllo");
}

#[test]
fn index_of_in_characters() {
    assert_eq!(zindex_of(s("héllo"), s("llo")).as_int(), Some(2));
    assert_eq!(zindex_of(s("hello"), s("z")).as_int(), Some(-1));
    assert!(matches!(zindex_of(s("hello"), ZVal::Int(1)), ZVal::Nil));
}

#[test]
fn count_non_overlapping() {
    assert_eq!(zcount(s("aaaa"), s("aa")).as_int(), Some(2));
    assert_eq!(zcount(s("abc"), s("")).as_int(), Some(4));
    assert_eq!(zcount(s("abc"), s("d")).as_int(), Some(0));
}

#[test]
fn format_fills_placeholders() {
    assert_eq!(zero_format("x={} y={}", &[ZVal::Int(1), s("two")]), "x=1 y=two");
    assert_eq!(zero_format("{} {}", &[ZVal::Bool(true)]), "true {}");
    assert_eq!(zero_format("plain", &[ZVal::Int(1)]), "plain");
    assert_eq!(zero_format("{}", &[ZVal::Nil]), "nil");
    assert_eq!(zero_format("{}", &[ZVal::Int(-42)]), "-42");
}

#[test]
fn stream_write_and_set() {
    assert_eq!(ZStreamIO::write("a{}", &[ZVal::Int(7)]), "a7");
    let f = ZStreamIO::set("file", Some("log.txt"));
    assert_eq!(f.kind, ZStreamKind::File);
    assert_eq!(f.name, "log.txt");
    let d = ZStreamIO::set("file", None);
    assert_eq!(d.name, "out.txt");
    let sh = ZStreamIO::set("shell", Some("ignored"));
    assert_eq!(sh.kind, ZStreamKind::Shell);
}

#[test]
fn float_text_is_kept() {
    assert_eq!(ZVal::Float("3.14".to_string()).to_rust_string(), "3.14");
}

#[test]
fn repeat_length_is_a_multiple() {
    let r = text(zrepeat(s("abc"), ZVal::Int(4)));
    assert_eq!(r.chars().count(), 12);
}
