//! Token definitions for the Zero lexer.

use vstd::prelude::*;

use crate::diag::Span;
use crate::text::{decimal, int_text, push_char, push_int, push_str};

verus! {

/// Rendering of a string as `{:?}` writes it (quoted, escaped).
pub uninterp spec fn debug_str(s: Seq<char>) -> Seq<char>;

/// Calls `<str as Debug>::fmt` through `format!("{:?}")`; the result is
/// named by `debug_str`.
#[verifier::external_body]
pub fn str_debug(s: &str) -> (r: String)
    ensures
        r@ == debug_str(s@),
{
    format!("{:?}", s)
}

/// Token kinds. A float literal carries its normalised source text
/// (digits, optional `.digits`, optional `e[+-]digits`).
#[derive(Debug, Clone, PartialEq)]
pub enum TokKind {
    // Literals / identifiers
    Ident(String),
    Str(String),
    Int(i64),
    Float(String),
    Fn,
    Func,
    Return,
    Break,
    Continue,
    If,
    Else,
    ElseIf,
    While,
    For,
    Each,
    In,
    Switch,
    Case,
    Default,
    Try,
    Catch,
    Import,
    Scope,
    HighLevel,
    LowLevel,
    Const,
    True,
    False,
    Null,
    And,
    Or,
    LBrace,
    RBrace,
    LParen,
    RParen,
    Semi,
    Comma,
    Colon,
    Dot,
    DotDot,
    DotDotEq,
    Lt,
    Gt,
    Equal,
    Plus,
    Minus,
    Star,
    Slash,
    Percent,
    Bang,
    Arrow,
    PlusEq,
    MinusEq,
    StarEq,
    EqEq,
    BangEq,
    Le,
    Ge,
    Eof,
}

/// The mathematical value of a token kind.
pub enum TokView {
    Ident(Seq<char>),
    Str(Seq<char>),
    Int(i64),
    Float(Seq<char>),
    Fn,
    Func,
    Return,
    Break,
    Continue,
    If,
    Else,
    ElseIf,
    While,
    For,
    Each,
    In,
    Switch,
    Case,
    Default,
    Try,
    Catch,
    Import,
    Scope,
    HighLevel,
    LowLevel,
    Const,
    True,
    False,
    Null,
    And,
    Or,
    LBrace,
    RBrace,
    LParen,
    RParen,
    Semi,
    Comma,
    Colon,
    Dot,
    DotDot,
    DotDotEq,
    Lt,
    Gt,
    Equal,
    Plus,
    Minus,
    Star,
    Slash,
    Percent,
    Bang,
    Arrow,
    PlusEq,
    MinusEq,
    StarEq,
    EqEq,
    BangEq,
    Le,
    Ge,
    Eof,
}

impl View for TokKind {
    type V = TokView;

    open spec fn view(&self) -> TokView {
        match self {
            TokKind::Ident(s) => TokView::Ident(s@),
            TokKind::Str(s) => TokView::Str(s@),
            TokKind::Int(n) => TokView::Int(*n),
            TokKind::Float(s) => TokView::Float(s@),
            TokKind::Fn => TokView::Fn,
            TokKind::Func => TokView::Func,
            TokKind::Return => TokView::Return,
            TokKind::Break => TokView::Break,
            TokKind::Continue => TokView::Continue,
            TokKind::If => TokView::If,
            TokKind::Else => TokView::Else,
            TokKind::ElseIf => TokView::ElseIf,
            TokKind::While => TokView::While,
            TokKind::For => TokView::For,
            TokKind::Each => TokView::Each,
            TokKind::In => TokView::In,
            TokKind::Switch => TokView::Switch,
            TokKind::Case => TokView::Case,
            TokKind::Default => TokView::Default,
            TokKind::Try => TokView::Try,
            TokKind::Catch => TokView::Catch,
            TokKind::Import => TokView::Import,
            TokKind::Scope => TokView::Scope,
            TokKind::HighLevel => TokView::HighLevel,
            TokKind::LowLevel => TokView::LowLevel,
            TokKind::Const => TokView::Const,
            TokKind::True => TokView::True,
            TokKind::False => TokView::False,
            TokKind::Null => TokView::Null,
            TokKind::And => TokView::And,
            TokKind::Or => TokView::Or,
            TokKind::LBrace => TokView::LBrace,
            TokKind::RBrace => TokView::RBrace,
            TokKind::LParen => TokView::LParen,
            TokKind::RParen => TokView::RParen,
            TokKind::Semi => TokView::Semi,
            TokKind::Comma => TokView::Comma,
            TokKind::Colon => TokView::Colon,
            TokKind::Dot => TokView::Dot,
            TokKind::DotDot => TokView::DotDot,
            TokKind::DotDotEq => TokView::DotDotEq,
            TokKind::Lt => TokView::Lt,
            TokKind::Gt => TokView::Gt,
            TokKind::Equal => TokView::Equal,
            TokKind::Plus => TokView::Plus,
            TokKind::Minus => TokView::Minus,
            TokKind::Star => TokView::Star,
            TokKind::Slash => TokView::Slash,
            TokKind::Percent => TokView::Percent,
            TokKind::Bang => TokView::Bang,
            TokKind::Arrow => TokView::Arrow,
            TokKind::PlusEq => TokView::PlusEq,
            TokKind::MinusEq => TokView::MinusEq,
            TokKind::StarEq => TokView::StarEq,
            TokKind::EqEq => TokView::EqEq,
            TokKind::BangEq => TokView::BangEq,
            TokKind::Le => TokView::Le,
            TokKind::Ge => TokView::Ge,
            TokKind::Eof => TokView::Eof,
        }
    }
}

/// The name `{:?}` writes for a token kind without payload.
pub open spec fn simple_name(k: TokView) -> Seq<char> {
    match k {
        TokView::Fn => "Fn"@,
        TokView::Func => "Func"@,
        TokView::Return => "Return"@,
        TokView::Break => "Break"@,
        TokView::Continue => "Continue"@,
        TokView::If => "If"@,
        TokView::Else => "Else"@,
        TokView::ElseIf => "ElseIf"@,
        TokView::While => "While"@,
        TokView::For => "For"@,
        TokView::Each => "Each"@,
        TokView::In => "In"@,
        TokView::Switch => "Switch"@,
        TokView::Case => "Case"@,
        TokView::Default => "Default"@,
        TokView::Try => "Try"@,
        TokView::Catch => "Catch"@,
        TokView::Import => "Import"@,
        TokView::Scope => "Scope"@,
        TokView::HighLevel => "HighLevel"@,
        TokView::LowLevel => "LowLevel"@,
        TokView::Const => "Const"@,
        TokView::True => "True"@,
        TokView::False => "False"@,
        TokView::Null => "Null"@,
        TokView::And => "And"@,
        TokView::Or => "Or"@,
        TokView::LBrace => "LBrace"@,
        TokView::RBrace => "RBrace"@,
        TokView::LParen => "LParen"@,
        TokView::RParen => "RParen"@,
        TokView::Semi => "Semi"@,
        TokView::Comma => "Comma"@,
        TokView::Colon => "Colon"@,
        TokView::Dot => "Dot"@,
        TokView::DotDot => "DotDot"@,
        TokView::DotDotEq => "DotDotEq"@,
        TokView::Lt => "Lt"@,
        TokView::Gt => "Gt"@,
        TokView::Equal => "Equal"@,
        TokView::Plus => "Plus"@,
        TokView::Minus => "Minus"@,
        TokView::Star => "Star"@,
        TokView::Slash => "Slash"@,
        TokView::Percent => "Percent"@,
        TokView::Bang => "Bang"@,
        TokView::Arrow => "Arrow"@,
        TokView::PlusEq => "PlusEq"@,
        TokView::MinusEq => "MinusEq"@,
        TokView::StarEq => "StarEq"@,
        TokView::EqEq => "EqEq"@,
        TokView::BangEq => "BangEq"@,
        TokView::Le => "Le"@,
        TokView::Ge => "Ge"@,
        TokView::Eof => "Eof"@,
        _ => Seq::empty(),
    }
}

/// The text `{:?}` writes for a token kind.
pub open spec fn kind_debug(k: TokView) -> Seq<char> {
    match k {
        TokView::Ident(s) => "Ident("@ + debug_str(s) + ")"@,
        TokView::Str(s) => "Str("@ + debug_str(s) + ")"@,
        TokView::Int(n) => "Int("@ + int_text(n as int) + ")"@,
        TokView::Float(t) => "Float("@ + t + ")"@,
        _ => simple_name(k),
    }
}

/// A distinct number for each token kind.
pub open spec fn kind_tag(k: TokView) -> u8 {
    match k {
        TokView::Ident(_) => 0,
        TokView::Str(_) => 1,
        TokView::Int(_) => 2,
        TokView::Float(_) => 3,
        TokView::Fn => 4,
        TokView::Func => 5,
        TokView::Return => 6,
        TokView::Break => 7,
        TokView::Continue => 8,
        TokView::If => 9,
        TokView::Else => 10,
        TokView::ElseIf => 11,
        TokView::While => 12,
        TokView::For => 13,
        TokView::Each => 14,
        TokView::In => 15,
        TokView::Switch => 16,
        TokView::Case => 17,
        TokView::Default => 18,
        TokView::Try => 19,
        TokView::Catch => 20,
        TokView::Import => 21,
        TokView::Scope => 22,
        TokView::HighLevel => 23,
        TokView::LowLevel => 24,
        TokView::Const => 25,
        TokView::True => 26,
        TokView::False => 27,
        TokView::Null => 28,
        TokView::And => 29,
        TokView::Or => 30,
        TokView::LBrace => 31,
        TokView::RBrace => 32,
        TokView::LParen => 33,
        TokView::RParen => 34,
        TokView::Semi => 35,
        TokView::Comma => 36,
        TokView::Colon => 37,
        TokView::Dot => 38,
        TokView::DotDot => 39,
        TokView::DotDotEq => 40,
        TokView::Lt => 41,
        TokView::Gt => 42,
        TokView::Equal => 43,
        TokView::Plus => 44,
        TokView::Minus => 45,
        TokView::Star => 46,
        TokView::Slash => 47,
        TokView::Percent => 48,
        TokView::Bang => 49,
        TokView::Arrow => 50,
        TokView::PlusEq => 51,
        TokView::MinusEq => 52,
        TokView::StarEq => 53,
        TokView::EqEq => 54,
        TokView::BangEq => 55,
        TokView::Le => 56,
        TokView::Ge => 57,
        TokView::Eof => 58,
    }
}

/// Token kinds that carry no payload.
pub open spec fn is_simple(k: TokView) -> bool {
    !(k is Ident || k is Str || k is Int || k is Float)
}

pub proof fn lemma_tag_simple(a: TokView, b: TokView)
    requires
        is_simple(b),
        kind_tag(a) == kind_tag(b),
    ensures
        a == b,
{
}

impl TokKind {
    pub fn tag(&self) -> (t: u8)
        ensures
            t == kind_tag(self@),
    {
        match self {
            TokKind::Ident(_) => 0,
            TokKind::Str(_) => 1,
            TokKind::Int(_) => 2,
            TokKind::Float(_) => 3,
            TokKind::Fn => 4,
            TokKind::Func => 5,
            TokKind::Return => 6,
            TokKind::Break => 7,
            TokKind::Continue => 8,
            TokKind::If => 9,
            TokKind::Else => 10,
            TokKind::ElseIf => 11,
            TokKind::While => 12,
            TokKind::For => 13,
            TokKind::Each => 14,
            TokKind::In => 15,
            TokKind::Switch => 16,
            TokKind::Case => 17,
            TokKind::Default => 18,
            TokKind::Try => 19,
            TokKind::Catch => 20,
            TokKind::Import => 21,
            TokKind::Scope => 22,
            TokKind::HighLevel => 23,
            TokKind::LowLevel => 24,
            TokKind::Const => 25,
            TokKind::True => 26,
            TokKind::False => 27,
            TokKind::Null => 28,
            TokKind::And => 29,
            TokKind::Or => 30,
            TokKind::LBrace => 31,
            TokKind::RBrace => 32,
            TokKind::LParen => 33,
            TokKind::RParen => 34,
            TokKind::Semi => 35,
            TokKind::Comma => 36,
            TokKind::Colon => 37,
            TokKind::Dot => 38,
            TokKind::DotDot => 39,
            TokKind::DotDotEq => 40,
            TokKind::Lt => 41,
            TokKind::Gt => 42,
            TokKind::Equal => 43,
            TokKind::Plus => 44,
            TokKind::Minus => 45,
            TokKind::Star => 46,
            TokKind::Slash => 47,
            TokKind::Percent => 48,
            TokKind::Bang => 49,
            TokKind::Arrow => 50,
            TokKind::PlusEq => 51,
            TokKind::MinusEq => 52,
            TokKind::StarEq => 53,
            TokKind::EqEq => 54,
            TokKind::BangEq => 55,
            TokKind::Le => 56,
            TokKind::Ge => 57,
            TokKind::Eof => 58,
        }
    }

    /// Whether this kind equals the payload-free kind `want`.
    pub fn is(&self, want: &TokKind) -> (r: bool)
        requires
            is_simple(want@),
        ensures
            r == (self@ == want@),
    {
        let r = self.tag() == want.tag();
        proof {
            if r {
                lemma_tag_simple(self@, want@);
            }
        }
        r
    }

    /// A copy of a payload-free kind.
    pub fn copy_simple(&self) -> (r: TokKind)
        requires
            is_simple(self@),
        ensures
            r@ == self@,
    {
        match self {
            TokKind::Fn => TokKind::Fn,
            TokKind::Func => TokKind::Func,
            TokKind::Return => TokKind::Return,
            TokKind::Break => TokKind::Break,
            TokKind::Continue => TokKind::Continue,
            TokKind::If => TokKind::If,
            TokKind::Else => TokKind::Else,
            TokKind::ElseIf => TokKind::ElseIf,
            TokKind::While => TokKind::While,
            TokKind::For => TokKind::For,
            TokKind::Each => TokKind::Each,
            TokKind::In => TokKind::In,
            TokKind::Switch => TokKind::Switch,
            TokKind::Case => TokKind::Case,
            TokKind::Default => TokKind::Default,
            TokKind::Try => TokKind::Try,
            TokKind::Catch => TokKind::Catch,
            TokKind::Import => TokKind::Import,
            TokKind::Scope => TokKind::Scope,
            TokKind::HighLevel => TokKind::HighLevel,
            TokKind::LowLevel => TokKind::LowLevel,
            TokKind::Const => TokKind::Const,
            TokKind::True => TokKind::True,
            TokKind::False => TokKind::False,
            TokKind::Null => TokKind::Null,
            TokKind::And => TokKind::And,
            TokKind::Or => TokKind::Or,
            TokKind::LBrace => TokKind::LBrace,
            TokKind::RBrace => TokKind::RBrace,
            TokKind::LParen => TokKind::LParen,
            TokKind::RParen => TokKind::RParen,
            TokKind::Semi => TokKind::Semi,
            TokKind::Comma => TokKind::Comma,
            TokKind::Colon => TokKind::Colon,
            TokKind::Dot => TokKind::Dot,
            TokKind::DotDot => TokKind::DotDot,
            TokKind::DotDotEq => TokKind::DotDotEq,
            TokKind::Lt => TokKind::Lt,
            TokKind::Gt => TokKind::Gt,
            TokKind::Equal => TokKind::Equal,
            TokKind::Plus => TokKind::Plus,
            TokKind::Minus => TokKind::Minus,
            TokKind::Star => TokKind::Star,
            TokKind::Slash => TokKind::Slash,
            TokKind::Percent => TokKind::Percent,
            TokKind::Bang => TokKind::Bang,
            TokKind::Arrow => TokKind::Arrow,
            TokKind::PlusEq => TokKind::PlusEq,
            TokKind::MinusEq => TokKind::MinusEq,
            TokKind::StarEq => TokKind::StarEq,
            TokKind::EqEq => TokKind::EqEq,
            TokKind::BangEq => TokKind::BangEq,
            TokKind::Le => TokKind::Le,
            TokKind::Ge => TokKind::Ge,
            TokKind::Eof => TokKind::Eof,
            _ => TokKind::Eof,
        }
    }

    /// Append the `{:?}` rendering of this kind to `out`.
    pub fn push_debug(&self, out: &mut String)
        ensures
            final(out)@ == old(out)@ + kind_debug(self@),
    {
        proof {
            reveal_strlit("Ident(");
            reveal_strlit("Str(");
            reveal_strlit("Int(");
            reveal_strlit("Float(");
            reveal_strlit(")");
        }
        match self {
            TokKind::Ident(s) => {
                push_str(out, "Ident(");
                let d = str_debug(s.as_str());
                push_str(out, d.as_str());
                push_str(out, ")");
            },
            TokKind::Str(s) => {
                push_str(out, "Str(");
                let d = str_debug(s.as_str());
                push_str(out, d.as_str());
                push_str(out, ")");
            },
            TokKind::Int(n) => {
                push_str(out, "Int(");
                push_int(out, *n);
                push_str(out, ")");
            },
            TokKind::Float(t) => {
                push_str(out, "Float(");
                push_str(out, t.as_str());
                push_str(out, ")");
            },
            TokKind::Fn => push_str(out, "Fn"),
            TokKind::Func => push_str(out, "Func"),
            TokKind::Return => push_str(out, "Return"),
            TokKind::Break => push_str(out, "Break"),
            TokKind::Continue => push_str(out, "Continue"),
            TokKind::If => push_str(out, "If"),
            TokKind::Else => push_str(out, "Else"),
            TokKind::ElseIf => push_str(out, "ElseIf"),
            TokKind::While => push_str(out, "While"),
            TokKind::For => push_str(out, "For"),
            TokKind::Each => push_str(out, "Each"),
            TokKind::In => push_str(out, "In"),
            TokKind::Switch => push_str(out, "Switch"),
            TokKind::Case => push_str(out, "Case"),
            TokKind::Default => push_str(out, "Default"),
            TokKind::Try => push_str(out, "Try"),
            TokKind::Catch => push_str(out, "Catch"),
            TokKind::Import => push_str(out, "Import"),
            TokKind::Scope => push_str(out, "Scope"),
            TokKind::HighLevel => push_str(out, "HighLevel"),
            TokKind::LowLevel => push_str(out, "LowLevel"),
            TokKind::Const => push_str(out, "Const"),
            TokKind::True => push_str(out, "True"),
            TokKind::False => push_str(out, "False"),
            TokKind::Null => push_str(out, "Null"),
            TokKind::And => push_str(out, "And"),
            TokKind::Or => push_str(out, "Or"),
            TokKind::LBrace => push_str(out, "LBrace"),
            TokKind::RBrace => push_str(out, "RBrace"),
            TokKind::LParen => push_str(out, "LParen"),
            TokKind::RParen => push_str(out, "RParen"),
            TokKind::Semi => push_str(out, "Semi"),
            TokKind::Comma => push_str(out, "Comma"),
            TokKind::Colon => push_str(out, "Colon"),
            TokKind::Dot => push_str(out, "Dot"),
            TokKind::DotDot => push_str(out, "DotDot"),
            TokKind::DotDotEq => push_str(out, "DotDotEq"),
            TokKind::Lt => push_str(out, "Lt"),
            TokKind::Gt => push_str(out, "Gt"),
            TokKind::Equal => push_str(out, "Equal"),
            TokKind::Plus => push_str(out, "Plus"),
            TokKind::Minus => push_str(out, "Minus"),
            TokKind::Star => push_str(out, "Star"),
            TokKind::Slash => push_str(out, "Slash"),
            TokKind::Percent => push_str(out, "Percent"),
            TokKind::Bang => push_str(out, "Bang"),
            TokKind::Arrow => push_str(out, "Arrow"),
            TokKind::PlusEq => push_str(out, "PlusEq"),
            TokKind::MinusEq => push_str(out, "MinusEq"),
            TokKind::StarEq => push_str(out, "StarEq"),
            TokKind::EqEq => push_str(out, "EqEq"),
            TokKind::BangEq => push_str(out, "BangEq"),
            TokKind::Le => push_str(out, "Le"),
            TokKind::Ge => push_str(out, "Ge"),
            TokKind::Eof => push_str(out, "Eof"),
        }
    }
}

#[derive(Debug, Clone)]
pub struct Token {
    pub kind: TokKind,
    pub span: Span,
}

} // verus!
