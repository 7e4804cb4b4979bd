//! Abstract syntax tree for the Zero language, with its mathematical view.

use vstd::prelude::*;

use crate::diag::Span;
use crate::parser::spec::espan;

verus! {

/// Binary operators, ordered by precedence in the parser.
#[derive(Debug, Clone, Copy, PartialEq, Eq, Structural)]
pub enum BinOp {
    Add,
    Sub,
    Mul,
    Div,
    Rem,
    Eq,
    Ne,
    Lt,
    Le,
    Gt,
    Ge,
    And,
    Or,
}

/// Unary (prefix) operators.
#[derive(Debug, Clone, Copy, PartialEq, Eq, Structural)]
pub enum UnOp {
    /// Arithmetic negation: `-x`
    Neg,
    /// Logical negation: `!x`
    Not,
}

#[derive(Debug, Clone, Copy, PartialEq, Eq, Structural)]
pub enum ScopeKind {
    /// Zero-level code: normal language statements.
    HighLevel,
    /// Raw Rust code, pasted into the generated output verbatim.
    LowLevel,
}

/// A declared type for parameters and return values. `None` in a function
/// signature means dynamic (the default; the explicit type `any` is
/// normalised to `None` by the parser).
#[derive(Debug, Clone, Copy, PartialEq, Eq, Structural)]
pub enum ZType {
    Int,
    Float,
    Str,
    Bool,
}

/// The type a type name denotes.
pub open spec fn ztype_of_name(s: Seq<char>) -> Option<ZType> {
    if s == "int"@ {
        Some(ZType::Int)
    } else if s == "string"@ {
        Some(ZType::Str)
    } else if s == "bool"@ {
        Some(ZType::Bool)
    } else {
        None
    }
}

/// Diagnostic name of a type.
pub open spec fn ztype_name(t: ZType) -> Seq<char> {
    match t {
        ZType::Int => "int"@,
        ZType::Float => "float"@,
        ZType::Str => "string"@,
        ZType::Bool => "bool"@,
    }
}

impl ZType {
    pub fn from_name(s: &str) -> (r: Option<ZType>)
        ensures
            r == ztype_of_name(s@),
    {
        if crate::text::str_eq(s, "int") {
            Some(ZType::Int)
        } else if crate::text::str_eq(s, "string") {
            Some(ZType::Str)
        } else if crate::text::str_eq(s, "bool") {
            Some(ZType::Bool)
        } else {
            None
        }
    }

    /// Diagnostic name.
    pub fn name(&self) -> (r: &'static str)
        ensures
            r@ == ztype_name(*self),
    {
        match self {
            ZType::Int => "int",
            ZType::Float => "float",
            ZType::Str => "string",
            ZType::Bool => "bool",
        }
    }
}

#[derive(Debug)]
pub enum Expr {
    Int(i64, Span),
    /// A float literal, held as its normalised source text.
    Float(String, Span),
    Str(String, Span),
    Bool(bool, Span),
    /// The `NULL` literal.
    Nil(Span),
    Ident(String, Span),
    Call { callee: String, args: Vec<Expr>, span: Span },
    /// Type conversion: `type_to<int>(expr)`.
    TypeTo { ty: ZType, value: Box<Expr>, span: Span },
    Binary { op: BinOp, lhs: Box<Expr>, rhs: Box<Expr>, span: Span },
    Unary { op: UnOp, operand: Box<Expr>, span: Span },
}

#[derive(Debug)]
pub enum Stmt {
    /// Dynamic variable: `name = expr` creates or overwrites a variable of
    /// any type. `name = expr<const>` is immutable.
    Assign { name: String, value: Expr, is_const: bool, span: Span },
    Expr(Expr),
    Return { value: Option<Expr> },
    Break { span: Span },
    Continue { span: Span },
    Scope { kind: ScopeKind, block: Block, span: Span },
    /// `if cond: body else_if cond: body else: body`
    If { cond: Expr, then: Block, else_ifs: Vec<(Expr, Block)>, else_branch: Option<Block> },
    /// `while cond: body`
    While { cond: Expr, body: Block },
    /// `for var in start..end: body` (or `..=` for inclusive)
    For { var: String, start: Expr, end: Expr, inclusive: bool, body: Block },
    /// `each var in iter: body`: iterates over a range (Int) or chars (Str)
    Each { var: String, iter: Expr, body: Block },
    /// `switch value: { case v: body ... default: body }`
    Switch { value: Expr, arms: Vec<(Expr, Block)>, default: Option<Block> },
    /// `try: body catch var: body`
    Try { body: Block, catch_var: Option<String>, catch_body: Option<Block> },
}

#[derive(Debug)]
pub enum Block {
    /// A normal highlevel block: a list of statements.
    Stmts(Vec<Stmt>),
    /// Raw text inside a `scope lowlevel { ... }` block.
    Raw(String),
}

/// A function parameter with an optional type annotation: `x<int>`.
#[derive(Debug, Clone)]
pub struct Param {
    pub name: String,
    pub ty: Option<ZType>,
}

#[derive(Debug)]
pub struct Function {
    pub name: String,
    pub params: Vec<Param>,
    /// Declared return type (None = dynamic).
    pub ret: Option<ZType>,
    pub body: Block,
    pub span: Span,
}

#[derive(Debug, Clone)]
pub struct Import {
    /// Header name as written: either a bare name (`stdio`) or a path
    /// (`headers/helpers`, `extra.rs`).
    pub name: String,
    pub span: Span,
}

#[derive(Debug)]
pub enum Item {
    Import(Import),
    Function(Function),
    /// A top-level statement; together they form the implicit entry point.
    Top(Stmt),
}

#[derive(Debug)]
pub struct Program {
    pub items: Vec<Item>,
}

// ---- the mathematical view ----

pub enum ExprV {
    Int(i64, Span),
    Float(Seq<char>, Span),
    Str(Seq<char>, Span),
    Bool(bool, Span),
    Nil(Span),
    Ident(Seq<char>, Span),
    Call { callee: Seq<char>, args: Seq<ExprV>, span: Span },
    TypeTo { ty: ZType, value: Box<ExprV>, span: Span },
    Binary { op: BinOp, lhs: Box<ExprV>, rhs: Box<ExprV>, span: Span },
    Unary { op: UnOp, operand: Box<ExprV>, span: Span },
}

pub enum StmtV {
    Assign { name: Seq<char>, value: ExprV, is_const: bool, span: Span },
    Expr(ExprV),
    Return { value: Option<ExprV> },
    Break { span: Span },
    Continue { span: Span },
    Scope { kind: ScopeKind, block: BlockV, span: Span },
    If { cond: ExprV, then: BlockV, else_ifs: Seq<(ExprV, BlockV)>, else_branch: Option<BlockV> },
    While { cond: ExprV, body: BlockV },
    For { var: Seq<char>, start: ExprV, end: ExprV, inclusive: bool, body: BlockV },
    Each { var: Seq<char>, iter: ExprV, body: BlockV },
    Switch { value: ExprV, arms: Seq<(ExprV, BlockV)>, default: Option<BlockV> },
    Try { body: BlockV, catch_var: Option<Seq<char>>, catch_body: Option<BlockV> },
}

pub enum BlockV {
    Stmts(Seq<StmtV>),
    Raw(Seq<char>),
}

pub struct ParamV {
    pub name: Seq<char>,
    pub ty: Option<ZType>,
}

pub struct FunctionV {
    pub name: Seq<char>,
    pub params: Seq<ParamV>,
    pub ret: Option<ZType>,
    pub body: BlockV,
    pub span: Span,
}

pub struct ImportV {
    pub name: Seq<char>,
    pub span: Span,
}

pub enum ItemV {
    Import(ImportV),
    Function(FunctionV),
    Top(StmtV),
}

pub struct ProgramV {
    pub items: Seq<ItemV>,
}

pub open spec fn exprs_view(es: Seq<Expr>) -> Seq<ExprV>
    decreases es,
{
    if es.len() == 0 {
        Seq::empty()
    } else {
        exprs_view(es.subrange(0, es.len() - 1)).push(expr_view(es[es.len() - 1]))
    }
}

pub open spec fn expr_view(e: Expr) -> ExprV
    decreases e,
{
    match e {
        Expr::Int(v, s) => ExprV::Int(v, s),
        Expr::Float(t, s) => ExprV::Float(t@, s),
        Expr::Str(t, s) => ExprV::Str(t@, s),
        Expr::Bool(b, s) => ExprV::Bool(b, s),
        Expr::Nil(s) => ExprV::Nil(s),
        Expr::Ident(n, s) => ExprV::Ident(n@, s),
        Expr::Call { callee, args, span } => ExprV::Call {
            callee: callee@,
            args: exprs_view(args@),
            span,
        },
        Expr::TypeTo { ty, value, span } => ExprV::TypeTo {
            ty,
            value: Box::new(expr_view(*value)),
            span,
        },
        Expr::Binary { op, lhs, rhs, span } => ExprV::Binary {
            op,
            lhs: Box::new(expr_view(*lhs)),
            rhs: Box::new(expr_view(*rhs)),
            span,
        },
        Expr::Unary { op, operand, span } => ExprV::Unary {
            op,
            operand: Box::new(expr_view(*operand)),
            span,
        },
    }
}

pub open spec fn stmts_view(ss: Seq<Stmt>) -> Seq<StmtV>
    decreases ss,
{
    if ss.len() == 0 {
        Seq::empty()
    } else {
        stmts_view(ss.subrange(0, ss.len() - 1)).push(stmt_view(ss[ss.len() - 1]))
    }
}

pub open spec fn arms_view(arms: Seq<(Expr, Block)>) -> Seq<(ExprV, BlockV)>
    decreases arms,
{
    if arms.len() == 0 {
        Seq::empty()
    } else {
        let last = arms[arms.len() - 1];
        arms_view(arms.subrange(0, arms.len() - 1)).push((expr_view(last.0), block_view(last.1)))
    }
}

pub open spec fn block_view(b: Block) -> BlockV
    decreases b,
{
    match b {
        Block::Stmts(ss) => BlockV::Stmts(stmts_view(ss@)),
        Block::Raw(t) => BlockV::Raw(t@),
    }
}

pub open spec fn opt_block_view(b: Option<Block>) -> Option<BlockV>
    decreases b,
{
    match b {
        Some(b) => Some(block_view(b)),
        None => None,
    }
}

pub open spec fn opt_expr_view(e: Option<Expr>) -> Option<ExprV> {
    match e {
        Some(e) => Some(expr_view(e)),
        None => None,
    }
}

pub open spec fn stmt_view(s: Stmt) -> StmtV
    decreases s,
{
    match s {
        Stmt::Assign { name, value, is_const, span } => StmtV::Assign {
            name: name@,
            value: expr_view(value),
            is_const,
            span,
        },
        Stmt::Expr(e) => StmtV::Expr(expr_view(e)),
        Stmt::Return { value } => StmtV::Return { value: opt_expr_view(value) },
        Stmt::Break { span } => StmtV::Break { span },
        Stmt::Continue { span } => StmtV::Continue { span },
        Stmt::Scope { kind, block, span } => StmtV::Scope { kind, block: block_view(block), span },
        Stmt::If { cond, then, else_ifs, else_branch } => StmtV::If {
            cond: expr_view(cond),
            then: block_view(then),
            else_ifs: arms_view(else_ifs@),
            else_branch: opt_block_view(else_branch),
        },
        Stmt::While { cond, body } => StmtV::While { cond: expr_view(cond), body: block_view(body) },
        Stmt::For { var, start, end, inclusive, body } => StmtV::For {
            var: var@,
            start: expr_view(start),
            end: expr_view(end),
            inclusive,
            body: block_view(body),
        },
        Stmt::Each { var, iter, body } => StmtV::Each {
            var: var@,
            iter: expr_view(iter),
            body: block_view(body),
        },
        Stmt::Switch { value, arms, default } => StmtV::Switch {
            value: expr_view(value),
            arms: arms_view(arms@),
            default: opt_block_view(default),
        },
        Stmt::Try { body, catch_var, catch_body } => StmtV::Try {
            body: block_view(body),
            catch_var: match catch_var {
                Some(v) => Some(v@),
                None => None,
            },
            catch_body: opt_block_view(catch_body),
        },
    }
}

pub open spec fn params_view(ps: Seq<Param>) -> Seq<ParamV> {
    Seq::new(ps.len(), |i: int| ParamV { name: ps[i].name@, ty: ps[i].ty })
}

pub open spec fn function_view(f: Function) -> FunctionV {
    FunctionV {
        name: f.name@,
        params: params_view(f.params@),
        ret: f.ret,
        body: block_view(f.body),
        span: f.span,
    }
}

pub open spec fn item_view(it: Item) -> ItemV {
    match it {
        Item::Import(i) => ItemV::Import(ImportV { name: i.name@, span: i.span }),
        Item::Function(f) => ItemV::Function(function_view(f)),
        Item::Top(s) => ItemV::Top(stmt_view(s)),
    }
}

pub open spec fn program_view(p: Program) -> ProgramV {
    ProgramV { items: Seq::new(p.items@.len(), |i: int| item_view(p.items@[i])) }
}

/// The functions among `items`, in order.
pub open spec fn functions_of(items: Seq<Item>) -> Seq<Function>
    decreases items.len(),
{
    if items.len() == 0 {
        Seq::empty()
    } else {
        let rest = functions_of(items.drop_last());
        match items.last() {
            Item::Function(f) => rest.push(f),
            _ => rest,
        }
    }
}

impl Program {
    /// Whether the program defines a function named `main`.
    pub fn has_main(&self) -> (r: bool)
        ensures
            r == exists|k: int|
                0 <= k < self.items@.len() && (#[trigger] self.items@[k] matches Item::Function(f)
                    && f.name@ == "main"@),
    {
        let mut k: usize = 0;
        while k < self.items.len()
            invariant
                k <= self.items@.len(),
                forall|j: int|
                    0 <= j < k ==> !(#[trigger] self.items@[j] matches Item::Function(f) && f.name@
                        == "main"@),
            decreases self.items@.len() - k,
        {
            match &self.items[k] {
                Item::Function(f) => {
                    if crate::text::str_eq(f.name.as_str(), "main") {
                        return true;
                    }
                },
                _ => {},
            }
            k = k + 1;
        }
        false
    }

    /// The program's functions, in order.
    pub fn functions(&self) -> (r: Vec<&Function>)
        ensures
            r@.len() == functions_of(self.items@).len(),
            forall|k: int| 0 <= k < r@.len() ==> *r@[k] == functions_of(self.items@)[k],
    {
        let mut out: Vec<&Function> = Vec::new();
        let mut k: usize = 0;
        while k < self.items.len()
            invariant
                k <= self.items@.len(),
                out@.len() == functions_of(self.items@.take(k as int)).len(),
                forall|j: int|
                    0 <= j < out@.len() ==> *out@[j] == functions_of(self.items@.take(k as int))[j],
            decreases self.items@.len() - k,
        {
            assert(self.items@.take(k + 1).drop_last() =~= self.items@.take(k as int));
            match &self.items[k] {
                Item::Function(f) => {
                    out.push(f);
                },
                _ => {},
            }
            k = k + 1;
        }
        assert(self.items@.take(self.items@.len() as int) =~= self.items@);
        out
    }
}

impl View for Stmt {
    type V = StmtV;

    open spec fn view(&self) -> StmtV {
        stmt_view(*self)
    }
}

impl View for Block {
    type V = BlockV;

    open spec fn view(&self) -> BlockV {
        block_view(*self)
    }
}

impl View for Function {
    type V = FunctionV;

    open spec fn view(&self) -> FunctionV {
        function_view(*self)
    }
}

impl View for Program {
    type V = ProgramV;

    open spec fn view(&self) -> ProgramV {
        program_view(*self)
    }
}

impl Expr {
    /// The source span of this expression.
    pub fn span(&self) -> (s: Span)
        ensures
            s == espan(self@),
    {
        match self {
            Expr::Int(_, s) => *s,
            Expr::Float(_, s) => *s,
            Expr::Str(_, s) => *s,
            Expr::Bool(_, s) => *s,
            Expr::Nil(s) => *s,
            Expr::Ident(_, s) => *s,
            Expr::Call { span, .. } => *span,
            Expr::TypeTo { span, .. } => *span,
            Expr::Binary { span, .. } => *span,
            Expr::Unary { span, .. } => *span,
        }
    }
}

impl View for Expr {
    type V = ExprV;

    open spec fn view(&self) -> ExprV {
        expr_view(*self)
    }
}

} // verus!
