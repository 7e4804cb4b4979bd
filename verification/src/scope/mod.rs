//! Scope analysis for the Zero language.
//!
//! Every Zero program starts in the **highlevel** scope. A `scope highlevel
//! { ... }` block opens a nested variable scope; a `scope lowlevel { ... }`
//! block switches to raw Rust and is not analysed. Variables are dynamic:
//! `name = expr` creates or overwrites a variable, and any read must resolve
//! against the scope chain. Calls must target a builtin, an imported `io`
//! function, or a known user function with a matching arity.
//!
//! What the analyzer accepts is `an_program` of the `spec` module.

pub mod callable;
pub mod spec;

pub use callable::{FnInfo, FnTable, BUILTIN_CALL_RUST, BUILTIN_CALL_SYS};

use vstd::prelude::*;

use crate::ast::{
    opt_expr_view, arms_view, exprs_view, stmts_view, Block, BlockV, Expr, ExprV, Function, Item, Program,
    ItemV, ScopeKind, Stmt, StmtV, ZType,
};
use crate::diag::{CompileError, Span};
use crate::parser::err_is;
use crate::text::{push_decimal, push_str, str_eq};
use spec::{
    an_arms, an_block, an_expr, an_exprs, an_function, an_functions, an_opt_block, an_program,
    an_stmt, an_stmts, check_arg_types, check_call, declare, in_loop, literal_type, lookup,
    param_scope, scope_get, top_stmts, AErr, Frame, ScopeV, Unit,
};

verus! {

broadcast use vstd::seq_lib::group_seq_properties;

/// A scope's entries, viewed.
pub open spec fn scope_view(s: Seq<(String, bool)>) -> ScopeV {
    Seq::new(s.len(), |j: int| (s[j].0@, s[j].1))
}

/// The scope chain, viewed.
pub open spec fn chain_view(v: Seq<Vec<(String, bool)>>) -> Seq<ScopeV> {
    Seq::new(v.len(), |i: int| scope_view(v[i]@))
}

pub struct ScopeAnalyzer<'a> {
    /// All callable functions (user + io) known to the whole unit.
    functions: &'a FnTable,
    /// True when `import io` is active: `print`/`input_s`/`input`/`set_stream`
    /// are then treated as the standard IO API.
    io_imported: bool,
    /// The scope chain, innermost last: variable name -> immutable flag.
    scopes: Vec<Vec<(String, bool)>>,
    /// Declared return type of the function being analysed (None outside).
    current_ret: Option<ZType>,
    /// Whether a `while` / `for` / `each` loop encloses the statement being
    /// analysed, for validating `break` / `continue`.
    in_loop: bool,
    file: String,
}

impl<'a> ScopeAnalyzer<'a> {
    pub closed spec fn unit(&self) -> Unit {
        Unit { fns: self.functions@, io: self.io_imported }
    }

    pub closed spec fn frame(&self) -> Frame {
        Frame { ret: self.current_ret, in_loop: self.in_loop }
    }

    pub closed spec fn chain(&self) -> Seq<ScopeV> {
        chain_view(self.scopes@)
    }

    pub closed spec fn file_name(&self) -> Seq<char> {
        self.file@
    }

    pub closed spec fn wf(&self) -> bool {
        &&& self.functions.wf()
        &&& self.scopes@.len() >= 1
    }

    /// The analyzer is as `new` made it: one empty scope, outside any
    /// function and loop.
    pub closed spec fn fresh(&self) -> bool {
        &&& self.wf()
        &&& self.chain() == seq![Seq::<(Seq<char>, bool)>::empty()]
        &&& self.current_ret is None
        &&& !self.in_loop
    }

    /// `self` went on from `old` within the same unit and file.
    closed spec fn same_unit(&self, old: ScopeAnalyzer<'a>) -> bool {
        &&& self.functions == old.functions
        &&& self.io_imported == old.io_imported
        &&& self.file@ == old.file@
        &&& self.wf()
    }

    pub fn new(functions: &'a FnTable, file: &str, io_imported: bool) -> (a: ScopeAnalyzer<'a>)
        requires
            functions.wf(),
        ensures
            a.fresh(),
            a.unit() == (Unit { fns: functions@, io: io_imported }),
            a.file_name() == file@,
    {
        let mut scopes: Vec<Vec<(String, bool)>> = Vec::new();
        let outer: Vec<(String, bool)> = Vec::new();
        proof {
            assert(scope_view(outer@) =~= Seq::empty());
        }
        scopes.push(outer);
        let a = ScopeAnalyzer {
            functions,
            io_imported,
            scopes,
            current_ret: None,
            in_loop: false,
            file: file.to_owned(),
        };
        proof {
            assert(a.chain() =~= seq![Seq::<(Seq<char>, bool)>::empty()]);
        }
        a
    }

    fn err(&self, message: String, span: Span) -> (e: CompileError)
        ensures
            e.message@ == message@,
            e.span == Some(span),
            e.file@ == self.file@,
    {
        CompileError { message, span: Some(span), file: self.file.clone() }
    }

    /// Resolve a variable name against the scope chain (innermost first).
    fn resolve(&self, name: &str) -> (r: Option<bool>)
        ensures
            r == lookup(self.chain(), name@),
    {
        chain_lookup(&self.scopes, name)
    }

    /// Add a variable to the innermost scope.
    fn declare_var(&mut self, name: String, immutable: bool)
        requires
            old(self).wf(),
        ensures
            final(self).chain() == declare(old(self).chain(), name@, immutable),
            final(self).same_unit(*old(self)),
            final(self).frame() == old(self).frame(),
    {
        chain_declare(&mut self.scopes, name, immutable);
    }

    /// Open a fresh scope holding `vars` (all mutable).
    fn push_scope(&mut self, fresh: Vec<(String, bool)>)
        requires
            old(self).wf(),
        ensures
            final(self).chain() == old(self).chain().push(scope_view(fresh@)),
            final(self).same_unit(*old(self)),
            final(self).frame() == old(self).frame(),
    {
        self.scopes.push(fresh);
        proof {
            assert(self.chain() =~= old(self).chain().push(scope_view(fresh@)));
        }
    }

    /// Close the innermost scope, restoring the chain `outer`.
    fn pop_scope(&mut self, Ghost(outer): Ghost<Seq<ScopeV>>)
        requires
            old(self).wf(),
            old(self).scopes@.len() >= 2,
            old(self).chain().drop_last() == outer,
        ensures
            final(self).chain() == outer,
            final(self).same_unit(*old(self)),
            final(self).frame() == old(self).frame(),
    {
        let _ = self.scopes.pop();
        proof {
            assert(self.chain() =~= old(self).chain().drop_last());
        }
    }

    fn analyze_expr(&self, expr: &Expr) -> (r: Result<(), CompileError>)
        requires
            self.wf(),
        ensures
            match (an_expr(self.unit(), self.chain(), expr@), r) {
                (Ok(()), Ok(())) => true,
                (Err(pe), Err(e)) => err_is(e, pe, self.file@),
                _ => false,
            },
        decreases expr,
    {
        match expr {
            Expr::TypeTo { value, .. } => self.analyze_expr(value),
            Expr::Ident(name, span) => {
                if self.resolve(name.as_str()).is_none() {
                    proof {
                        reveal_strlit("undefined variable '");
                        reveal_strlit("'");
                    }
                    let mut m = String::from_str("undefined variable '");
                    push_str(&mut m, name.as_str());
                    push_str(&mut m, "'");
                    Err(self.err(m, *span))
                } else {
                    Ok(())
                }
            },
            Expr::Call { callee, args, span } => {
                let mut k: usize = 0;
                let ghost av = exprs_view(args@);
                proof {
                    lemma_exprs_view_index(args@);
                    assert(av.subrange(0, av.len() as int) =~= av);
                }
                while k < args.len()
                    invariant
                        self.wf(),
                        expr@ == (ExprV::Call { callee: callee@, args: av, span: *span }),
                        decreases_to!(expr => args),
                        k <= args@.len(),
                        av == exprs_view(args@),
                        av.len() == args@.len(),
                        forall|j: int| 0 <= j < args@.len() ==> #[trigger] av[j] == args@[j]@,
                        an_exprs(self.unit(), self.chain(), av) == an_exprs(
                            self.unit(),
                            self.chain(),
                            av.subrange(k as int, av.len() as int),
                        ),
                    decreases args@.len() - k,
                {
                    proof {
                        assert(av.subrange(k as int, av.len() as int).subrange(
                            1,
                            av.len() - k,
                        ) =~= av.subrange(k + 1, av.len() as int));
                    }
                    proof {
                        assert(decreases_to!(args => args@));
                        assert(decreases_to!(args@ => args@[k as int]));
                    }
                    match self.analyze_expr(&args[k]) {
                        Ok(()) => {},
                        Err(e) => {
                            return Err(e);
                        },
                    }
                    k = k + 1;
                }
                self.check_call(callee.as_str(), args, *span)
            },
            Expr::Binary { lhs, rhs, .. } => {
                match self.analyze_expr(lhs) {
                    Ok(()) => {},
                    Err(e) => {
                        return Err(e);
                    },
                }
                self.analyze_expr(rhs)
            },
            Expr::Unary { operand, .. } => self.analyze_expr(operand),
            _ => Ok(()),
        }
    }

    fn check_call(&self, callee: &str, args: &Vec<Expr>, span: Span) -> (r: Result<(), CompileError>)
        requires
            self.wf(),
        ensures
            match (check_call(self.unit(), callee@, exprs_view(args@), span), r) {
                (Ok(()), Ok(())) => true,
                (Err(pe), Err(e)) => err_is(e, pe, self.file@),
                _ => false,
            },
    {
        proof {
            lemma_exprs_view_index(args@);
            reveal_strlit("call_rust");
            reveal_strlit("call_sys");
            reveal_strlit("print");
            reveal_strlit("input");
            reveal_strlit("input_s");
            reveal_strlit("set_stream");
        }
        if str_eq(callee, BUILTIN_CALL_RUST) {
            if args.len() != 1 {
                return Err(
                    self.err(
                        String::from_str("call_rust takes exactly 1 argument (a Rust code string)"),
                        span,
                    ),
                );
            }
            return match &args[0] {
                Expr::Str(..) => Ok(()),
                other => Err(
                    self.err(
                        String::from_str("call_rust requires a string literal of Rust code"),
                        other.span(),
                    ),
                ),
            };
        }
        if str_eq(callee, BUILTIN_CALL_SYS) {
            if args.len() != 1 {
                return Err(
                    self.err(
                        String::from_str("call_sys takes exactly 1 argument (a command string)"),
                        span,
                    ),
                );
            }
            return Ok(());
        }
        if self.io_imported && (str_eq(callee, "print") || str_eq(callee, "input")) {
            if args.len() == 0 {
                let mut m = String::from_str(callee);
                push_str(&mut m, " takes a format string plus optional values");
                return Err(self.err(m, span));
            }
            return Ok(());
        }
        if self.io_imported && str_eq(callee, "input_s") {
            if args.len() != 0 {
                return Err(self.err(String::from_str("input_s takes no arguments"), span));
            }
            return Ok(());
        }
        if self.io_imported && str_eq(callee, "set_stream") {
            if args.len() < 1 || args.len() > 2 {
                return Err(
                    self.err(
                        String::from_str(
                            "set_stream takes a stream type ('shell' or 'file') and an optional filename",
                        ),
                        span,
                    ),
                );
            }
            return Ok(());
        }
        match self.functions.get(callee) {
            Some(info) => {
                match info.arity {
                    Some(k) => {
                        if args.len() != k {
                            proof {
                                reveal_strlit("function '");
                                reveal_strlit("' takes ");
                                reveal_strlit(" argument(s), found ");
                            }
                            let mut m = String::from_str("function '");
                            push_str(&mut m, callee);
                            push_str(&mut m, "' takes ");
                            push_decimal(&mut m, k as u64);
                            push_str(&mut m, " argument(s), found ");
                            push_decimal(&mut m, args.len() as u64);
                            return Err(self.err(m, span));
                        }
                    },
                    None => {},
                }
                self.check_arg_types(callee, args, info, span)
            },
            None => {
                proof {
                    reveal_strlit("unknown function '");
                    reveal_strlit("'");
                }
                let mut m = String::from_str("unknown function '");
                push_str(&mut m, callee);
                push_str(&mut m, "'");
                Err(self.err(m, span))
            },
        }
    }

    /// Statically check literal arguments against declared parameter types.
    /// Non-literal (dynamic) arguments are left to runtime checks.
    fn check_arg_types(&self, callee: &str, args: &Vec<Expr>, info: &FnInfo, span: Span) -> (r:
        Result<(), CompileError>)
        ensures
            match (check_arg_types(callee@, exprs_view(args@), info.params@, span, 0), r) {
                (Ok(()), Ok(())) => true,
                (Err(pe), Err(e)) => err_is(e, pe, self.file@),
                _ => false,
            },
    {
        let ghost av = exprs_view(args@);
        proof {
            lemma_exprs_view_index(args@);
        }
        let mut i: usize = 0;
        while i < args.len() && i < info.params.len()
            invariant
                i <= args@.len(),
                av == exprs_view(args@),
                av.len() == args@.len(),
                forall|j: int| 0 <= j < args@.len() ==> #[trigger] av[j] == args@[j]@,
                check_arg_types(callee@, av, info.params@, span, 0) == check_arg_types(
                    callee@,
                    av,
                    info.params@,
                    span,
                    i as int,
                ),
            decreases args@.len() - i,
        {
            match (info.params[i], literal_type_of(&args[i])) {
                (Some(declared), Some(found)) => {
                    if !same_type(declared, found) {
                        proof {
                            reveal_strlit("argument ");
                            reveal_strlit(" of '");
                            reveal_strlit("' expects ");
                            reveal_strlit(", found ");
                        }
                        let mut m = String::from_str("argument ");
                        push_decimal(&mut m, (i + 1) as u64);
                        push_str(&mut m, " of '");
                        push_str(&mut m, callee);
                        push_str(&mut m, "' expects ");
                        push_str(&mut m, declared.name());
                        push_str(&mut m, ", found ");
                        push_str(&mut m, found.name());
                        return Err(self.err(m, span));
                    }
                },
                _ => {},
            }
            i = i + 1;
        }
        Ok(())
    }
}

impl<'a> ScopeAnalyzer<'a> {
    /// `self` went on from `old` with the chain's outer scopes as they were
    /// and as many scopes.
    closed spec fn same_outer(&self, old: ScopeAnalyzer<'a>) -> bool {
        &&& self.same_unit(old)
        &&& self.frame() == old.frame()
        &&& self.chain().len() == old.chain().len()
        &&& self.chain().drop_last() == old.chain().drop_last()
    }

    fn analyze_stmts(&mut self, stmts: &Vec<Stmt>) -> (r: Result<(), CompileError>)
        requires
            old(self).wf(),
        ensures
            final(self).same_outer(*old(self)),
            match (an_stmts(old(self).unit(), old(self).frame(), old(self).chain(), stmts_view(stmts@)), r) {
                (Ok(c), Ok(())) => final(self).chain() == c,
                (Err(pe), Err(e)) => err_is(e, pe, old(self).file@),
                _ => false,
            },
        decreases stmts, 0int,
    {
        let ghost sv = stmts_view(stmts@);
        let ghost u = self.unit();
        let ghost f = self.frame();
        let ghost c0 = self.chain();
        proof {
            lemma_stmts_view_index(stmts@);
            assert(sv.subrange(0, sv.len() as int) =~= sv);
        }
        let mut k: usize = 0;
        while k < stmts.len()
            invariant
                self.same_outer(*old(self)),
                u == self.unit(),
                f == self.frame(),
                c0 == old(self).chain(),
                u == old(self).unit(),
                f == old(self).frame(),
                k <= stmts@.len(),
                sv == stmts_view(stmts@),
                sv.len() == stmts@.len(),
                forall|j: int| 0 <= j < stmts@.len() ==> #[trigger] sv[j] == stmts@[j]@,
                an_stmts(u, f, c0, sv) == an_stmts(u, f, self.chain(), sv.subrange(k as int, sv.len() as int)),
            decreases stmts@.len() - k,
        {
            proof {
                assert(sv.subrange(k as int, sv.len() as int).subrange(1, sv.len() - k) =~= sv.subrange(
                    k + 1,
                    sv.len() as int,
                ));
                assert(decreases_to!(stmts => stmts@));
                assert(decreases_to!(stmts@ => stmts@[k as int]));
            }
            match self.analyze_stmt(&stmts[k]) {
                Ok(()) => {},
                Err(e) => {
                    return Err(e);
                },
            }
            k = k + 1;
        }
        Ok(())
    }

    /// What analysing statement `st` from `old` must give: the result that
    /// `an_stmt` gives, with the outer scopes untouched.
    closed spec fn stmt_done(&self, old: ScopeAnalyzer<'a>, st: StmtV, r: Result<(), CompileError>) -> bool {
        &&& self.same_outer(old)
        &&& match (an_stmt(old.unit(), old.frame(), old.chain(), st), r) {
            (Ok(c), Ok(())) => self.chain() == c,
            (Err(pe), Err(e)) => err_is(e, pe, old.file@),
            _ => false,
        }
    }

    fn analyze_stmt(&mut self, stmt: &Stmt) -> (r: Result<(), CompileError>)
        requires
            old(self).wf(),
        ensures
            final(self).stmt_done(*old(self), stmt@, r),
        decreases stmt, 1int,
    {
        match stmt {
            Stmt::Assign { name, value, is_const, span } => self.analyze_assign(
                name,
                value,
                *is_const,
                *span,
            ),
            Stmt::Expr(expr) => self.analyze_expr(expr),
            Stmt::Return { value } => self.analyze_return(value),
            Stmt::Break { span } => {
                if !self.in_loop {
                    return Err(self.err(String::from_str("'break' outside of a loop"), *span));
                }
                Ok(())
            },
            Stmt::Continue { span } => {
                if !self.in_loop {
                    return Err(self.err(String::from_str("'continue' outside of a loop"), *span));
                }
                Ok(())
            },
            Stmt::Scope { .. } => self.analyze_scope(stmt),
            Stmt::If { .. } => self.analyze_if(stmt),
            Stmt::While { .. } => self.analyze_loop(stmt),
            Stmt::For { .. } => self.analyze_loop(stmt),
            Stmt::Each { .. } => self.analyze_loop(stmt),
            Stmt::Switch { .. } => self.analyze_switch(stmt),
            Stmt::Try { .. } => self.analyze_try(stmt),
        }
    }

    /// `name = value` (`<const>` when `is_const`): update the nearest
    /// existing binding, otherwise create a variable in the current scope.
    fn analyze_assign(&mut self, name: &String, value: &Expr, is_const: bool, span: Span) -> (r: Result<
        (),
        CompileError,
    >)
        requires
            old(self).wf(),
        ensures
            final(self).stmt_done(
                *old(self),
                StmtV::Assign { name: name@, value: value@, is_const, span },
                r,
            ),
    {
        let ghost c0 = self.chain();
        match self.analyze_expr(value) {
            Ok(()) => {},
            Err(e) => {
                return Err(e);
            },
        }
        let existing = self.resolve(name.as_str());
        match existing {
            Some(flag) => {
                if is_const {
                    proof {
                        reveal_strlit("cannot declare immutable variable '");
                        reveal_strlit("': it already exists");
                    }
                    let mut m = String::from_str("cannot declare immutable variable '");
                    push_str(&mut m, name.as_str());
                    push_str(&mut m, "': it already exists");
                    return Err(self.err(m, span));
                }
                if flag {
                    proof {
                        reveal_strlit("cannot assign to immutable variable '");
                        reveal_strlit("'");
                    }
                    let mut m = String::from_str("cannot assign to immutable variable '");
                    push_str(&mut m, name.as_str());
                    push_str(&mut m, "'");
                    return Err(self.err(m, span));
                }
                Ok(())
            },
            None => {
                self.declare_var(name.clone(), is_const);
                proof {
                    assert(self.chain().drop_last() =~= c0.drop_last());
                }
                Ok(())
            },
        }
    }

    /// `return [value]`: a literal value must match the declared return type.
    fn analyze_return(&self, value: &Option<Expr>) -> (r: Result<(), CompileError>)
        requires
            self.wf(),
        ensures
            match (an_stmt(self.unit(), self.frame(), self.chain(), StmtV::Return { value: opt_expr_view(*value) }), r) {
                (Ok(c), Ok(())) => c == self.chain(),
                (Err(pe), Err(e)) => err_is(e, pe, self.file@),
                _ => false,
            },
    {
        match value {
            None => Ok(()),
            Some(e) => {
                match self.analyze_expr(e) {
                    Ok(()) => {},
                    Err(err) => {
                        return Err(err);
                    },
                }
                match (self.current_ret, literal_type_of(e)) {
                    (Some(declared), Some(found)) => {
                        if !same_type(declared, found) {
                            proof {
                                reveal_strlit("function returns ");
                                reveal_strlit(", but declared to return ");
                            }
                            let mut m = String::from_str("function returns ");
                            push_str(&mut m, found.name());
                            push_str(&mut m, ", but declared to return ");
                            push_str(&mut m, declared.name());
                            return Err(self.err(m, e.span()));
                        }
                        Ok(())
                    },
                    _ => Ok(()),
                }
            },
        }
    }

    fn analyze_scope(&mut self, stmt: &Stmt) -> (r: Result<(), CompileError>)
        requires
            old(self).wf(),
            stmt is Scope,
        ensures
            final(self).stmt_done(*old(self), stmt@, r),
        decreases stmt, 0int,
    {
        let ghost c0 = self.chain();
        match stmt {
            Stmt::Scope { kind, block, span } => match kind {
                ScopeKind::HighLevel => match block {
                    Block::Stmts(stmts) => {
                        self.push_scope(Vec::new());
                        proof {
                            assert(scope_view(Seq::<(String, bool)>::empty()) =~= Seq::empty());
                            assert(self.chain().drop_last() =~= c0);
                        }
                        let r = self.analyze_stmts(stmts);
                        self.pop_scope(Ghost(c0));
                        r
                    },
                    Block::Raw(_) => Err(
                        self.err(String::from_str("highlevel scope cannot contain raw code"), *span),
                    ),
                },
                ScopeKind::LowLevel => Ok(()),
            },
            _ => Ok(()),
        }
    }

    fn analyze_if(&mut self, stmt: &Stmt) -> (r: Result<(), CompileError>)
        requires
            old(self).wf(),
            stmt is If,
        ensures
            final(self).stmt_done(*old(self), stmt@, r),
        decreases stmt, 0int,
    {
        match stmt {
            Stmt::If { cond, then, else_ifs, else_branch } => {
                match self.analyze_expr(cond) {
                    Ok(()) => {},
                    Err(e) => {
                        return Err(e);
                    },
                }
                match self.analyze_block(then, None) {
                    Ok(()) => {},
                    Err(e) => {
                        return Err(e);
                    },
                }
                match self.analyze_arms(else_ifs) {
                    Ok(()) => {},
                    Err(e) => {
                        return Err(e);
                    },
                }
                match else_branch {
                    Some(b) => self.analyze_block(b, None),
                    None => Ok(()),
                }
            },
            _ => Ok(()),
        }
    }

    /// `while`, `for` and `each`: the body is analysed inside a loop.
    fn analyze_loop(&mut self, stmt: &Stmt) -> (r: Result<(), CompileError>)
        requires
            old(self).wf(),
            stmt is While || stmt is For || stmt is Each,
        ensures
            final(self).stmt_done(*old(self), stmt@, r),
        decreases stmt, 0int,
    {
        let saved = self.in_loop;
        match stmt {
            Stmt::While { cond, body } => {
                match self.analyze_expr(cond) {
                    Ok(()) => {},
                    Err(e) => {
                        return Err(e);
                    },
                }
                self.in_loop = true;
                let r = self.analyze_block(body, None);
                self.in_loop = saved;
                r
            },
            Stmt::For { var, start, end, body, .. } => {
                match self.analyze_expr(start) {
                    Ok(()) => {},
                    Err(e) => {
                        return Err(e);
                    },
                }
                match self.analyze_expr(end) {
                    Ok(()) => {},
                    Err(e) => {
                        return Err(e);
                    },
                }
                self.in_loop = true;
                let r = self.analyze_block(body, Some(var.as_str()));
                self.in_loop = saved;
                r
            },
            Stmt::Each { var, iter, body } => {
                match self.analyze_expr(iter) {
                    Ok(()) => {},
                    Err(e) => {
                        return Err(e);
                    },
                }
                self.in_loop = true;
                let r = self.analyze_block(body, Some(var.as_str()));
                self.in_loop = saved;
                r
            },
            _ => Ok(()),
        }
    }

    fn analyze_switch(&mut self, stmt: &Stmt) -> (r: Result<(), CompileError>)
        requires
            old(self).wf(),
            stmt is Switch,
        ensures
            final(self).stmt_done(*old(self), stmt@, r),
        decreases stmt, 0int,
    {
        match stmt {
            Stmt::Switch { value, arms, default } => {
                match self.analyze_expr(value) {
                    Ok(()) => {},
                    Err(e) => {
                        return Err(e);
                    },
                }
                match self.analyze_arms(arms) {
                    Ok(()) => {},
                    Err(e) => {
                        return Err(e);
                    },
                }
                match default {
                    Some(b) => self.analyze_block(b, None),
                    None => Ok(()),
                }
            },
            _ => Ok(()),
        }
    }

    fn analyze_try(&mut self, stmt: &Stmt) -> (r: Result<(), CompileError>)
        requires
            old(self).wf(),
            stmt is Try,
        ensures
            final(self).stmt_done(*old(self), stmt@, r),
        decreases stmt, 0int,
    {
        match stmt {
            Stmt::Try { body, catch_var, catch_body } => {
                match self.analyze_block(body, None) {
                    Ok(()) => {},
                    Err(e) => {
                        return Err(e);
                    },
                }
                match catch_body {
                    Some(b) => {
                        let extra = match catch_var {
                            Some(v) => Some(v.as_str()),
                            None => None,
                        };
                        self.analyze_block(b, extra)
                    },
                    None => Ok(()),
                }
            },
            _ => Ok(()),
        }
    }

    /// Condition (or value) and body of each arm, in order.
    fn analyze_arms(&mut self, arms: &Vec<(Expr, Block)>) -> (r: Result<(), CompileError>)
        requires
            old(self).wf(),
        ensures
            final(self).same_unit(*old(self)),
            final(self).frame() == old(self).frame(),
            final(self).chain() == old(self).chain(),
            match (an_arms(old(self).unit(), old(self).frame(), old(self).chain(), arms_view(arms@)), r) {
                (Ok(()), Ok(())) => true,
                (Err(pe), Err(e)) => err_is(e, pe, old(self).file@),
                _ => false,
            },
        decreases arms, 0int,
    {
        let ghost av = arms_view(arms@);
        let ghost u = self.unit();
        let ghost f = self.frame();
        let ghost c0 = self.chain();
        proof {
            lemma_arms_view_index(arms@);
            assert(av.subrange(0, av.len() as int) =~= av);
        }
        let mut k: usize = 0;
        while k < arms.len()
            invariant
                self.same_unit(*old(self)),
                u == self.unit(),
                f == self.frame(),
                c0 == self.chain(),
                c0 == old(self).chain(),
                u == old(self).unit(),
                f == old(self).frame(),
                k <= arms@.len(),
                av == arms_view(arms@),
                av.len() == arms@.len(),
                forall|j: int| 0 <= j < arms@.len() ==> #[trigger] av[j] == (arms@[j].0@, arms@[j].1@),
                an_arms(u, f, c0, av) == an_arms(u, f, c0, av.subrange(k as int, av.len() as int)),
            decreases arms@.len() - k,
        {
            proof {
                assert(av.subrange(k as int, av.len() as int).subrange(1, av.len() - k) =~= av.subrange(
                    k + 1,
                    av.len() as int,
                ));
                assert(decreases_to!(arms => arms@));
                assert(decreases_to!(arms@ => arms@[k as int]));
                assert(decreases_to!(arms@[k as int] => arms@[k as int].1));
            }
            match self.analyze_expr(&arms[k].0) {
                Ok(()) => {},
                Err(e) => {
                    return Err(e);
                },
            }
            match self.analyze_block(&arms[k].1, None) {
                Ok(()) => {},
                Err(e) => {
                    return Err(e);
                },
            }
            k = k + 1;
        }
        Ok(())
    }

    /// Analyse a block in a fresh scope; `extra` names a variable that is
    /// pre-declared in that scope (loop/catch variables).
    fn analyze_block(&mut self, block: &Block, extra: Option<&str>) -> (r: Result<(), CompileError>)
        requires
            old(self).wf(),
        ensures
            final(self).same_unit(*old(self)),
            final(self).frame() == old(self).frame(),
            final(self).chain() == old(self).chain(),
            match (
                an_block(old(self).unit(), old(self).frame(), old(self).chain(), block@, opt_str_view(extra)),
                r,
            ) {
                (Ok(()), Ok(())) => true,
                (Err(pe), Err(e)) => err_is(e, pe, old(self).file@),
                _ => false,
            },
        decreases block, 0int,
    {
        let ghost c0 = self.chain();
        match block {
            Block::Stmts(stmts) => {
                let mut fresh: Vec<(String, bool)> = Vec::new();
                match extra {
                    Some(v) => {
                        fresh.push((v.to_owned(), false));
                    },
                    None => {},
                }
                proof {
                    match extra {
                        Some(v) => {
                            assert(scope_view(fresh@) =~= seq![(v@, false)]);
                        },
                        None => {
                            assert(scope_view(fresh@) =~= Seq::empty());
                        },
                    }
                }
                self.push_scope(fresh);
                proof {
                    assert(self.chain().drop_last() =~= c0);
                }
                let r = self.analyze_stmts(stmts);
                self.pop_scope(Ghost(c0));
                r
            },
            Block::Raw(_) => Ok(()),
        }
    }
}

impl<'a> ScopeAnalyzer<'a> {
    /// Analyse every function and the top-level statements of `prog`.
    pub fn analyze_program(&mut self, prog: &Program) -> (r: Result<(), CompileError>)
        requires
            old(self).fresh(),
        ensures
            final(self).fresh(),
            final(self).unit() == old(self).unit(),
            final(self).file_name() == old(self).file_name(),
            match (an_program(old(self).unit(), prog@.items), r) {
                (Ok(()), Ok(())) => true,
                (Err(pe), Err(e)) => err_is(e, pe, old(self).file_name()),
                _ => false,
            },
    {
        let ghost iv = prog@.items;
        let tops = top_level(prog);
        if tops.len() > 0 {
            match self.analyze_top(&tops) {
                Ok(()) => {},
                Err(e) => {
                    return Err(e);
                },
            }
        }
        let ghost u = self.unit();
        let mut k: usize = 0;
        while k < prog.items.len()
            invariant
                self.fresh(),
                self.same_unit(*old(self)),
                u == old(self).unit(),
                iv == prog@.items,
                an_program(u, iv) == an_functions(u, iv, 0),
                iv.len() == prog.items@.len(),
                k <= prog.items@.len(),
                an_functions(u, iv, 0) == an_functions(u, iv, k as int),
            decreases prog.items@.len() - k,
        {
            match &prog.items[k] {
                Item::Function(f) => {
                    match self.analyze_function(f) {
                        Ok(()) => {},
                        Err(e) => {
                            return Err(e);
                        },
                    }
                },
                _ => {},
            }
            k = k + 1;
        }
        Ok(())
    }

    /// The top-level statements, analysed as one block.
    fn analyze_top(&mut self, tops: &Vec<&Stmt>) -> (r: Result<(), CompileError>)
        requires
            old(self).fresh(),
        ensures
            final(self).fresh(),
            final(self).same_unit(*old(self)),
            match (
                an_block(
                    old(self).unit(),
                    old(self).frame(),
                    old(self).chain(),
                    BlockV::Stmts(Seq::new(tops@.len(), |j: int| (*tops@[j])@)),
                    None,
                ),
                r,
            ) {
                (Ok(()), Ok(())) => true,
                (Err(pe), Err(e)) => err_is(e, pe, old(self).file@),
                _ => false,
            },
    {
        let ghost sv = Seq::new(tops@.len(), |j: int| (*tops@[j])@);
        let ghost u = self.unit();
        let ghost f = self.frame();
        let ghost c0 = self.chain();
        self.push_scope(Vec::new());
        proof {
            assert(scope_view(Seq::<(String, bool)>::empty()) =~= Seq::empty());
            assert(self.chain().drop_last() =~= c0);
            assert(sv.subrange(0, sv.len() as int) =~= sv);
        }
        let ghost c1 = self.chain();
        let mut k: usize = 0;
        while k < tops.len()
            invariant
                self.wf(),
                self.same_unit(*old(self)),
                u == self.unit(),
                f == self.frame(),
                u == old(self).unit(),
                f == old(self).frame(),
                c0 == old(self).chain(),
                old(self).fresh(),
                self.scopes@.len() == self.chain().len(),
                c1 == c0.push(Seq::empty()),
                self.chain().len() == c1.len(),
                self.chain().drop_last() == c0,
                k <= tops@.len(),
                sv == Seq::new(tops@.len(), |j: int| (*tops@[j])@),
                an_stmts(u, f, c1, sv) == an_stmts(u, f, self.chain(), sv.subrange(k as int, sv.len() as int)),
            decreases tops@.len() - k,
        {
            proof {
                assert(sv.subrange(k as int, sv.len() as int).subrange(1, sv.len() - k) =~= sv.subrange(
                    k + 1,
                    sv.len() as int,
                ));
            }
            match self.analyze_stmt(tops[k]) {
                Ok(()) => {},
                Err(e) => {
                    self.pop_scope(Ghost(c0));
                    return Err(e);
                },
            }
            k = k + 1;
        }
        self.pop_scope(Ghost(c0));
        Ok(())
    }

    fn analyze_function(&mut self, f: &Function) -> (r: Result<(), CompileError>)
        requires
            old(self).fresh(),
        ensures
            final(self).fresh(),
            final(self).same_unit(*old(self)),
            match (an_function(old(self).unit(), old(self).chain(), f@), r) {
                (Ok(()), Ok(())) => true,
                (Err(pe), Err(e)) => err_is(e, pe, old(self).file@),
                _ => false,
            },
    {
        let ghost c0 = self.chain();
        let stmts = match &f.body {
            Block::Stmts(stmts) => stmts,
            Block::Raw(_) => {
                return Err(
                    self.err(String::from_str("function body must be a highlevel block"), f.span),
                );
            },
        };
        // Function bodies open a fresh highlevel scope; parameters are in
        // scope and may be reassigned.
        let mut scope: Vec<(String, bool)> = Vec::new();
        let mut k: usize = 0;
        while k < f.params.len()
            invariant
                k <= f.params@.len(),
                scope@.len() == k,
                forall|j: int| 0 <= j < k ==> #[trigger] scope@[j] == (f.params@[j].name, false),
            decreases f.params@.len() - k,
        {
            scope.push((f.params[k].name.clone(), false));
            k = k + 1;
        }
        proof {
            assert(scope_view(scope@) =~= param_scope(f@));
        }
        self.push_scope(scope);
        self.current_ret = f.ret;
        proof {
            assert(self.chain().drop_last() =~= c0);
        }
        let r = self.analyze_stmts(stmts);
        self.current_ret = None;
        self.pop_scope(Ghost(c0));
        r
    }
}

/// References to the top-level statements of a program, in order.
pub fn top_level(prog: &Program) -> (r: Vec<&Stmt>)
    ensures
        Seq::new(r@.len(), |j: int| (*r@[j])@) == top_stmts(prog@.items),
{
    let ghost iv = prog@.items;
    let mut out: Vec<&Stmt> = Vec::new();
    let mut k: usize = 0;
    proof {
        assert(iv.take(0) =~= Seq::<ItemV>::empty());
        assert(Seq::new(out@.len(), |j: int| (*out@[j])@) =~= top_stmts(iv.take(0)));
    }
    while k < prog.items.len()
        invariant
            iv == prog@.items,
            iv.len() == prog.items@.len(),
            k <= prog.items@.len(),
            Seq::new(out@.len(), |j: int| (*out@[j])@) == top_stmts(iv.take(k as int)),
        decreases prog.items@.len() - k,
    {
        proof {
            assert(iv.take(k + 1).drop_last() =~= iv.take(k as int));
            assert(iv.take(k + 1).last() == crate::ast::item_view(prog.items@[k as int]));
        }
        let ghost before = out@;
        match &prog.items[k] {
            Item::Top(st) => {
                out.push(st);
                proof {
                    assert(Seq::new(out@.len(), |j: int| (*out@[j])@) =~= Seq::new(
                        before.len(),
                        |j: int| (*before[j])@,
                    ).push(st@));
                }
            },
            _ => {},
        }
        k = k + 1;
    }
    proof {
        assert(iv.take(iv.len() as int) =~= iv);
    }
    out
}

/// An optional string slice, viewed.
pub open spec fn opt_str_view(s: Option<&str>) -> Option<Seq<char>> {
    match s {
        Some(v) => Some(v@),
        None => None,
    }
}

/// Each element of `arms_view` is the view of the corresponding arm.
pub proof fn lemma_arms_view_index(arms: Seq<(Expr, Block)>)
    ensures
        arms_view(arms).len() == arms.len(),
        forall|j: int| 0 <= j < arms.len() ==> #[trigger] arms_view(arms)[j] == (arms[j].0@, arms[j].1@),
    decreases arms.len(),
{
    if arms.len() > 0 {
        lemma_arms_view_index(arms.subrange(0, arms.len() - 1));
    }
}

/// Resolve `name` against a scope chain, innermost scope first.
pub fn chain_lookup(scopes: &Vec<Vec<(String, bool)>>, name: &str) -> (r: Option<bool>)
    ensures
        r == lookup(chain_view(scopes@), name@),
{
    let ghost chain = chain_view(scopes@);
    let mut i = scopes.len();
    proof {
        assert(chain.take(i as int) =~= chain);
    }
    while i > 0
        invariant
            i <= scopes@.len(),
            chain == chain_view(scopes@),
            lookup(chain, name@) == lookup(chain.take(i as int), name@),
        decreases i,
    {
        let scope = &scopes[i - 1];
        let ghost sv = scope_view(scope@);
        let mut j: usize = 0;
        proof {
            assert(sv.subrange(0, sv.len() as int) =~= sv);
        }
        while j < scope.len()
            invariant
                1 <= i <= scopes@.len(),
                chain == chain_view(scopes@),
                lookup(chain, name@) == lookup(chain.take(i as int), name@),
                scope@ == scopes@[i - 1]@,
                j <= scope@.len(),
                sv == scope_view(scope@),
                scope_get(sv, name@) == scope_get(sv.subrange(j as int, sv.len() as int), name@),
            decreases scope@.len() - j,
        {
            proof {
                assert(sv.subrange(j as int, sv.len() as int).subrange(1, sv.len() - j) =~= sv.subrange(
                    j + 1,
                    sv.len() as int,
                ));
            }
            if str_eq(scope[j].0.as_str(), name) {
                let flag = scope[j].1;
                proof {
                    assert(chain.take(i as int).last() == sv);
                }
                return Some(flag);
            }
            j = j + 1;
        }
        proof {
            assert(chain.take(i as int).last() == sv);
            assert(chain.take(i as int).drop_last() =~= chain.take(i - 1));
        }
        i = i - 1;
    }
    None
}

/// A scope chain with `name` added to its innermost scope.
pub fn chain_declare(scopes: &mut Vec<Vec<(String, bool)>>, name: String, immutable: bool)
    requires
        old(scopes)@.len() >= 1,
    ensures
        final(scopes)@.len() == old(scopes)@.len(),
        final(scopes)@.drop_last() == old(scopes)@.drop_last(),
        chain_view(final(scopes)@) == declare(chain_view(old(scopes)@), name@, immutable),
{
    let ghost before = chain_view(scopes@);
    let mut cur = match scopes.pop() {
        Some(s) => s,
        None => Vec::new(),
    };
    cur.push((name, immutable));
    scopes.push(cur);
    proof {
        assert(scope_view(cur@) =~= before.last().push((name@, immutable)));
        assert(chain_view(scopes@) =~= declare(before, name@, immutable));
        assert(scopes@.drop_last() =~= old(scopes)@.drop_last());
    }
}

/// The static type of a literal expression, if it has one.
fn literal_type_of(expr: &Expr) -> (r: Option<ZType>)
    ensures
        r == literal_type(expr@),
{
    match expr {
        Expr::Int(..) => Some(ZType::Int),
        Expr::Float(..) => Some(ZType::Float),
        Expr::Str(..) => Some(ZType::Str),
        Expr::Bool(..) => Some(ZType::Bool),
        _ => None,
    }
}

fn same_type(a: ZType, b: ZType) -> (r: bool)
    ensures
        r == (a == b),
{
    a == b
}

/// Each element of `exprs_view` is the view of the corresponding expression.
pub proof fn lemma_exprs_view_index(es: Seq<Expr>)
    ensures
        exprs_view(es).len() == es.len(),
        forall|j: int| 0 <= j < es.len() ==> #[trigger] exprs_view(es)[j] == es[j]@,
    decreases es.len(),
{
    if es.len() > 0 {
        lemma_exprs_view_index(es.subrange(0, es.len() - 1));
    }
}

/// Each element of `stmts_view` is the view of the corresponding statement.
pub proof fn lemma_stmts_view_index(ss: Seq<Stmt>)
    ensures
        stmts_view(ss).len() == ss.len(),
        forall|j: int| 0 <= j < ss.len() ==> #[trigger] stmts_view(ss)[j] == ss[j]@,
    decreases ss.len(),
{
    if ss.len() > 0 {
        lemma_stmts_view_index(ss.subrange(0, ss.len() - 1));
    }
}

} // verus!
