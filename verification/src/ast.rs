//! The syntax tree, and its mathematical form.
use vstd::prelude::*;

verus! {

/// Arithmetic, comparison and unary operators.
#[derive(Debug, Clone, Copy, PartialEq, Eq, Structural)]
pub enum Op {
    Add,
    Sub,
    Mul,
    Div,
    Mod,
    Eq,
    Ne,
    Lt,
    Le,
    Gt,
    Ge,
    Neg,
    Not,
}

/// Short-circuit operators.
#[derive(Debug, Clone, Copy, PartialEq, Eq, Structural)]
pub enum LogicOp {
    And,
    Or,
}

/// An expression.
#[derive(Debug, PartialEq)]
pub enum Expr {
    NoneVal,
    Bool(bool),
    Int(i64),
    /// A float literal, kept as its source text.
    Float(String),
    String(String),
    FString(String),
    Name(String),
    List(Vec<Expr>),
    Dict(Vec<(Expr, Expr)>),
    Tuple(Vec<Expr>),
    /// `[elt for target in iter if cond]`
    ListComp(Box<Expr>, Box<Expr>, Box<Expr>, Option<Box<Expr>>),
    Lambda(Vec<String>, Box<Expr>),
    BinOp(Op, Box<Expr>, Box<Expr>),
    UnaryOp(Op, Box<Expr>),
    Compare(Op, Box<Expr>, Box<Expr>),
    Logical(LogicOp, Box<Expr>, Box<Expr>),
    /// A call: callee, positional arguments, keyword arguments.
    Call(Box<Expr>, Vec<Expr>, Vec<(String, Expr)>),
    Attribute(Box<Expr>, String),
    Subscript(Box<Expr>, Box<Expr>),
}

/// A statement.
#[derive(Debug, PartialEq)]
pub enum Stmt {
    Expr(Expr),
    /// An assignment; an augmented one (`x += e`) is stored as `x = x + e`.
    Assign(Expr, Expr),
    If(Expr, Vec<Stmt>, Vec<Stmt>),
    While(Expr, Vec<Stmt>),
    For(Expr, Expr, Vec<Stmt>),
    /// Name, parameters with optional defaults, `*args` name, `**kwargs` name, body.
    FunctionDef(String, Vec<(String, Option<Expr>)>, Option<String>, Option<String>, Vec<Stmt>),
    ClassDef(String, Option<Expr>, Vec<Stmt>),
    /// Body and handlers: exception names, bound name, handler body.
    Try(Vec<Stmt>, Vec<(Vec<String>, Option<String>, Vec<Stmt>)>),
    Raise(Expr),
    Import(String),
    /// Module, imported names, and the number of leading dots.
    FromImport(String, Vec<String>, usize),
    Return(Option<Expr>),
    Break,
    Continue,
    Pass,
    /// `@d` on the line before a `def` or `class` (or another decorator).
    Decorated(Expr, Box<Stmt>),
    /// `yield`, with its value when one is given.
    Yield(Option<Expr>),
}

/// The mathematical form of an expression.
pub enum SExpr {
    NoneVal,
    Bool(bool),
    Int(int),
    Float(Seq<char>),
    Str(Seq<char>),
    FString(Seq<char>),
    Name(Seq<char>),
    List(Seq<SExpr>),
    Dict(Seq<(SExpr, SExpr)>),
    Tuple(Seq<SExpr>),
    ListComp(Box<SExpr>, Box<SExpr>, Box<SExpr>, Option<Box<SExpr>>),
    Lambda(Seq<Seq<char>>, Box<SExpr>),
    BinOp(Op, Box<SExpr>, Box<SExpr>),
    UnaryOp(Op, Box<SExpr>),
    Compare(Op, Box<SExpr>, Box<SExpr>),
    Logical(LogicOp, Box<SExpr>, Box<SExpr>),
    Call(Box<SExpr>, Seq<SExpr>, Seq<(Seq<char>, SExpr)>),
    Attribute(Box<SExpr>, Seq<char>),
    Subscript(Box<SExpr>, Box<SExpr>),
}

/// The mathematical form of a statement.
pub enum SStmt {
    Expr(SExpr),
    Assign(SExpr, SExpr),
    If(SExpr, Seq<SStmt>, Seq<SStmt>),
    While(SExpr, Seq<SStmt>),
    For(SExpr, SExpr, Seq<SStmt>),
    FunctionDef(Seq<char>, Seq<(Seq<char>, Option<SExpr>)>, Option<Seq<char>>, Option<Seq<char>>, Seq<SStmt>),
    ClassDef(Seq<char>, Option<SExpr>, Seq<SStmt>),
    Try(Seq<SStmt>, Seq<(Seq<Seq<char>>, Option<Seq<char>>, Seq<SStmt>)>),
    Raise(SExpr),
    Import(Seq<char>),
    FromImport(Seq<char>, Seq<Seq<char>>, int),
    Return(Option<SExpr>),
    Break,
    Continue,
    Pass,
    Decorated(SExpr, Box<SStmt>),
    Yield(Option<SExpr>),
}

pub open spec fn strs_view(s: Seq<String>) -> Seq<Seq<char>> {
    s.map_values(|x: String| x@)
}

pub open spec fn opt_str_view(o: Option<String>) -> Option<Seq<char>> {
    match o {
        Some(s) => Some(s@),
        None => None,
    }
}

pub open spec fn exprs_view(s: Seq<Expr>) -> Seq<SExpr>
    decreases s, 1nat,
{
    if s.len() == 0 {
        Seq::empty()
    } else {
        exprs_view(s.drop_last()).push(s.last().sv())
    }
}

pub open spec fn pairs_view(s: Seq<(Expr, Expr)>) -> Seq<(SExpr, SExpr)>
    decreases s, 1nat,
{
    if s.len() == 0 {
        Seq::empty()
    } else {
        pairs_view(s.drop_last()).push((s.last().0.sv(), s.last().1.sv()))
    }
}

pub open spec fn kwargs_view(s: Seq<(String, Expr)>) -> Seq<(Seq<char>, SExpr)>
    decreases s, 1nat,
{
    if s.len() == 0 {
        Seq::empty()
    } else {
        kwargs_view(s.drop_last()).push((s.last().0@, s.last().1.sv()))
    }
}

impl Expr {
    /// The mathematical form of the expression.
    pub open spec fn sv(&self) -> SExpr
        decreases self, 0nat,
    {
        match self {
            Expr::NoneVal => SExpr::NoneVal,
            Expr::Bool(b) => SExpr::Bool(*b),
            Expr::Int(i) => SExpr::Int(*i as int),
            Expr::Float(s) => SExpr::Float(s@),
            Expr::String(s) => SExpr::Str(s@),
            Expr::FString(s) => SExpr::FString(s@),
            Expr::Name(s) => SExpr::Name(s@),
            Expr::List(v) => SExpr::List(exprs_view(v@)),
            Expr::Dict(v) => SExpr::Dict(pairs_view(v@)),
            Expr::Tuple(v) => SExpr::Tuple(exprs_view(v@)),
            Expr::ListComp(a, b, c, d) => SExpr::ListComp(
                Box::new(a.sv()),
                Box::new(b.sv()),
                Box::new(c.sv()),
                match d {
                    Some(x) => Some(Box::new(x.sv())),
                    None => None,
                },
            ),
            Expr::Lambda(ps, b) => SExpr::Lambda(strs_view(ps@), Box::new(b.sv())),
            Expr::BinOp(op, a, b) => SExpr::BinOp(*op, Box::new(a.sv()), Box::new(b.sv())),
            Expr::UnaryOp(op, a) => SExpr::UnaryOp(*op, Box::new(a.sv())),
            Expr::Compare(op, a, b) => SExpr::Compare(*op, Box::new(a.sv()), Box::new(b.sv())),
            Expr::Logical(op, a, b) => SExpr::Logical(*op, Box::new(a.sv()), Box::new(b.sv())),
            Expr::Call(f, a, k) => SExpr::Call(Box::new(f.sv()), exprs_view(a@), kwargs_view(k@)),
            Expr::Attribute(o, n) => SExpr::Attribute(Box::new(o.sv()), n@),
            Expr::Subscript(o, i) => SExpr::Subscript(Box::new(o.sv()), Box::new(i.sv())),
        }
    }
}

pub open spec fn opt_expr_view(o: Option<Expr>) -> Option<SExpr> {
    match o {
        Some(e) => Some(e.sv()),
        None => None,
    }
}

pub open spec fn stmts_view(s: Seq<Stmt>) -> Seq<SStmt>
    decreases s, 1nat,
{
    if s.len() == 0 {
        Seq::empty()
    } else {
        stmts_view(s.drop_last()).push(s.last().sv())
    }
}

pub open spec fn params_view(s: Seq<(String, Option<Expr>)>) -> Seq<(Seq<char>, Option<SExpr>)>
    decreases s.len(),
{
    if s.len() == 0 {
        Seq::empty()
    } else {
        params_view(s.drop_last()).push((s.last().0@, opt_expr_view(s.last().1)))
    }
}

pub open spec fn handlers_view(s: Seq<(Vec<String>, Option<String>, Vec<Stmt>)>) -> Seq<(Seq<Seq<char>>, Option<Seq<char>>, Seq<SStmt>)>
    decreases s, 1nat,
{
    if s.len() == 0 {
        Seq::empty()
    } else {
        handlers_view(s.drop_last()).push((strs_view(s.last().0@), opt_str_view(s.last().1), stmts_view(s.last().2@)))
    }
}

impl Stmt {
    /// The mathematical form of the statement.
    pub open spec fn sv(&self) -> SStmt
        decreases self, 0nat,
    {
        match self {
            Stmt::Expr(e) => SStmt::Expr(e.sv()),
            Stmt::Assign(t, e) => SStmt::Assign(t.sv(), e.sv()),
            Stmt::If(t, b, e) => SStmt::If(t.sv(), stmts_view(b@), stmts_view(e@)),
            Stmt::While(t, b) => SStmt::While(t.sv(), stmts_view(b@)),
            Stmt::For(t, i, b) => SStmt::For(t.sv(), i.sv(), stmts_view(b@)),
            Stmt::FunctionDef(n, p, va, kw, b) => SStmt::FunctionDef(
                n@,
                params_view(p@),
                opt_str_view(*va),
                opt_str_view(*kw),
                stmts_view(b@),
            ),
            Stmt::ClassDef(n, base, b) => SStmt::ClassDef(n@, opt_expr_view(*base), stmts_view(b@)),
            Stmt::Try(b, h) => SStmt::Try(stmts_view(b@), handlers_view(h@)),
            Stmt::Raise(e) => SStmt::Raise(e.sv()),
            Stmt::Import(n) => SStmt::Import(n@),
            Stmt::FromImport(m, ns, l) => SStmt::FromImport(m@, strs_view(ns@), *l as int),
            Stmt::Return(e) => SStmt::Return(opt_expr_view(*e)),
            Stmt::Break => SStmt::Break,
            Stmt::Continue => SStmt::Continue,
            Stmt::Pass => SStmt::Pass,
            Stmt::Decorated(d, t) => SStmt::Decorated(d.sv(), Box::new(t.sv())),
            Stmt::Yield(e) => SStmt::Yield(opt_expr_view(*e)),
        }
    }
}

pub proof fn lemma_exprs_push(s: Seq<Expr>, e: Expr)
    ensures
        exprs_view(s.push(e)) == exprs_view(s).push(e.sv()),
{
    assert(s.push(e).drop_last() =~= s);
}

pub proof fn lemma_pairs_push(s: Seq<(Expr, Expr)>, e: (Expr, Expr))
    ensures
        pairs_view(s.push(e)) == pairs_view(s).push((e.0.sv(), e.1.sv())),
{
    assert(s.push(e).drop_last() =~= s);
}

pub proof fn lemma_kwargs_push(s: Seq<(String, Expr)>, e: (String, Expr))
    ensures
        kwargs_view(s.push(e)) == kwargs_view(s).push((e.0@, e.1.sv())),
{
    assert(s.push(e).drop_last() =~= s);
}

pub proof fn lemma_stmts_push(s: Seq<Stmt>, e: Stmt)
    ensures
        stmts_view(s.push(e)) == stmts_view(s).push(e.sv()),
{
    assert(s.push(e).drop_last() =~= s);
}

pub proof fn lemma_params_push(s: Seq<(String, Option<Expr>)>, e: (String, Option<Expr>))
    ensures
        params_view(s.push(e)) == params_view(s).push((e.0@, opt_expr_view(e.1))),
{
    assert(s.push(e).drop_last() =~= s);
}

pub proof fn lemma_handlers_push(s: Seq<(Vec<String>, Option<String>, Vec<Stmt>)>, e: (Vec<String>, Option<String>, Vec<Stmt>))
    ensures
        handlers_view(s.push(e)) == handlers_view(s).push((strs_view(e.0@), opt_str_view(e.1), stmts_view(e.2@))),
{
    assert(s.push(e).drop_last() =~= s);
}


impl Expr {
    /// A copy of the expression.
    pub fn copy(&self) -> (r: Expr)
        ensures
            r.sv() == self.sv(),
        decreases self, 0nat,
    {
        match self {
            Expr::NoneVal => Expr::NoneVal,
            Expr::Bool(b) => Expr::Bool(*b),
            Expr::Int(i) => Expr::Int(*i),
            Expr::Float(s) => Expr::Float(s.clone()),
            Expr::String(s) => Expr::String(s.clone()),
            Expr::FString(s) => Expr::FString(s.clone()),
            Expr::Name(s) => Expr::Name(s.clone()),
            Expr::List(v) => Expr::List(copy_exprs(v)),
            Expr::Dict(v) => Expr::Dict(copy_pairs(v)),
            Expr::Tuple(v) => Expr::Tuple(copy_exprs(v)),
            Expr::ListComp(a, b, c, d) => {
                let d2 = match d {
                    Some(x) => Some(Box::new((**x).copy())),
                    None => None,
                };
                Expr::ListComp(Box::new((**a).copy()), Box::new((**b).copy()), Box::new((**c).copy()), d2)
            },
            Expr::Lambda(ps, b) => Expr::Lambda(copy_strings(ps), Box::new((**b).copy())),
            Expr::BinOp(op, a, b) => Expr::BinOp(*op, Box::new((**a).copy()), Box::new((**b).copy())),
            Expr::UnaryOp(op, a) => Expr::UnaryOp(*op, Box::new((**a).copy())),
            Expr::Compare(op, a, b) => Expr::Compare(*op, Box::new((**a).copy()), Box::new((**b).copy())),
            Expr::Logical(op, a, b) => Expr::Logical(*op, Box::new((**a).copy()), Box::new((**b).copy())),
            Expr::Call(f, a, k) => Expr::Call(Box::new((**f).copy()), copy_exprs(a), copy_kwargs(k)),
            Expr::Attribute(o, n) => Expr::Attribute(Box::new((**o).copy()), n.clone()),
            Expr::Subscript(o, i) => Expr::Subscript(Box::new((**o).copy()), Box::new((**i).copy())),
        }
    }
}

fn copy_strings(v: &Vec<String>) -> (r: Vec<String>)
    ensures
        strs_view(r@) == strs_view(v@),
{
    let mut r: Vec<String> = Vec::new();
    let mut i: usize = 0;
    while i < v.len()
        invariant
            i <= v.len(),
            r@ == v@.subrange(0, i as int),
        decreases v.len() - i,
    {
        r.push(v[i].clone());
        proof {
            assert(r@ =~= v@.subrange(0, i + 1));
        }
        i = i + 1;
    }
    proof {
        assert(v@.subrange(0, v.len() as int) =~= v@);
    }
    r
}

fn copy_exprs(v: &Vec<Expr>) -> (r: Vec<Expr>)
    ensures
        exprs_view(r@) == exprs_view(v@),
    decreases v, 1nat,
{
    let mut r: Vec<Expr> = Vec::new();
    let mut i: usize = 0;
    while i < v.len()
        invariant
            i <= v.len(),
            exprs_view(r@) == exprs_view(v@.subrange(0, i as int)),
        decreases v.len() - i,
    {
        let e = v[i].copy();
        proof {
            lemma_exprs_push(r@, e);
            assert(v@.subrange(0, i + 1).drop_last() =~= v@.subrange(0, i as int));
        }
        r.push(e);
        i = i + 1;
    }
    proof {
        assert(v@.subrange(0, v.len() as int) =~= v@);
    }
    r
}

fn copy_pairs(v: &Vec<(Expr, Expr)>) -> (r: Vec<(Expr, Expr)>)
    ensures
        pairs_view(r@) == pairs_view(v@),
    decreases v, 1nat,
{
    let mut r: Vec<(Expr, Expr)> = Vec::new();
    let mut i: usize = 0;
    while i < v.len()
        invariant
            i <= v.len(),
            pairs_view(r@) == pairs_view(v@.subrange(0, i as int)),
        decreases v.len() - i,
    {
        let e = (v[i].0.copy(), v[i].1.copy());
        proof {
            lemma_pairs_push(r@, e);
            assert(v@.subrange(0, i + 1).drop_last() =~= v@.subrange(0, i as int));
        }
        r.push(e);
        i = i + 1;
    }
    proof {
        assert(v@.subrange(0, v.len() as int) =~= v@);
    }
    r
}

fn copy_kwargs(v: &Vec<(String, Expr)>) -> (r: Vec<(String, Expr)>)
    ensures
        kwargs_view(r@) == kwargs_view(v@),
    decreases v, 1nat,
{
    let mut r: Vec<(String, Expr)> = Vec::new();
    let mut i: usize = 0;
    while i < v.len()
        invariant
            i <= v.len(),
            kwargs_view(r@) == kwargs_view(v@.subrange(0, i as int)),
        decreases v.len() - i,
    {
        let e = (v[i].0.clone(), v[i].1.copy());
        proof {
            lemma_kwargs_push(r@, e);
            assert(v@.subrange(0, i + 1).drop_last() =~= v@.subrange(0, i as int));
        }
        r.push(e);
        i = i + 1;
    }
    proof {
        assert(v@.subrange(0, v.len() as int) =~= v@);
    }
    r
}

fn copy_opt_expr(o: &Option<Expr>) -> (r: Option<Expr>)
    ensures
        opt_expr_view(r) == opt_expr_view(*o),
{
    match o {
        Some(e) => Some(e.copy()),
        None => None,
    }
}

fn copy_opt_string(o: &Option<String>) -> (r: Option<String>)
    ensures
        opt_str_view(r) == opt_str_view(*o),
{
    match o {
        Some(s) => Some(s.clone()),
        None => None,
    }
}

impl Stmt {
    /// A copy of the statement.
    pub fn copy(&self) -> (r: Stmt)
        ensures
            r.sv() == self.sv(),
        decreases self, 0nat,
    {
        match self {
            Stmt::Expr(e) => Stmt::Expr(e.copy()),
            Stmt::Assign(t, e) => Stmt::Assign(t.copy(), e.copy()),
            Stmt::If(t, b, e) => Stmt::If(t.copy(), copy_stmts(b), copy_stmts(e)),
            Stmt::While(t, b) => Stmt::While(t.copy(), copy_stmts(b)),
            Stmt::For(t, i, b) => Stmt::For(t.copy(), i.copy(), copy_stmts(b)),
            Stmt::FunctionDef(n, p, va, kw, b) => Stmt::FunctionDef(
                n.clone(),
                copy_params(p),
                copy_opt_string(va),
                copy_opt_string(kw),
                copy_stmts(b),
            ),
            Stmt::ClassDef(n, base, b) => Stmt::ClassDef(n.clone(), copy_opt_expr(base), copy_stmts(b)),
            Stmt::Try(b, h) => Stmt::Try(copy_stmts(b), copy_handlers(h)),
            Stmt::Raise(e) => Stmt::Raise(e.copy()),
            Stmt::Import(n) => Stmt::Import(n.clone()),
            Stmt::FromImport(m, ns, l) => Stmt::FromImport(m.clone(), copy_strings(ns), *l),
            Stmt::Return(e) => Stmt::Return(copy_opt_expr(e)),
            Stmt::Break => Stmt::Break,
            Stmt::Continue => Stmt::Continue,
            Stmt::Pass => Stmt::Pass,
            Stmt::Decorated(d, t) => Stmt::Decorated(d.copy(), Box::new((**t).copy())),
            Stmt::Yield(e) => Stmt::Yield(copy_opt_expr(e)),
        }
    }
}

/// A copy of every statement of `v`, in order.
pub fn copy_stmts(v: &Vec<Stmt>) -> (r: Vec<Stmt>)
    ensures
        stmts_view(r@) == stmts_view(v@),
    decreases v, 1nat,
{
    let mut r: Vec<Stmt> = Vec::new();
    let mut i: usize = 0;
    while i < v.len()
        invariant
            i <= v.len(),
            stmts_view(r@) == stmts_view(v@.subrange(0, i as int)),
        decreases v.len() - i,
    {
        let e = v[i].copy();
        proof {
            lemma_stmts_push(r@, e);
            assert(v@.subrange(0, i + 1).drop_last() =~= v@.subrange(0, i as int));
        }
        r.push(e);
        i = i + 1;
    }
    proof {
        assert(v@.subrange(0, v.len() as int) =~= v@);
    }
    r
}

fn copy_params(v: &Vec<(String, Option<Expr>)>) -> (r: Vec<(String, Option<Expr>)>)
    ensures
        params_view(r@) == params_view(v@),
{
    let mut r: Vec<(String, Option<Expr>)> = Vec::new();
    let mut i: usize = 0;
    while i < v.len()
        invariant
            i <= v.len(),
            params_view(r@) == params_view(v@.subrange(0, i as int)),
        decreases v.len() - i,
    {
        let e = (v[i].0.clone(), copy_opt_expr(&v[i].1));
        proof {
            lemma_params_push(r@, e);
            assert(v@.subrange(0, i + 1).drop_last() =~= v@.subrange(0, i as int));
        }
        r.push(e);
        i = i + 1;
    }
    proof {
        assert(v@.subrange(0, v.len() as int) =~= v@);
    }
    r
}

fn copy_handlers(v: &Vec<(Vec<String>, Option<String>, Vec<Stmt>)>) -> (r: Vec<(Vec<String>, Option<String>, Vec<Stmt>)>)
    ensures
        handlers_view(r@) == handlers_view(v@),
    decreases v, 1nat,
{
    let mut r: Vec<(Vec<String>, Option<String>, Vec<Stmt>)> = Vec::new();
    let mut i: usize = 0;
    while i < v.len()
        invariant
            i <= v.len(),
            handlers_view(r@) == handlers_view(v@.subrange(0, i as int)),
        decreases v.len() - i,
    {
        let e = (copy_strings(&v[i].0), copy_opt_string(&v[i].1), copy_stmts(&v[i].2));
        proof {
            lemma_handlers_push(r@, e);
            assert(v@.subrange(0, i + 1).drop_last() =~= v@.subrange(0, i as int));
        }
        r.push(e);
        i = i + 1;
    }
    proof {
        assert(v@.subrange(0, v.len() as int) =~= v@);
    }
    r
}


/// Whether a statement holds a `yield`, outside the definitions nested in it.
pub open spec fn yields_in(s: SStmt) -> bool
    decreases s, 0nat,
{
    match s {
        SStmt::Yield(_) => true,
        SStmt::If(_, b, e) => yields_all(b) || yields_all(e),
        SStmt::While(_, b) => yields_all(b),
        SStmt::For(_, _, b) => yields_all(b),
        SStmt::Try(b, hs) => yields_all(b) || yields_handlers(hs),
        _ => false,
    }
}

/// Whether one of the statements holds a `yield`.
pub open spec fn yields_all(ss: Seq<SStmt>) -> bool
    decreases ss, 1nat,
{
    if ss.len() == 0 {
        false
    } else {
        yields_all(ss.drop_last()) || yields_in(ss.last())
    }
}

/// Whether the body of one of the `except` clauses holds a `yield`.
pub open spec fn yields_handlers(hs: Seq<(Seq<Seq<char>>, Option<Seq<char>>, Seq<SStmt>)>) -> bool
    decreases hs, 1nat,
{
    if hs.len() == 0 {
        false
    } else {
        yields_handlers(hs.drop_last()) || yields_all(hs.last().2)
    }
}

/// The name a definition binds, through its decorators.
pub open spec fn defined_name(s: SStmt) -> Seq<char>
    decreases s,
{
    match s {
        SStmt::FunctionDef(n, _, _, _, _) => n,
        SStmt::ClassDef(n, _, _) => n,
        SStmt::Decorated(_, t) => defined_name(*t),
        _ => Seq::empty(),
    }
}

/// Whether the statement holds a `yield` (a function whose body does is a generator).
pub fn stmt_yields(s: &Stmt) -> (r: bool)
    ensures
        r == yields_in(s.sv()),
    decreases s, 0nat,
{
    match s {
        Stmt::Yield(_) => true,
        Stmt::If(_, b, e) => stmts_yield(b) || stmts_yield(e),
        Stmt::While(_, b) => stmts_yield(b),
        Stmt::For(_, _, b) => stmts_yield(b),
        Stmt::Try(b, hs) => stmts_yield(b) || handlers_yield(hs),
        _ => false,
    }
}

/// Whether one of the statements holds a `yield`.
pub fn stmts_yield(v: &Vec<Stmt>) -> (r: bool)
    ensures
        r == yields_all(stmts_view(v@)),
    decreases v, 1nat,
{
    let mut i: usize = 0;
    let mut r = false;
    proof {
        assert(v@.subrange(0, 0) =~= Seq::<Stmt>::empty());
    }
    while i < v.len()
        invariant
            i <= v.len(),
            r == yields_all(stmts_view(v@.subrange(0, i as int))),
        decreases v.len() - i,
    {
        let y = stmt_yields(&v[i]);
        proof {
            lemma_stmts_push(v@.subrange(0, i as int), v@[i as int]);
            assert(v@.subrange(0, i + 1) =~= v@.subrange(0, i as int).push(v@[i as int]));
            let sv = stmts_view(v@.subrange(0, i as int)).push(v@[i as int].sv());
            assert(sv.drop_last() =~= stmts_view(v@.subrange(0, i as int)));
        }
        r = r || y;
        i = i + 1;
    }
    proof {
        assert(v@.subrange(0, v.len() as int) =~= v@);
    }
    r
}

fn handlers_yield(v: &Vec<(Vec<String>, Option<String>, Vec<Stmt>)>) -> (r: bool)
    ensures
        r == yields_handlers(handlers_view(v@)),
    decreases v, 1nat,
{
    let mut i: usize = 0;
    let mut r = false;
    proof {
        assert(v@.subrange(0, 0) =~= Seq::<(Vec<String>, Option<String>, Vec<Stmt>)>::empty());
    }
    while i < v.len()
        invariant
            i <= v.len(),
            r == yields_handlers(handlers_view(v@.subrange(0, i as int))),
        decreases v.len() - i,
    {
        let y = stmts_yield(&v[i].2);
        proof {
            let e = v@[i as int];
            lemma_handlers_push(v@.subrange(0, i as int), e);
            assert(v@.subrange(0, i + 1) =~= v@.subrange(0, i as int).push(e));
            let hv = handlers_view(v@.subrange(0, i as int)).push((strs_view(e.0@), opt_str_view(e.1), stmts_view(e.2@)));
            assert(hv.drop_last() =~= handlers_view(v@.subrange(0, i as int)));
        }
        r = r || y;
        i = i + 1;
    }
    proof {
        assert(v@.subrange(0, v.len() as int) =~= v@);
    }
    r
}

/// The name a definition binds, through its decorators.
pub fn name_defined(s: &Stmt) -> (r: String)
    ensures
        r@ == defined_name(s.sv()),
    decreases s,
{
    match s {
        Stmt::FunctionDef(n, _, _, _, _) => n.clone(),
        Stmt::ClassDef(n, _, _) => n.clone(),
        Stmt::Decorated(_, t) => name_defined(&**t),
        _ => String::new(),
    }
}

} // verus!
