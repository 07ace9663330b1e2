//! The evaluator as a state machine.
//!
//! A [`Machine`] holds what is left to do (a stack of [`Task`]s), the values
//! computed so far (a stack of values) and, while an exception, a `break`, a
//! `continue` or a `return` travels outwards, that [`Signal`]. Each call of
//! [`step`] makes one move and answers with an [`Action`]: most moves are
//! internal (`Next`); the others ask the caller for work the library cannot
//! do itself (floating-point arithmetic, a builtin, a file, a module's
//! source, the text of a value), and the caller hands the result back as the
//! next [`Event`].
use vstd::prelude::*;
use crate::ast::{
    copy_stmts, defined_name, exprs_view, name_defined, stmts_yield, yields_all, handlers_view, opt_expr_view, pairs_view, stmts_view, strs_view, kwargs_view, params_view,
    opt_str_view, Expr, LogicOp, Op, SExpr, SStmt, Stmt,
};
use crate::call::{
    bind_arguments, bind_error, default_writes, kw_split, npos, open_call_scope, positional_writes, strs,
    tputs,
};
use crate::heap::{FrameView, FuncParts, FuncView, Heap, HeapView};
use crate::lexer::{lex_checked, lex_overflows, spec_lex};
use crate::objects::{
    attribute_of, get_attribute, get_item, item_of, set_attribute, set_item, store_item, Access,
    SAccess,
};
use crate::parser::{p_expr, Parser, Src};
use crate::rules::{catches, fparts_from, fparts_view, fstring_parts, select_handler, str_chars, FPart, SPart};
use crate::table::{tbl_put, tpos, tput, tview, Table};
use crate::value::{exc_sv, key_of, vals_view, PyValue, SVal};
use crate::json::{pieces_view, Piece, SPiece};
use crate::show::{show, show_val};

verus! {

/// What travels outwards through the pending tasks until something takes it.
pub enum Signal {
    Raise(PyValue),
    Break,
    Continue,
    Return(PyValue),
}

/// The mathematical form of a [`Signal`].
pub enum SSignal {
    Raise(SVal),
    Break,
    Continue,
    Return(SVal),
}

/// A pending piece of work. Those that finish an evaluation take their
/// operands from the top of the value stack.
pub enum Task {
    /// The statements of a block from the given position on, in a scope.
    Block(Vec<Stmt>, usize, usize),
    /// One statement, in a scope.
    Exec(Stmt, usize),
    /// One expression, in a scope: its value goes on the value stack.
    Eval(Expr, usize),
    /// Expressions from the given position on, each leaving its value.
    EvalSeq(Vec<Expr>, usize, usize),
    /// Drops the top value.
    Discard,
    /// Replaces the top value by this one.
    Keep(PyValue),
    /// Takes the top value and assigns it to the target.
    AssignTo(Expr, usize),
    /// Assigns the values to the targets, from the given position on.
    Unpack(Vec<Expr>, Vec<PyValue>, usize, usize),
    /// Takes an index and an object and stores the value at the index.
    StoreItem(PyValue),
    /// Takes an object and sets its attribute to the value.
    StoreAttr(String, PyValue),
    /// Takes a condition and runs one of the two blocks.
    Branch(Vec<Stmt>, Vec<Stmt>, usize),
    /// A `while` loop: its condition and body.
    While(Expr, Vec<Stmt>, usize),
    /// Takes the loop condition's value.
    WhileTest(Vec<Stmt>, usize),
    /// Takes the value a `for` loop runs over.
    ForStart(Expr, Vec<Stmt>, usize),
    /// A `for` loop: target, body, items and the position of the next item.
    For(Expr, Vec<Stmt>, Vec<PyValue>, usize, usize),
    /// Takes the tuple of default values and makes the function.
    DefFinish(String, Vec<String>, Vec<String>, Option<String>, Option<String>, Vec<Stmt>, usize),
    /// Takes the base of a class and runs its body.
    ClassBase(String, Vec<Stmt>, usize),
    /// Makes the class from the scope its body ran in.
    ClassFinish(String, Option<usize>, usize, usize),
    /// The `except` clauses of a `try`, its scope, and the height of the
    /// value stack when it began.
    Catch(Vec<(Vec<String>, Option<String>, Vec<Stmt>)>, usize, usize),
    /// Takes a value and raises it.
    RaiseTop,
    /// Takes a value and returns it.
    ReturnTop,
    /// Takes a module and binds it to the name.
    BindImport(String, usize),
    /// Takes a module and binds the names it is asked for.
    FromStart(Vec<String>, usize),
    /// Binds the names from the module's scope, from the given position on.
    BindFrom(usize, Vec<String>, usize, usize),
    /// An f-string: its pieces, the next one, the text so far, whether the
    /// text of a value waits on the value stack, and the scope.
    FStr(Vec<FPart>, usize, String, bool, usize),
    /// Takes a value and asks for its text.
    RenderTop,
    /// Takes the value a comprehension runs over.
    CompStart(Expr, Expr, Option<Expr>, usize),
    /// A comprehension: element, target, condition, items, next position,
    /// its scope, the elements so far, and its phase.
    Comp(Expr, Expr, Option<Expr>, Vec<PyValue>, usize, usize, Vec<PyValue>, u8),
    /// Takes that many values and makes a tuple (`false`) or a list (`true`).
    Build(bool, usize),
    /// Key and value expressions of a dict display, from the given position on.
    DictSeq(Vec<(Expr, Expr)>, usize, usize),
    /// Replaces the top value by its key, or raises.
    KeyCheck,
    /// Takes that many key-value pairs and makes a dict.
    BuildDict(usize),
    /// Takes two operands.
    BinTail(Op),
    /// Takes one operand.
    UnTail(Op),
    /// Takes two operands of a comparison.
    CompareTail(Op),
    /// Takes the left operand of `and` / `or`.
    LogicTail(LogicOp, Expr, usize),
    /// Takes the callee, the positional arguments and the keyword arguments.
    CallTail(usize, Vec<String>),
    /// Calls a value.
    Invoke(PyValue, Vec<PyValue>, Table),
    /// Where a call returns to.
    CallFrame,
    /// Takes an object and reads its attribute.
    AttrTail(String),
    /// Takes an index and an object and reads the item.
    SubTail,
    /// Takes a value and adds it to the list of the generator being run.
    YieldTop,
    /// Where a call of a generator function returns to: the list of the
    /// values it yields.
    GenFrame(usize),
}

/// The mathematical form of a [`Task`].
pub enum STask {
    Block(Seq<SStmt>, usize, usize),
    Exec(SStmt, usize),
    Eval(SExpr, usize),
    EvalSeq(Seq<SExpr>, usize, usize),
    Discard,
    Keep(SVal),
    AssignTo(SExpr, usize),
    Unpack(Seq<SExpr>, Seq<SVal>, usize, usize),
    StoreItem(SVal),
    StoreAttr(Seq<char>, SVal),
    Branch(Seq<SStmt>, Seq<SStmt>, usize),
    While(SExpr, Seq<SStmt>, usize),
    WhileTest(Seq<SStmt>, usize),
    ForStart(SExpr, Seq<SStmt>, usize),
    For(SExpr, Seq<SStmt>, Seq<SVal>, usize, usize),
    DefFinish(Seq<char>, Seq<Seq<char>>, Seq<Seq<char>>, Option<Seq<char>>, Option<Seq<char>>, Seq<SStmt>, usize),
    ClassBase(Seq<char>, Seq<SStmt>, usize),
    ClassFinish(Seq<char>, Option<usize>, usize, usize),
    Catch(Seq<(Seq<Seq<char>>, Option<Seq<char>>, Seq<SStmt>)>, usize, usize),
    RaiseTop,
    ReturnTop,
    BindImport(Seq<char>, usize),
    FromStart(Seq<Seq<char>>, usize),
    BindFrom(usize, Seq<Seq<char>>, usize, usize),
    FStr(Seq<SPart>, usize, Seq<char>, bool, usize),
    RenderTop,
    CompStart(SExpr, SExpr, Option<SExpr>, usize),
    Comp(SExpr, SExpr, Option<SExpr>, Seq<SVal>, usize, usize, Seq<SVal>, u8),
    Build(bool, usize),
    DictSeq(Seq<(SExpr, SExpr)>, usize, usize),
    KeyCheck,
    BuildDict(usize),
    BinTail(Op),
    UnTail(Op),
    CompareTail(Op),
    LogicTail(LogicOp, SExpr, usize),
    CallTail(usize, Seq<Seq<char>>),
    Invoke(SVal, Seq<SVal>, Seq<(Seq<char>, SVal)>),
    CallFrame,
    AttrTail(Seq<char>),
    SubTail,
    YieldTop,
    GenFrame(usize),
}

impl Signal {
    pub open spec fn sv(&self) -> SSignal {
        match self {
            Signal::Raise(x) => SSignal::Raise(x.sv()),
            Signal::Break => SSignal::Break,
            Signal::Continue => SSignal::Continue,
            Signal::Return(v) => SSignal::Return(v.sv()),
        }
    }
}

pub open spec fn opt_sig(s: Option<Signal>) -> Option<SSignal> {
    match s {
        Some(x) => Some(x.sv()),
        None => None,
    }
}

pub open spec fn names(s: Seq<String>) -> Seq<Seq<char>> {
    s.map_values(|x: String| x@)
}

impl Task {
    pub open spec fn sv(&self) -> STask {
        match self {
            Task::Block(b, i, e) => STask::Block(stmts_view(b@), *i, *e),
            Task::Exec(s, e) => STask::Exec(s.sv(), *e),
            Task::Eval(x, e) => STask::Eval(x.sv(), *e),
            Task::EvalSeq(xs, i, e) => STask::EvalSeq(exprs_view(xs@), *i, *e),
            Task::Discard => STask::Discard,
            Task::Keep(v) => STask::Keep(v.sv()),
            Task::AssignTo(t, e) => STask::AssignTo(t.sv(), *e),
            Task::Unpack(ts, vs, i, e) => STask::Unpack(exprs_view(ts@), vals_view(vs@), *i, *e),
            Task::StoreItem(v) => STask::StoreItem(v.sv()),
            Task::StoreAttr(a, v) => STask::StoreAttr(a@, v.sv()),
            Task::Branch(b, o, e) => STask::Branch(stmts_view(b@), stmts_view(o@), *e),
            Task::While(c, b, e) => STask::While(c.sv(), stmts_view(b@), *e),
            Task::WhileTest(b, e) => STask::WhileTest(stmts_view(b@), *e),
            Task::ForStart(t, b, e) => STask::ForStart(t.sv(), stmts_view(b@), *e),
            Task::For(t, b, xs, i, e) => STask::For(t.sv(), stmts_view(b@), vals_view(xs@), *i, *e),
            Task::DefFinish(n, ps, ds, va, kw, b, e) => STask::DefFinish(
                n@,
                names(ps@),
                names(ds@),
                opt_str_view(*va),
                opt_str_view(*kw),
                stmts_view(b@),
                *e,
            ),
            Task::ClassBase(n, b, e) => STask::ClassBase(n@, stmts_view(b@), *e),
            Task::ClassFinish(n, base, ce, e) => STask::ClassFinish(n@, *base, *ce, *e),
            Task::Catch(hs, e, ht) => STask::Catch(handlers_view(hs@), *e, *ht),
            Task::RaiseTop => STask::RaiseTop,
            Task::ReturnTop => STask::ReturnTop,
            Task::BindImport(n, e) => STask::BindImport(n@, *e),
            Task::FromStart(ns, e) => STask::FromStart(names(ns@), *e),
            Task::BindFrom(me, ns, i, e) => STask::BindFrom(*me, names(ns@), *i, *e),
            Task::FStr(ps, i, acc, w, e) => STask::FStr(fparts_view(ps@), *i, acc@, *w, *e),
            Task::RenderTop => STask::RenderTop,
            Task::CompStart(x, t, c, e) => STask::CompStart(x.sv(), t.sv(), opt_expr_view(*c), *e),
            Task::Comp(x, t, c, xs, i, l, rs, ph) => STask::Comp(
                x.sv(),
                t.sv(),
                opt_expr_view(*c),
                vals_view(xs@),
                *i,
                *l,
                vals_view(rs@),
                *ph,
            ),
            Task::Build(l, n) => STask::Build(*l, *n),
            Task::DictSeq(ps, i, e) => STask::DictSeq(pairs_view(ps@), *i, *e),
            Task::KeyCheck => STask::KeyCheck,
            Task::BuildDict(n) => STask::BuildDict(*n),
            Task::BinTail(op) => STask::BinTail(*op),
            Task::UnTail(op) => STask::UnTail(*op),
            Task::CompareTail(op) => STask::CompareTail(*op),
            Task::LogicTail(op, r, e) => STask::LogicTail(*op, r.sv(), *e),
            Task::CallTail(n, ks) => STask::CallTail(*n, names(ks@)),
            Task::Invoke(f, a, k) => STask::Invoke(f.sv(), vals_view(a@), tview(k@)),
            Task::CallFrame => STask::CallFrame,
            Task::AttrTail(a) => STask::AttrTail(a@),
            Task::SubTail => STask::SubTail,
            Task::YieldTop => STask::YieldTop,
            Task::GenFrame(l) => STask::GenFrame(*l),
        }
    }
}

/// The state of the evaluator.
pub struct Machine {
    tasks: Vec<Task>,
    vals: Vec<PyValue>,
    sig: Option<Signal>,
}

/// The mathematical form of a [`Machine`]: pending tasks (the last one is
/// next), the value stack (its last value is on top), and the signal
/// travelling outwards, if any.
pub struct MachineView {
    pub tasks: Seq<STask>,
    pub vals: Seq<SVal>,
    pub sig: Option<SSignal>,
}

impl View for Machine {
    type V = MachineView;

    closed spec fn view(&self) -> MachineView {
        MachineView {
            tasks: self.tasks@.map_values(|t: Task| t.sv()),
            vals: vals_view(self.vals@),
            sig: opt_sig(self.sig),
        }
    }
}

/// Work the caller does for the machine, or the end of the run.
pub enum Action {
    /// Nothing to do: call [`step`] again.
    Next,
    /// Arithmetic or a comparison on numbers, one of them a float (the
    /// operand of a unary operator comes first, `None` second).
    Arith(Op, PyValue, PyValue),
    /// The value of a float literal.
    ParseFloat(String),
    /// A call of the builtin with that index.
    CallBuiltin(usize, Vec<PyValue>, Table),
    /// A method of the open file with that index.
    FileOp(usize, String, Vec<PyValue>),
    /// The module of that name, imported from `level` packages up.
    LoadModule(String, usize),
    /// The text of an instance whose class defines `__str__`, as `str()`
    /// gives it.
    Render(PyValue),
    /// The text of these pieces put together: the text of a value whose
    /// display holds floats, builtins or files.
    RenderPieces(Vec<Piece>),
    /// The run stops here without an answer (where the interpreter panics).
    Fail(String),
    /// The run is over: the last value, or the exception that escaped.
    Done(Result<PyValue, PyValue>),
}

/// The mathematical form of an [`Action`].
pub enum SAction {
    Next,
    Arith(Op, SVal, SVal),
    ParseFloat(Seq<char>),
    CallBuiltin(usize, Seq<SVal>, Seq<(Seq<char>, SVal)>),
    FileOp(usize, Seq<char>, Seq<SVal>),
    LoadModule(Seq<char>, usize),
    Render(SVal),
    RenderPieces(Seq<SPiece>),
    Fail(Seq<char>),
    Done(Result<SVal, SVal>),
}

impl Action {
    pub open spec fn sv(&self) -> SAction {
        match self {
            Action::Next => SAction::Next,
            Action::Arith(op, a, b) => SAction::Arith(*op, a.sv(), b.sv()),
            Action::ParseFloat(t) => SAction::ParseFloat(t@),
            Action::CallBuiltin(b, a, k) => SAction::CallBuiltin(*b, vals_view(a@), tview(k@)),
            Action::FileOp(f, n, a) => SAction::FileOp(*f, n@, vals_view(a@)),
            Action::LoadModule(n, l) => SAction::LoadModule(n@, *l),
            Action::Render(v) => SAction::Render(v.sv()),
            Action::RenderPieces(p) => SAction::RenderPieces(pieces_view(p@)),
            Action::Fail(m) => SAction::Fail(m@),
            Action::Done(Ok(v)) => SAction::Done(Ok(v.sv())),
            Action::Done(Err(x)) => SAction::Done(Err(x.sv())),
        }
    }
}

/// What the caller hands to [`step`]: nothing, or the result of the work it
/// was asked for.
pub enum Event {
    Start,
    Value(Result<PyValue, PyValue>),
}

/// The mathematical form of an [`Event`].
pub enum SEvent {
    Start,
    Value(Result<SVal, SVal>),
}

impl Event {
    pub open spec fn sv(&self) -> SEvent {
        match self {
            Event::Start => SEvent::Start,
            Event::Value(Ok(v)) => SEvent::Value(Ok(v.sv())),
            Event::Value(Err(x)) => SEvent::Value(Err(x.sv())),
        }
    }
}

// ----------------------------------------------------------------------
// views of sequences, by index
// ----------------------------------------------------------------------

pub proof fn lemma_stmts_index(s: Seq<Stmt>)
    ensures
        stmts_view(s).len() == s.len(),
        forall|i: int| 0 <= i < s.len() ==> #[trigger] stmts_view(s)[i] == s[i].sv(),
    decreases s.len(),
{
    if s.len() > 0 {
        lemma_stmts_index(s.drop_last());
    }
}

pub proof fn lemma_exprs_index(s: Seq<Expr>)
    ensures
        exprs_view(s).len() == s.len(),
        forall|i: int| 0 <= i < s.len() ==> #[trigger] exprs_view(s)[i] == s[i].sv(),
    decreases s.len(),
{
    if s.len() > 0 {
        lemma_exprs_index(s.drop_last());
    }
}

pub proof fn lemma_pairs_index(s: Seq<(Expr, Expr)>)
    ensures
        pairs_view(s).len() == s.len(),
        forall|i: int| 0 <= i < s.len() ==> #[trigger] pairs_view(s)[i] == (s[i].0.sv(), s[i].1.sv()),
    decreases s.len(),
{
    if s.len() > 0 {
        lemma_pairs_index(s.drop_last());
    }
}

pub proof fn lemma_handlers_index(s: Seq<(Vec<String>, Option<String>, Vec<Stmt>)>)
    ensures
        handlers_view(s).len() == s.len(),
        forall|i: int| 0 <= i < s.len() ==> #[trigger] handlers_view(s)[i] == (strs_view(s[i].0@), opt_str_view(s[i].1), stmts_view(s[i].2@)),
    decreases s.len(),
{
    if s.len() > 0 {
        lemma_handlers_index(s.drop_last());
    }
}

pub proof fn lemma_vals_index(s: Seq<PyValue>)
    ensures
        vals_view(s).len() == s.len(),
        forall|i: int| 0 <= i < s.len() ==> #[trigger] vals_view(s)[i] == s[i].sv(),
    decreases s.len(),
{
    if s.len() > 0 {
        lemma_vals_index(s.drop_last());
    }
}

proof fn lemma_vals_prefix(s: Seq<PyValue>, n: int)
    requires
        0 <= n <= s.len(),
    ensures
        vals_view(s.subrange(0, n)) == vals_view(s).subrange(0, n),
{
    lemma_vals_index(s);
    lemma_vals_index(s.subrange(0, n));
    assert(vals_view(s.subrange(0, n)) =~= vals_view(s).subrange(0, n));
}

proof fn lemma_vals_suffix(s: Seq<PyValue>, n: int)
    requires
        0 <= n <= s.len(),
    ensures
        vals_view(s.subrange(n, s.len() as int)) == vals_view(s).subrange(n, s.len() as int),
{
    lemma_vals_index(s);
    lemma_vals_index(s.subrange(n, s.len() as int));
    assert(vals_view(s.subrange(n, s.len() as int)) =~= vals_view(s).subrange(n, s.len() as int));
}

// ----------------------------------------------------------------------
// small moves on the view
// ----------------------------------------------------------------------

/// The top value (`None` when the stack is empty).
pub open spec fn top_val(vals: Seq<SVal>) -> SVal {
    if vals.len() > 0 {
        vals.last()
    } else {
        SVal::NoneVal
    }
}

/// The stack without its top value.
pub open spec fn drop_val(vals: Seq<SVal>) -> Seq<SVal> {
    if vals.len() > 0 {
        vals.drop_last()
    } else {
        vals
    }
}

pub open spec fn with_task(m: MachineView, t: STask) -> MachineView {
    MachineView { tasks: m.tasks.push(t), ..m }
}

pub open spec fn with_val(m: MachineView, v: SVal) -> MachineView {
    MachineView { vals: m.vals.push(v), ..m }
}

pub open spec fn popped(m: MachineView) -> MachineView {
    MachineView { vals: drop_val(m.vals), ..m }
}

pub open spec fn with_sig(m: MachineView, s: SSignal) -> MachineView {
    MachineView { sig: Some(s), ..m }
}

impl Machine {
    fn push_task(&mut self, t: Task)
        ensures
            final(self)@ == with_task(old(self)@, t.sv()),
    {
        let ghost ts = self.tasks@;
        self.tasks.push(t);
        proof {
            assert(self.tasks@.map_values(|t: Task| t.sv()) =~= ts.map_values(|t: Task| t.sv()).push(t.sv()));
        }
    }

    fn push_val(&mut self, v: PyValue)
        ensures
            final(self)@ == with_val(old(self)@, v.sv()),
    {
        let ghost vs = self.vals@;
        self.vals.push(v);
        proof {
            crate::value::lemma_vals_push(vs, v);
        }
    }

    fn pop_val(&mut self) -> (v: PyValue)
        ensures
            v.sv() == top_val(old(self)@.vals),
            final(self)@ == popped(old(self)@),
    {
        let ghost vs = self.vals@;
        proof {
            lemma_vals_index(vs);
        }
        match self.vals.pop() {
            Some(v) => {
                proof {
                    assert(vs.drop_last() =~= vs.subrange(0, vs.len() - 1));
                    assert(vals_view(vs) == vals_view(vs.drop_last()).push(vs.last().sv()));
                    assert(vals_view(vs).drop_last() =~= vals_view(vs.drop_last()));
                }
                v
            },
            None => PyValue::NoneVal,
        }
    }

    fn raise(&mut self, x: PyValue)
        ensures
            final(self)@ == with_sig(old(self)@, SSignal::Raise(x.sv())),
    {
        self.sig = Some(Signal::Raise(x));
    }

    fn signal(&mut self, s: Signal)
        ensures
            final(self)@ == with_sig(old(self)@, s.sv()),
    {
        self.sig = Some(s);
    }
}

// ----------------------------------------------------------------------
// the transition, as mathematics
// ----------------------------------------------------------------------

pub open spec fn two(m: MachineView, a: STask, b: STask) -> MachineView {
    with_task(with_task(m, a), b)
}

pub open spec fn three(m: MachineView, a: STask, b: STask, c: STask) -> MachineView {
    with_task(two(m, a, b), c)
}

pub open spec fn next(m: MachineView, h: HeapView) -> (MachineView, HeapView, SAction) {
    (m, h, SAction::Next)
}

pub open spec fn raise_exc(m: MachineView, h: HeapView, typ: Seq<char>, msg: Seq<char>) -> (MachineView, HeapView, SAction) {
    (with_sig(m, SSignal::Raise(exc_sv(typ, msg))), h, SAction::Next)
}

/// The heap after binding `k` to `v` in scope `e` itself.
pub open spec fn put_var(h: HeapView, e: usize, k: Seq<char>, v: SVal) -> HeapView {
    if e < h.envs.len() {
        h.env_put(e as int, k, v)
    } else {
        h
    }
}

/// The heap after assigning `v` to `k` from scope `e`.
pub open spec fn assign_var(h: HeapView, e: usize, k: Seq<char>, v: SVal) -> HeapView {
    if e < h.envs.len() {
        h.env_put(h.assign_target(e as int, k), k, v)
    } else {
        h
    }
}

/// The heap with a new empty scope inside `parent`.
pub open spec fn new_scope(h: HeapView, parent: usize) -> HeapView {
    HeapView {
        envs: h.envs.push(FrameView {
            parent: if parent < h.envs.len() { Some(parent) } else { None },
            vars: Seq::empty(),
        }),
        ..h
    }
}

/// The items a `for`, a comprehension or an unpacking runs over.
pub open spec fn items_of(h: HeapView, v: SVal) -> Option<Seq<SVal>> {
    match v {
        SVal::List(l) => Some(if l < h.lists.len() { h.lists[l as int] } else { Seq::empty() }),
        SVal::Tuple(t) => Some(t),
        SVal::Str(s) => Some(Seq::new(s.len(), |i: int| SVal::Str(seq![s[i]]))),
        _ => None,
    }
}

/// A table binding `ks[i]` to `vs[i]`, in order, as far as both go.
pub open spec fn zip_table(ks: Seq<Seq<char>>, vs: Seq<SVal>) -> Seq<(Seq<char>, SVal)> {
    let n = if ks.len() < vs.len() { ks.len() } else { vs.len() };
    tputs(Seq::empty(), Seq::new(n, |i: int| (ks[i], vs[i])))
}

/// The dict made from the first `n` key-value pairs of `items`.
pub open spec fn dict_fold(items: Seq<SVal>, n: nat) -> Seq<(Seq<char>, SVal)>
    decreases n,
{
    if n == 0 {
        Seq::empty()
    } else {
        let t = dict_fold(items, (n - 1) as nat);
        match key_of(items[2 * (n - 1)]) {
            Some(k) => tput(t, k, items[2 * (n - 1) + 1]),
            None => t,
        }
    }
}

/// How many values a build takes: `n`, or all there are.
pub open spec fn avail(vals: Seq<SVal>, n: int) -> int {
    if n <= vals.len() { n } else { vals.len() as int }
}

pub open spec fn top_n(vals: Seq<SVal>, n: int) -> Seq<SVal> {
    vals.subrange(vals.len() - avail(vals, n), vals.len() as int)
}

pub open spec fn below_n(vals: Seq<SVal>, n: int) -> Seq<SVal> {
    vals.subrange(0, vals.len() - avail(vals, n))
}

pub open spec fn unpack_msg(want: nat, got: nat) -> Seq<char> {
    "too many/few values to unpack (expected "@ + crate::text::dec(want) + ", got "@ + crate::text::dec(got) + ")"@
}

/// The names of a function's parameters.
pub open spec fn param_names(ps: Seq<(Seq<char>, Option<SExpr>)>) -> Seq<Seq<char>> {
    ps.map_values(|p: (Seq<char>, Option<SExpr>)| p.0)
}

/// The names of the parameters that have a default.
pub open spec fn default_names(ps: Seq<(Seq<char>, Option<SExpr>)>) -> Seq<Seq<char>>
    decreases ps.len(),
{
    if ps.len() == 0 {
        Seq::empty()
    } else {
        default_names(ps.drop_last()) + match ps.last().1 {
            Some(_) => seq![ps.last().0],
            None => Seq::empty(),
        }
    }
}

/// The default expressions, in order.
pub open spec fn default_exprs(ps: Seq<(Seq<char>, Option<SExpr>)>) -> Seq<SExpr>
    decreases ps.len(),
{
    if ps.len() == 0 {
        Seq::empty()
    } else {
        default_exprs(ps.drop_last()) + match ps.last().1 {
            Some(x) => seq![x],
            None => Seq::empty(),
        }
    }
}

/// The expression an f-string piece of code holds: `None` where the
/// interpreter stops (an integer literal too large, or a piece too long to
/// tokenize), else the parse or its error.
pub open spec fn fcode(code: Seq<char>) -> Option<Result<SExpr, Seq<char>>> {
    if code.len() >= 0x2000_0000 || lex_overflows(code) {
        None
    } else {
        match spec_lex(code) {
            Err(e) => Some(Err(e)),
            Ok(toks) => match p_expr(Src { fname: "<fstring>"@, toks }, 0) {
                Ok((x, _)) => Some(Ok(x)),
                Err((msg, _)) => Some(Err(msg)),
            },
        }
    }
}

/// The first `except` clause that takes `x`.
pub open spec fn first_catch(hs: Seq<(Seq<Seq<char>>, Option<Seq<char>>, Seq<SStmt>)>, x: SVal) -> Option<int> {
    if exists|k: int| 0 <= k < hs.len() && catches(hs[k].0, x) && forall|j: int| 0 <= j < k ==> !catches(#[trigger] hs[j].0, x) {
        Some(choose|k: int| 0 <= k < hs.len() && catches(hs[k].0, x) && forall|j: int| 0 <= j < k ==> !catches(#[trigger] hs[j].0, x))
    } else {
        None
    }
}

/// The scope a call of function `f` runs in, made in `h`, with the index it
/// gets; or the `TypeError` the arguments give.
pub open spec fn call_entry(h: HeapView, f: FuncView, args: Seq<SVal>, kws: Seq<(Seq<char>, SVal)>) -> Result<(HeapView, usize), SVal> {
    match bind_error(f.name, f.params, f.defaults, f.vararg is Some, f.kwarg is Some, args.len(), kws) {
        Some(msg) => Err(exc_sv("TypeError"@, msg)),
        None => {
            let early = positional_writes(f.params, args, f.vararg) + kw_split(f.params, kws, true);
            let late = default_writes(f.params, npos(args.len(), f.params.len()), kws, f.defaults, f.params.len() as int);
            let d = h.dicts.len() as usize;
            let w = early + match f.kwarg {
                Some(dn) => seq![(dn, SVal::Dict(d))],
                None => Seq::empty(),
            } + late;
            let dicts = match f.kwarg {
                Some(_) => h.dicts.push(kw_split(f.params, kws, false)),
                None => h.dicts,
            };
            Ok((HeapView {
                envs: h.envs.push(FrameView {
                    parent: if f.closure < h.envs.len() { Some(f.closure) } else { None },
                    vars: tputs(Seq::empty(), w),
                }),
                dicts,
                ..h
            }, h.envs.len() as usize))
        },
    }
}

/// The `__add__` method bound to `l`, when `l` is an instance whose class has one.
pub open spec fn add_method(h: HeapView, l: SVal) -> Option<SVal> {
    match l {
        SVal::Instance(i) => if i < h.instances.len() {
            match h.method(h.instances[i as int].class as int, "__add__"@) {
                Some(f) => Some(SVal::BoundMethod(Box::new(l), Box::new(f))),
                None => None,
            }
        } else {
            None
        },
        _ => None,
    }
}

/// The heap after `o.a = v`, or the error.
pub open spec fn attr_store(h: HeapView, o: SVal, a: Seq<char>, v: SVal) -> Result<HeapView, SVal> {
    match o {
        SVal::Instance(i) => Ok(if i < h.instances.len() {
            HeapView {
                instances: h.instances.update(i as int, crate::heap::InstanceView {
                    class: h.instances[i as int].class,
                    attrs: tput(h.instances[i as int].attrs, a, v),
                }),
                ..h
            }
        } else {
            h
        }),
        _ => Err(exc_sv("AttributeError"@, "cannot assign attribute"@)),
    }
}

/// A statement: it becomes tasks.
pub open spec fn stmt_spec(m: MachineView, h: HeapView, s: SStmt, env: usize) -> (MachineView, HeapView, SAction) {
    match s {
        SStmt::Expr(x) => next(two(m, STask::Discard, STask::Eval(x, env)), h),
        SStmt::Assign(t, x) => next(two(m, STask::AssignTo(t, env), STask::Eval(x, env)), h),
        SStmt::If(c, b, o) => next(two(m, STask::Branch(b, o, env), STask::Eval(c, env)), h),
        SStmt::While(c, b) => next(with_task(m, STask::While(c, b, env)), h),
        SStmt::For(t, it, b) => next(two(m, STask::ForStart(t, b, env), STask::Eval(it, env)), h),
        SStmt::FunctionDef(n, ps, va, kw, b) => next(two(
            m,
            STask::DefFinish(n, param_names(ps), default_names(ps), va, kw, b, env),
            STask::Eval(SExpr::Tuple(default_exprs(ps)), env),
        ), h),
        SStmt::ClassDef(n, base, b) => match base {
            Some(x) => next(two(m, STask::ClassBase(n, b, env), STask::Eval(x, env)), h),
            None => class_start(m, h, n, None, b, env),
        },
        SStmt::Try(body, hs) => next(two(m, STask::Catch(hs, env, m.vals.len() as usize), STask::Block(body, 0, env)), h),
        SStmt::Raise(x) => next(two(m, STask::RaiseTop, STask::Eval(x, env)), h),
        SStmt::Import(n) => (with_task(m, STask::BindImport(crate::rules::after_last_dot(n), env)), h, SAction::LoadModule(n, 0)),
        SStmt::FromImport(n, ns, lvl) => (with_task(m, STask::FromStart(ns, env)), h, SAction::LoadModule(n, lvl as usize)),
        SStmt::Return(x) => match x {
            Some(x) => next(two(m, STask::ReturnTop, STask::Eval(x, env)), h),
            None => next(with_sig(m, SSignal::Return(SVal::NoneVal)), h),
        },
        SStmt::Break => next(with_sig(m, SSignal::Break), h),
        SStmt::Continue => next(with_sig(m, SSignal::Continue), h),
        SStmt::Pass => next(m, h),
        SStmt::Decorated(d, t) => next(two(m, STask::Exec(decorate(d, defined_name(*t)), env), STask::Exec(*t, env)), h),
        SStmt::Yield(x) => match x {
            Some(x) => next(two(m, STask::YieldTop, STask::Eval(x, env)), h),
            None => next(with_val(with_task(m, STask::YieldTop), SVal::NoneVal), h),
        },
    }
}

/// `n = d(n)`: what a decorator `d` does to the definition of `n`, once
/// that has run.
pub open spec fn decorate(d: SExpr, n: Seq<char>) -> SStmt {
    SStmt::Assign(SExpr::Name(n), SExpr::Call(Box::new(d), seq![SExpr::Name(n)], Seq::empty()))
}

/// The list of the generator whose body runs innermost: the first
/// generator frame below the top, unless a plain call's frame comes first.
pub open spec fn innermost_gen(ts: Seq<STask>) -> Option<usize>
    decreases ts.len(),
{
    if ts.len() == 0 {
        None
    } else {
        match ts.last() {
            STask::GenFrame(l) => Some(l),
            STask::CallFrame => None,
            _ => innermost_gen(ts.drop_last()),
        }
    }
}

/// A class body starts in a new scope inside `env`.
pub open spec fn class_start(m: MachineView, h: HeapView, n: Seq<char>, base: Option<usize>, b: Seq<SStmt>, env: usize) -> (MachineView, HeapView, SAction) {
    let ce = h.envs.len() as usize;
    next(two(m, STask::ClassFinish(n, base, ce, env), STask::Block(b, 0, ce)), new_scope(h, env))
}

/// An expression: its value, or the tasks that compute it.
pub open spec fn eval_spec(m: MachineView, h: HeapView, x: SExpr, env: usize) -> (MachineView, HeapView, SAction) {
    match x {
        SExpr::NoneVal => next(with_val(m, SVal::NoneVal), h),
        SExpr::Bool(b) => next(with_val(m, SVal::Bool(b)), h),
        SExpr::Int(i) => next(with_val(m, SVal::Int(i as i64)), h),
        SExpr::Str(s) => next(with_val(m, SVal::Str(s)), h),
        SExpr::Float(t) => (m, h, SAction::ParseFloat(t)),
        SExpr::Name(n) => match h.lookup(env as int, n) {
            Some(v) => next(with_val(m, v), h),
            None => raise_exc(m, h, "NameError"@, crate::heap::name_error_msg(n)),
        },
        SExpr::FString(s) => next(with_task(m, STask::FStr(fparts_from(s, 0), 0, Seq::empty(), false, env)), h),
        SExpr::Tuple(xs) => next(two(m, STask::Build(false, xs.len() as usize), STask::EvalSeq(xs, 0, env)), h),
        SExpr::List(xs) => next(two(m, STask::Build(true, xs.len() as usize), STask::EvalSeq(xs, 0, env)), h),
        SExpr::Dict(ps) => next(two(m, STask::BuildDict(ps.len() as usize), STask::DictSeq(ps, 0, env)), h),
        SExpr::ListComp(x, t, it, c) => next(two(
            m,
            STask::CompStart(*x, *t, match c { Some(c) => Some(*c), None => None }, env),
            STask::Eval(*it, env),
        ), h),
        SExpr::Lambda(ps, body) => {
            let f = FuncView {
                name: "<lambda>"@,
                params: ps,
                defaults: Seq::empty(),
                vararg: None,
                kwarg: None,
                body: seq![SStmt::Return(Some(*body))],
                closure: env,
            };
            next(with_val(m, SVal::Function(h.funcs.len() as usize)), HeapView { funcs: h.funcs.push(f), ..h })
        },
        SExpr::BinOp(op, l, r) => next(three(m, STask::BinTail(op), STask::Eval(*r, env), STask::Eval(*l, env)), h),
        SExpr::UnaryOp(op, a) => next(two(m, STask::UnTail(op), STask::Eval(*a, env)), h),
        SExpr::Compare(op, l, r) => next(three(m, STask::CompareTail(op), STask::Eval(*r, env), STask::Eval(*l, env)), h),
        SExpr::Logical(op, l, r) => next(two(m, STask::LogicTail(op, *r, env), STask::Eval(*l, env)), h),
        SExpr::Call(f, args, kws) => next(with_task(three(
            m,
            STask::CallTail(args.len() as usize, kws.map_values(|k: (Seq<char>, SExpr)| k.0)),
            STask::EvalSeq(kws.map_values(|k: (Seq<char>, SExpr)| k.1), 0, env),
            STask::EvalSeq(args, 0, env),
        ), STask::Eval(*f, env)), h),
        SExpr::Attribute(o, a) => next(two(m, STask::AttrTail(a), STask::Eval(*o, env)), h),
        SExpr::Subscript(o, i) => next(three(m, STask::SubTail, STask::Eval(*i, env), STask::Eval(*o, env)), h),
    }
}

/// Two operands, `l` below `r`, taken off the stack.
pub open spec fn binop_spec(m: MachineView, h: HeapView, op: Op, l: SVal, r: SVal) -> (MachineView, HeapView, SAction) {
    if op == Op::Add && add_method(h, l) is Some {
        next(with_task(m, STask::Invoke(add_method(h, l)->0, seq![r], Seq::empty())), h)
    } else if op == Op::Add && l is Str && r is Str {
        next(with_val(m, SVal::Str(l->Str_0 + r->Str_0)), h)
    } else {
        match (l, r) {
            (SVal::Int(a), SVal::Int(b)) => match op {
                Op::Add => if i64::MIN <= a + b <= i64::MAX {
                    next(with_val(m, SVal::Int((a + b) as i64)), h)
                } else {
                    (m, h, SAction::Fail("attempt to add with overflow"@))
                },
                Op::Sub => if i64::MIN <= a - b <= i64::MAX {
                    next(with_val(m, SVal::Int((a - b) as i64)), h)
                } else {
                    (m, h, SAction::Fail("attempt to subtract with overflow"@))
                },
                Op::Mul => if i64::MIN <= a * b <= i64::MAX {
                    next(with_val(m, SVal::Int((a * b) as i64)), h)
                } else {
                    (m, h, SAction::Fail("attempt to multiply with overflow"@))
                },
                Op::Div => if b == 0 {
                    raise_exc(m, h, "ZeroDivisionError"@, "division by zero"@)
                } else {
                    (m, h, SAction::Arith(op, l, r))
                },
                Op::Mod => if b == 0 {
                    raise_exc(m, h, "ZeroDivisionError"@, "modulo by zero"@)
                } else if a == i64::MIN && b == -1 {
                    (m, h, SAction::Fail("attempt to calculate the remainder with overflow"@))
                } else {
                    next(with_val(m, SVal::Int(rem_trunc(a as int, b as int) as i64)), h)
                },
                _ => raise_exc(m, h, "TypeError"@, "unsupported operand"@),
            },
            _ => if num_val(l) && num_val(r) {
                (m, h, SAction::Arith(op, l, r))
            } else {
                raise_exc(m, h, "TypeError"@, "expected number"@)
            },
        }
    }
}

/// Whether `v` is a number: an integer, a float or a boolean.
pub open spec fn num_val(v: SVal) -> bool {
    v is Int || v is Float || v is Bool
}

/// The value of an integer or boolean that a float holds exactly (at most
/// 2^53 in magnitude), so that comparing it as a float is comparing it as
/// an integer.
pub open spec fn exact_num(v: SVal) -> Option<int> {
    match v {
        SVal::Int(i) => if -0x20_0000_0000_0000 <= i <= 0x20_0000_0000_0000 { Some(i as int) } else { None },
        SVal::Bool(b) => Some(if b { 1int } else { 0int }),
        _ => None,
    }
}

/// A comparison of two numbers.
pub open spec fn num_compare(op: Op, a: int, b: int) -> bool {
    match op {
        Op::Eq => a == b,
        Op::Ne => a != b,
        Op::Lt => a < b,
        Op::Le => a <= b,
        Op::Gt => a > b,
        Op::Ge => a >= b,
        _ => false,
    }
}

fn is_num(v: &PyValue) -> (r: bool)
    ensures
        r == num_val(v.sv()),
{
    match v {
        PyValue::Int(_) | PyValue::Float(_) | PyValue::Bool(_) => true,
        _ => false,
    }
}

fn exact_int(v: &PyValue) -> (r: Option<i64>)
    ensures
        match r {
            Some(x) => exact_num(v.sv()) == Some(x as int),
            None => exact_num(v.sv()) is None,
        },
{
    match v {
        PyValue::Int(i) => if -0x20_0000_0000_0000 <= *i && *i <= 0x20_0000_0000_0000 { Some(*i) } else { None },
        PyValue::Bool(b) => Some(if *b { 1 } else { 0 }),
        _ => None,
    }
}

fn int_compare(op: Op, a: i64, b: i64) -> (r: bool)
    ensures
        r == num_compare(op, a as int, b as int),
{
    match op {
        Op::Eq => a == b,
        Op::Ne => a != b,
        Op::Lt => a < b,
        Op::Le => a <= b,
        Op::Gt => a > b,
        Op::Ge => a >= b,
        _ => false,
    }
}

/// The remainder of `a / b` rounded toward zero: it has the sign of `a`.
pub open spec fn rem_trunc(a: int, b: int) -> int {
    let m = if b < 0 { -b } else { b };
    if a >= 0 { a % m } else { -((-a) % m) }
}

fn int_rem(a: i64, b: i64) -> (r: i64)
    requires
        b != 0,
    ensures
        r == rem_trunc(a as int, b as int),
{
    let a2 = a as i128;
    let b2 = b as i128;
    let m: i128 = if b2 < 0 { -b2 } else { b2 };
    let r: i128 = if a2 >= 0 { a2 % m } else { -((-a2) % m) };
    proof {
        assert(0 <= (if a2 >= 0 { a2 as int } else { -(a2 as int) }) % (m as int) < m);
    }
    r as i64
}

/// A unary operator on `v`.
pub open spec fn unop_spec(m: MachineView, h: HeapView, op: Op, v: SVal) -> (MachineView, HeapView, SAction) {
    match op {
        Op::Neg => match v {
            SVal::Int(i) => if i == i64::MIN {
                (m, h, SAction::Fail("attempt to negate with overflow"@))
            } else {
                next(with_val(m, SVal::Int((-i) as i64)), h)
            },
            _ => if num_val(v) {
                (m, h, SAction::Arith(op, v, SVal::NoneVal))
            } else {
                raise_exc(m, h, "TypeError"@, "expected number"@)
            },
        },
        Op::Not => next(with_val(m, SVal::Bool(!h.truthy(v))), h),
        _ => raise_exc(m, h, "TypeError"@, "bad unary op"@),
    }
}

/// A comparison of `l` with `r`.
pub open spec fn compare_spec(m: MachineView, h: HeapView, op: Op, l: SVal, r: SVal) -> (MachineView, HeapView, SAction) {
    match (l, r) {
        (SVal::Str(a), SVal::Str(b)) => next(with_val(m, SVal::Bool(match op {
            Op::Eq => a == b,
            Op::Ne => a != b,
            _ => false,
        })), h),
        _ => if !(num_val(l) && num_val(r)) {
            raise_exc(m, h, "TypeError"@, "expected number"@)
        } else if exact_num(l) is Some && exact_num(r) is Some {
            next(with_val(m, SVal::Bool(num_compare(op, exact_num(l)->0, exact_num(r)->0))), h)
        } else {
            (m, h, SAction::Arith(op, l, r))
        },
    }
}

/// A call of `f`.
pub open spec fn invoke_spec(m: MachineView, h: HeapView, f: SVal, args: Seq<SVal>, kws: Seq<(Seq<char>, SVal)>) -> (MachineView, HeapView, SAction) {
    match f {
        SVal::Builtin(b) => (m, h, SAction::CallBuiltin(b, args, kws)),
        SVal::Method(o, name) => if *o is List && name == "append"@ && args.len() == 0 {
            (m, h, SAction::Fail("append() takes exactly one argument"@))
        } else {
            match *o {
                SVal::File(fi) => (m, h, SAction::FileOp(fi, name, args)),
                _ => match crate::objects::method_call(h, *o, name, args) {
                    Ok((h2, v)) => next(with_val(m, v), h2),
                    Err(x) => next(with_sig(m, SSignal::Raise(x)), h),
                },
            }
        },
        SVal::Class(c) => {
            let inst = SVal::Instance(h.instances.len() as usize);
            let h2 = HeapView {
                instances: h.instances.push(crate::heap::InstanceView { class: c, attrs: Seq::empty() }),
                ..h
            };
            match h.method(c as int, "__init__"@) {
                Some(init) => next(two(m, STask::Keep(inst), STask::Invoke(init, seq![inst] + args, kws)), h2),
                None => next(with_val(m, inst), h2),
            }
        },
        SVal::BoundMethod(recv, func) => next(with_task(m, STask::Invoke(*func, seq![*recv] + args, kws)), h),
        SVal::Function(fi) => if fi >= h.funcs.len() {
            (m, h, SAction::Fail("no such function"@))
        } else {
            match call_entry(h, h.funcs[fi as int], args, kws) {
                Err(x) => next(with_sig(m, SSignal::Raise(x)), h),
                Ok((h2, e)) => if yields_all(h.funcs[fi as int].body) {
                    next(
                        two(m, STask::GenFrame(h2.lists.len() as usize), STask::Block(h.funcs[fi as int].body, 0, e)),
                        HeapView { lists: h2.lists.push(Seq::empty()), ..h2 },
                    )
                } else {
                    next(two(m, STask::CallFrame, STask::Block(h.funcs[fi as int].body, 0, e)), h2)
                },
            }
        },
        _ => raise_exc(m, h, "TypeError"@, "object is not callable"@),
    }
}

/// Assigning `v` (already taken off the stack) to target `t`.
pub open spec fn assign_spec(m: MachineView, h: HeapView, t: SExpr, v: SVal, env: usize) -> (MachineView, HeapView, SAction) {
    match t {
        SExpr::Name(n) => next(m, assign_var(h, env, n, v)),
        SExpr::Subscript(o, i) => next(three(m, STask::StoreItem(v), STask::Eval(*i, env), STask::Eval(*o, env)), h),
        SExpr::Attribute(o, a) => next(two(m, STask::StoreAttr(a, v), STask::Eval(*o, env)), h),
        SExpr::Tuple(ts) => unpack_spec(m, h, ts, v, env),
        SExpr::List(ts) => unpack_spec(m, h, ts, v, env),
        _ => raise_exc(m, h, "SyntaxError"@, "invalid assign target"@),
    }
}

pub open spec fn unpack_spec(m: MachineView, h: HeapView, ts: Seq<SExpr>, v: SVal, env: usize) -> (MachineView, HeapView, SAction) {
    match items_of(h, v) {
        None => raise_exc(m, h, "TypeError"@, "cannot unpack non-iterable object"@),
        Some(xs) => if xs.len() != ts.len() {
            raise_exc(m, h, "ValueError"@, unpack_msg(ts.len(), xs.len()))
        } else {
            next(with_task(m, STask::Unpack(ts, xs, 0, env)), h)
        },
    }
}

/// Whether `v` is an instance whose class, or a base of it, defines
/// `__str__`: its text is then what that method gives.
pub open spec fn has_str_method(h: HeapView, v: SVal) -> bool {
    v matches SVal::Instance(i) && i < h.instances.len() && h.method(h.instances[i as int].class as int, "__str__"@) is Some
}

/// Whether every piece is text.
pub open spec fn all_text(ps: Seq<SPiece>) -> bool {
    forall|k: int| 0 <= k < ps.len() ==> ps[k] is Text
}

/// The text pieces put together, in order.
pub open spec fn pieces_text(ps: Seq<SPiece>) -> Seq<char>
    decreases ps.len(),
{
    if ps.len() == 0 {
        Seq::empty()
    } else {
        pieces_text(ps.drop_last()) + match ps.last() {
            SPiece::Text(t) => t,
            _ => Seq::empty(),
        }
    }
}

/// The text of `v` in an f-string: computed here when its display is all
/// text, asked of the caller otherwise.
#[verifier::opaque]
pub open spec fn render_spec(m: MachineView, h: HeapView, v: SVal) -> (MachineView, HeapView, SAction) {
    if has_str_method(h, v) {
        (m, h, SAction::Render(v))
    } else {
        match show_val(h, v, u64::MAX as nat, false) {
            Some(Ok(ps)) => if all_text(ps) {
                next(with_val(m, SVal::Str(pieces_text(ps))), h)
            } else {
                (m, h, SAction::RenderPieces(ps))
            },
            _ => (m, h, SAction::Fail("maximum recursion depth exceeded"@)),
        }
    }
}

fn str_method(heap: &Heap, v: &PyValue) -> (r: bool)
    requires
        heap.wf(),
    ensures
        r == has_str_method(heap@, v.sv()),
{
    match v {
        PyValue::Instance(i) => match heap.instance_class(*i) {
            Some(c) => heap.get_class_method(c, &"__str__".to_owned()).is_some(),
            None => false,
        },
        _ => false,
    }
}

fn only_text(ps: &Vec<Piece>) -> (r: Option<String>)
    ensures
        match r {
            Some(t) => all_text(pieces_view(ps@)) && t@ == pieces_text(pieces_view(ps@)),
            None => !all_text(pieces_view(ps@)),
        },
{
    let mut out = String::new();
    let mut k: usize = 0;
    while k < ps.len()
        invariant
            k <= ps@.len(),
            all_text(pieces_view(ps@.subrange(0, k as int))),
            out@ == pieces_text(pieces_view(ps@.subrange(0, k as int))),
        decreases ps@.len() - k,
    {
        proof {
            assert(pieces_view(ps@.subrange(0, k as int + 1)).drop_last() =~= pieces_view(ps@.subrange(0, k as int)));
        }
        match &ps[k] {
            Piece::Text(t) => {
                proof {
                    let a = pieces_view(ps@.subrange(0, k as int + 1));
                    assert forall|j: int| 0 <= j < a.len() implies a[j] is Text by {
                        if j < k {
                            assert(a[j] == pieces_view(ps@.subrange(0, k as int))[j]);
                        } else {
                            assert(a[j] == ps@[k as int].sv());
                        }
                    }
                    assert(a.last() == SPiece::Text(t@));
                }
                out.append(t.as_str());
            },
            _ => {
                proof {
                    assert(pieces_view(ps@)[k as int] == ps@[k as int].sv());
                }
                return None;
            },
        }
        k = k + 1;
    }
    proof {
        assert(ps@.subrange(0, k as int) =~= ps@);
    }
    Some(out)
}

/// A task popped off the stack, run with no signal pending.
pub open spec fn task_spec(m: MachineView, h: HeapView, t: STask) -> (MachineView, HeapView, SAction) {
    let v = top_val(m.vals);
    let mp = popped(m);
    match t {
        STask::Block(b, i, e) => if i < b.len() {
            next(two(m, STask::Block(b, (i + 1) as usize, e), STask::Exec(b[i as int], e)), h)
        } else {
            next(m, h)
        },
        STask::Exec(s, e) => stmt_spec(m, h, s, e),
        STask::Eval(x, e) => eval_spec(m, h, x, e),
        STask::EvalSeq(xs, i, e) => if i < xs.len() {
            next(two(m, STask::EvalSeq(xs, (i + 1) as usize, e), STask::Eval(xs[i as int], e)), h)
        } else {
            next(m, h)
        },
        STask::Discard => next(mp, h),
        STask::Keep(k) => next(with_val(mp, k), h),
        STask::AssignTo(tg, e) => assign_spec(mp, h, tg, v, e),
        STask::Unpack(ts, xs, i, e) => if i < ts.len() && i < xs.len() {
            next(with_val(two(m, STask::Unpack(ts, xs, (i + 1) as usize, e), STask::AssignTo(ts[i as int], e)), xs[i as int]), h)
        } else {
            next(m, h)
        },
        STask::StoreItem(x) => {
            let o = top_val(mp.vals);
            let m2 = popped(mp);
            match store_item(h, o, v, x) {
                Ok((h2, None)) => next(m2, h2),
                Ok((h2, Some(b))) => next(two(m2, STask::Discard, STask::Invoke(b, seq![v, x], Seq::empty())), h2),
                Err(ex) => next(with_sig(m2, SSignal::Raise(ex)), h),
            }
        },
        STask::StoreAttr(a, x) => match attr_store(h, v, a, x) {
            Ok(h2) => next(mp, h2),
            Err(ex) => next(with_sig(mp, SSignal::Raise(ex)), h),
        },
        STask::Branch(b, o, e) => next(with_task(mp, STask::Block(if h.truthy(v) { b } else { o }, 0, e)), h),
        STask::While(c, b, e) => next(three(m, STask::While(c, b, e), STask::WhileTest(b, e), STask::Eval(c, e)), h),
        STask::WhileTest(b, e) => if h.truthy(v) {
            next(with_task(mp, STask::Block(b, 0, e)), h)
        } else {
            next(with_sig(mp, SSignal::Break), h)
        },
        STask::ForStart(tg, b, e) => match items_of(h, v) {
            Some(xs) => next(with_task(mp, STask::For(tg, b, xs, 0, e)), h),
            None => raise_exc(mp, h, "TypeError"@, "object is not iterable"@),
        },
        STask::For(tg, b, xs, i, e) => if i < xs.len() {
            next(with_val(three(m, STask::For(tg, b, xs, (i + 1) as usize, e), STask::Block(b, 0, e), STask::AssignTo(tg, e)), xs[i as int]), h)
        } else {
            next(m, h)
        },
        STask::DefFinish(n, pn, dn, va, kw, b, e) => {
            let ds = match v {
                SVal::Tuple(xs) => xs,
                _ => Seq::empty(),
            };
            let f = FuncView { name: n, params: pn, defaults: zip_table(dn, ds), vararg: va, kwarg: kw, body: b, closure: e };
            let h2 = HeapView { funcs: h.funcs.push(f), ..h };
            next(mp, put_var(h2, e, n, SVal::Function(h.funcs.len() as usize)))
        },
        STask::ClassBase(n, b, e) => match v {
            SVal::Class(c) => class_start(mp, h, n, Some(c), b, e),
            _ => raise_exc(mp, h, "TypeError"@, "base is not a class"@),
        },
        STask::ClassFinish(n, base, ce, e) => {
            let c = h.classes.len() as usize;
            let h2 = HeapView {
                classes: h.classes.push(crate::heap::ClassView {
                    name: n,
                    base: match base {
                        Some(bc) => if bc < h.classes.len() { Some(bc) } else { None },
                        None => None,
                    },
                    methods: if ce < h.envs.len() { h.envs[ce as int].vars } else { Seq::empty() },
                }),
                ..h
            };
            next(m, put_var(h2, e, n, SVal::Class(c)))
        },
        STask::Catch(_, _, _) => next(m, h),
        STask::RaiseTop => next(with_sig(mp, SSignal::Raise(v)), h),
        STask::ReturnTop => next(with_sig(mp, SSignal::Return(v)), h),
        STask::BindImport(n, e) => next(mp, assign_var(h, e, n, v)),
        STask::FromStart(ns, e) => match v {
            SVal::Module(_, me) => next(with_task(mp, STask::BindFrom(me, ns, 0, e)), h),
            _ => next(mp, h),
        },
        STask::BindFrom(me, ns, i, e) => if i < ns.len() {
            match h.lookup(me as int, ns[i as int]) {
                Some(x) => next(with_task(m, STask::BindFrom(me, ns, (i + 1) as usize, e)), assign_var(h, e, ns[i as int], x)),
                None => raise_exc(m, h, "NameError"@, crate::heap::name_error_msg(ns[i as int])),
            }
        } else {
            next(m, h)
        },
        STask::FStr(ps, i, acc, waiting, e) => if waiting {
            let text = match v {
                SVal::Str(s) => s,
                _ => Seq::empty(),
            };
            next(with_task(mp, STask::FStr(ps, i, acc + text, false, e)), h)
        } else if i < ps.len() {
            match ps[i as int] {
                SPart::Text(s) => next(with_task(m, STask::FStr(ps, (i + 1) as usize, acc + s, false, e)), h),
                SPart::Code(c) => match fcode(c) {
                    None => (m, h, SAction::Fail("f-string expression cannot be tokenized"@)),
                    Some(Err(msg)) => raise_exc(m, h, "SyntaxError"@, msg),
                    Some(Ok(x)) => next(three(m, STask::FStr(ps, (i + 1) as usize, acc, true, e), STask::RenderTop, STask::Eval(x, e)), h),
                },
            }
        } else {
            next(with_val(m, SVal::Str(acc)), h)
        },
        STask::RenderTop => render_spec(mp, h, v),
        STask::CompStart(x, tg, c, e) => match items_of(h, v) {
            None => raise_exc(mp, h, "TypeError"@, "not iterable"@),
            Some(xs) => next(with_task(mp, STask::Comp(x, tg, c, xs, 0, h.envs.len() as usize, Seq::empty(), 0)), new_scope(h, e)),
        },
        STask::Comp(x, tg, c, xs, i, loc, rs, ph) => if ph == 0 {
            if i < xs.len() {
                next(with_val(two(m, STask::Comp(x, tg, c, xs, (i + 1) as usize, loc, rs, 1), STask::AssignTo(tg, loc)), xs[i as int]), h)
            } else {
                next(with_val(m, SVal::List(h.lists.len() as usize)), HeapView { lists: h.lists.push(rs), ..h })
            }
        } else if ph == 1 {
            match c {
                Some(ce) => next(two(m, STask::Comp(x, tg, c, xs, i, loc, rs, 2), STask::Eval(ce, loc)), h),
                None => next(two(m, STask::Comp(x, tg, c, xs, i, loc, rs, 3), STask::Eval(x, loc)), h),
            }
        } else if ph == 2 {
            if h.truthy(v) {
                next(two(mp, STask::Comp(x, tg, c, xs, i, loc, rs, 3), STask::Eval(x, loc)), h)
            } else {
                next(with_task(mp, STask::Comp(x, tg, c, xs, i, loc, rs, 0)), h)
            }
        } else {
            next(with_task(mp, STask::Comp(x, tg, c, xs, i, loc, rs.push(v), 0)), h)
        },
        STask::Build(is_list, n) => {
            let items = top_n(m.vals, n as int);
            let rest = MachineView { vals: below_n(m.vals, n as int), ..m };
            if is_list {
                next(with_val(rest, SVal::List(h.lists.len() as usize)), HeapView { lists: h.lists.push(items), ..h })
            } else {
                next(with_val(rest, SVal::Tuple(items)), h)
            }
        },
        STask::DictSeq(ps, i, e) => if i < ps.len() {
            next(with_task(three(m, STask::DictSeq(ps, (i + 1) as usize, e), STask::Eval(ps[i as int].1, e), STask::KeyCheck), STask::Eval(ps[i as int].0, e)), h)
        } else {
            next(m, h)
        },
        STask::KeyCheck => match key_of(v) {
            Some(k) => next(with_val(mp, SVal::Str(k)), h),
            None => raise_exc(mp, h, "TypeError"@, "unhashable type"@),
        },
        STask::BuildDict(n) => {
            let items = top_n(m.vals, 2 * n as int);
            let rest = MachineView { vals: below_n(m.vals, 2 * n as int), ..m };
            next(with_val(rest, SVal::Dict(h.dicts.len() as usize)), HeapView { dicts: h.dicts.push(dict_fold(items, items.len() / 2)), ..h })
        },
        STask::BinTail(op) => binop_spec(popped(mp), h, op, top_val(mp.vals), v),
        STask::UnTail(op) => unop_spec(mp, h, op, v),
        STask::CompareTail(op) => compare_spec(popped(mp), h, op, top_val(mp.vals), v),
        STask::LogicTail(op, r, e) => {
            let stop = match op {
                LogicOp::And => !h.truthy(v),
                LogicOp::Or => h.truthy(v),
            };
            if stop {
                next(with_val(mp, v), h)
            } else {
                next(with_task(mp, STask::Eval(r, e)), h)
            }
        },
        STask::CallTail(n, ks) => {
            let kv = top_n(m.vals, ks.len() as int);
            let m1 = MachineView { vals: below_n(m.vals, ks.len() as int), ..m };
            let av = top_n(m1.vals, n as int);
            let m2 = MachineView { vals: below_n(m1.vals, n as int), ..m1 };
            next(with_task(popped(m2), STask::Invoke(top_val(m2.vals), av, zip_table(ks, kv))), h)
        },
        STask::Invoke(f, args, kws) => invoke_spec(m, h, f, args, kws),
        STask::CallFrame => next(with_val(m, SVal::NoneVal), h),
        STask::GenFrame(l) => next(with_val(m, SVal::List(l)), h),
        STask::YieldTop => match innermost_gen(m.tasks) {
            Some(l) => next(mp, if l < h.lists.len() {
                HeapView { lists: h.lists.update(l as int, h.lists[l as int].push(v)), ..h }
            } else {
                h
            }),
            None => raise_exc(mp, h, "SyntaxError"@, "'yield' outside function"@),
        },
        STask::AttrTail(a) => match attribute_of(h, v, a) {
            Ok(x) => next(with_val(mp, x), h),
            Err(ex) => next(with_sig(mp, SSignal::Raise(ex)), h),
        },
        STask::SubTail => {
            let o = top_val(mp.vals);
            let m2 = popped(mp);
            match item_of(h, o, v) {
                Ok(SAccess::Value(x)) => next(with_val(m2, x), h),
                Ok(SAccess::Call(b)) => next(with_task(m2, STask::Invoke(b, seq![v], Seq::empty())), h),
                Err(ex) => next(with_sig(m2, SSignal::Raise(ex)), h),
            }
        },
    }
}

/// A task popped off the stack while signal `s` travels outwards.
pub open spec fn unwind_spec(m: MachineView, h: HeapView, t: STask, s: SSignal) -> (MachineView, HeapView, SAction) {
    let cleared = MachineView { sig: None, ..m };
    match (t, s) {
        (STask::Catch(hs, e, ht), SSignal::Raise(x)) => match first_catch(hs, x) {
            Some(k) => {
                let ne = h.envs.len() as usize;
                let h1 = new_scope(h, e);
                let h2 = match hs[k].1 {
                    Some(var) => put_var(h1, ne, var, x),
                    None => h1,
                };
                let keep = if (ht as int) < m.vals.len() { ht as int } else { m.vals.len() as int };
                next(MachineView {
                    tasks: m.tasks.push(STask::Block(hs[k].2, 0, ne)),
                    vals: m.vals.subrange(0, keep),
                    sig: None,
                }, h2)
            },
            None => next(m, h),
        },
        (STask::While(_, _, _), SSignal::Break) => next(cleared, h),
        (STask::While(_, _, _), SSignal::Continue) => next(with_task(cleared, t), h),
        (STask::For(_, _, _, _, _), SSignal::Break) => next(cleared, h),
        (STask::For(_, _, _, _, _), SSignal::Continue) => next(with_task(cleared, t), h),
        (STask::CallFrame, SSignal::Return(v)) => next(with_val(cleared, v), h),
        (STask::CallFrame, SSignal::Break) => next(with_val(cleared, SVal::NoneVal), h),
        (STask::CallFrame, SSignal::Continue) => next(with_val(cleared, SVal::NoneVal), h),
        (STask::GenFrame(l), SSignal::Return(_)) => next(with_val(cleared, SVal::List(l)), h),
        (STask::GenFrame(l), SSignal::Break) => next(with_val(cleared, SVal::List(l)), h),
        (STask::GenFrame(l), SSignal::Continue) => next(with_val(cleared, SVal::List(l)), h),
        (STask::ClassFinish(_, _, _, _), SSignal::Break) => next(with_task(cleared, t), h),
        (STask::ClassFinish(_, _, _, _), SSignal::Continue) => next(with_task(cleared, t), h),
        (STask::ClassFinish(_, _, _, _), SSignal::Return(_)) => next(with_task(cleared, t), h),
        _ => next(m, h),
    }
}

/// One move of the machine on event `ev`.
pub open spec fn step_spec(m: MachineView, h: HeapView, ev: SEvent) -> (MachineView, HeapView, SAction) {
    match ev {
        SEvent::Value(Ok(v)) => next(with_val(m, v), h),
        SEvent::Value(Err(x)) => next(with_sig(m, SSignal::Raise(x)), h),
        SEvent::Start => {
            let rest = MachineView { tasks: m.tasks.drop_last(), ..m };
            match m.sig {
                Some(s) => if m.tasks.len() == 0 {
                    (m, h, SAction::Done(match s {
                        SSignal::Raise(x) => Err(x),
                        _ => Ok(SVal::NoneVal),
                    }))
                } else {
                    unwind_spec(rest, h, m.tasks.last(), s)
                },
                None => if m.tasks.len() == 0 {
                    (m, h, SAction::Done(Ok(top_val(m.vals))))
                } else {
                    task_spec(rest, h, m.tasks.last())
                },
            }
        },
    }
}

// ----------------------------------------------------------------------
// the transition, as code
// ----------------------------------------------------------------------

proof fn lemma_vals_concat(a: Seq<PyValue>, b: Seq<PyValue>)
    ensures
        vals_view(a + b) == vals_view(a) + vals_view(b),
{
    lemma_vals_index(a);
    lemma_vals_index(b);
    lemma_vals_index(a + b);
    assert(vals_view(a + b) =~= vals_view(a) + vals_view(b));
}

proof fn lemma_names_push(s: Seq<String>, x: String)
    ensures
        names(s.push(x)) == names(s).push(x@),
{
    assert(names(s.push(x)) =~= names(s).push(x@));
}

/// The items `v` runs over, copied.
fn items(heap: &Heap, v: PyValue) -> (r: Option<Vec<PyValue>>)
    requires
        heap.wf(),
    ensures
        match r {
            Some(xs) => items_of(heap@, v.sv()) == Some(vals_view(xs@)),
            None => items_of(heap@, v.sv()) is None,
        },
{
    match v {
        PyValue::List(l) => Some(heap.list_items(l)),
        PyValue::Tuple(t) => Some(t),
        PyValue::Str(s) => Some(str_chars(&s)),
        _ => None,
    }
}

/// Binds `ks[i]` to `vs[i]` in a new table, as far as both go.
fn zip_into_table(ks: &Vec<String>, vs: &Vec<PyValue>) -> (t: Table)
    ensures
        tview(t@) == zip_table(names(ks@), vals_view(vs@)),
{
    proof {
        lemma_vals_index(vs@);
    }
    let n = if ks.len() < vs.len() { ks.len() } else { vs.len() };
    let ghost pairs = Seq::new(n as nat, |j: int| (names(ks@)[j], vals_view(vs@)[j]));
    let mut t: Table = Vec::new();
    let mut i: usize = 0;
    proof {
        assert(tview(t@) =~= Seq::empty());
        assert(pairs.take(0) =~= Seq::empty());
    }
    while i < n
        invariant
            i <= n,
            n <= ks.len(),
            n <= vs.len(),
            vals_view(vs@).len() == vs.len(),
            pairs == Seq::new(n as nat, |j: int| (names(ks@)[j], vals_view(vs@)[j])),
            tview(t@) == tputs(Seq::empty(), pairs.take(i as int)),
        decreases n - i,
    {
        proof {
            lemma_vals_index(vs@);
        }
        tbl_put(&mut t, ks[i].clone(), vs[i].copy());
        proof {
            assert(pairs.take(i + 1).drop_last() =~= pairs.take(i as int));
        }
        i = i + 1;
    }
    proof {
        assert(pairs.take(n as int) =~= pairs);
    }
    t
}

/// The dict of the key-value pairs in `items`.
fn dict_from_items(items: &Vec<PyValue>) -> (t: Table)
    ensures
        tview(t@) == dict_fold(vals_view(items@), (items.len() / 2) as nat),
{
    proof {
        lemma_vals_index(items@);
    }
    let n = items.len() / 2;
    let mut t: Table = Vec::new();
    let mut j: usize = 0;
    proof {
        assert(tview(t@) =~= Seq::empty());
    }
    while j < n
        invariant
            j <= n,
            n == items.len() / 2,
            vals_view(items@).len() == items.len(),
            forall|i: int| 0 <= i < items.len() ==> #[trigger] vals_view(items@)[i] == items@[i].sv(),
            tview(t@) == dict_fold(vals_view(items@), j as nat),
        decreases n - j,
    {
        let kv = &items[2 * j];
        match kv.as_key() {
            Ok(k) => {
                tbl_put(&mut t, k, items[2 * j + 1].copy());
            },
            Err(_) => {},
        }
        j = j + 1;
    }
    t
}

/// The names of a function's parameters, those with a default, and the
/// default expressions.
fn split_params(ps: &Vec<(String, Option<Expr>)>) -> (r: (Vec<String>, Vec<String>, Vec<Expr>))
    ensures
        names(r.0@) == param_names(params_view(ps@)),
        names(r.1@) == default_names(params_view(ps@)),
        exprs_view(r.2@) == default_exprs(params_view(ps@)),
{
    let mut pn: Vec<String> = Vec::new();
    let mut dn: Vec<String> = Vec::new();
    let mut dx: Vec<Expr> = Vec::new();
    let mut i: usize = 0;
    proof {
        assert(ps@.subrange(0, 0) =~= Seq::<(String, Option<Expr>)>::empty());
        assert(names(pn@) =~= param_names(params_view(ps@.subrange(0, 0))));
        assert(names(dn@) =~= Seq::<Seq<char>>::empty());
        assert(exprs_view(dx@) =~= Seq::<SExpr>::empty());
    }
    while i < ps.len()
        invariant
            i <= ps.len(),
            names(pn@) == param_names(params_view(ps@.subrange(0, i as int))),
            names(dn@) == default_names(params_view(ps@.subrange(0, i as int))),
            exprs_view(dx@) == default_exprs(params_view(ps@.subrange(0, i as int))),
        decreases ps.len() - i,
    {
        let ghost pre = ps@.subrange(0, i as int);
        let ghost x = ps@[i as int];
        proof {
            assert(ps@.subrange(0, i + 1) =~= pre.push(x));
            crate::ast::lemma_params_push(pre, x);
            let pv = params_view(pre);
            let xv = (x.0@, opt_expr_view(x.1));
            assert(pv.push(xv).drop_last() =~= pv);
            assert(param_names(pv.push(xv)) =~= param_names(pv).push(xv.0));
        }
        let ghost pn0 = pn@;
        let nm = ps[i].0.clone();
        proof {
            lemma_names_push(pn0, nm);
        }
        pn.push(nm);
        match &ps[i].1 {
            Some(d) => {
                let ghost dn0 = dn@;
                let nm2 = ps[i].0.clone();
                proof {
                    lemma_names_push(dn0, nm2);
                }
                dn.push(nm2);
                let ghost dx0 = dx@;
                let dc = d.copy();
                proof {
                    crate::ast::lemma_exprs_push(dx0, dc);
                }
                dx.push(dc);
            },
            None => {},
        }
        i = i + 1;
    }
    proof {
        assert(ps@.subrange(0, ps.len() as int) =~= ps@);
    }
    (pn, dn, dx)
}

/// The names and the expressions of a call's keyword arguments.
fn split_kwargs(ks: &Vec<(String, Expr)>) -> (r: (Vec<String>, Vec<Expr>))
    ensures
        names(r.0@) == kwargs_view(ks@).map_values(|k: (Seq<char>, SExpr)| k.0),
        exprs_view(r.1@) == kwargs_view(ks@).map_values(|k: (Seq<char>, SExpr)| k.1),
{
    let mut kn: Vec<String> = Vec::new();
    let mut kx: Vec<Expr> = Vec::new();
    let mut i: usize = 0;
    proof {
        assert(ks@.subrange(0, 0) =~= Seq::<(String, Expr)>::empty());
        assert(names(kn@) =~= Seq::<Seq<char>>::empty());
        assert(exprs_view(kx@) =~= Seq::<SExpr>::empty());
        assert(kwargs_view(ks@.subrange(0, 0)).map_values(|k: (Seq<char>, SExpr)| k.0) =~= Seq::<Seq<char>>::empty());
        assert(kwargs_view(ks@.subrange(0, 0)).map_values(|k: (Seq<char>, SExpr)| k.1) =~= Seq::<SExpr>::empty());
    }
    while i < ks.len()
        invariant
            i <= ks.len(),
            names(kn@) == kwargs_view(ks@.subrange(0, i as int)).map_values(|k: (Seq<char>, SExpr)| k.0),
            exprs_view(kx@) == kwargs_view(ks@.subrange(0, i as int)).map_values(|k: (Seq<char>, SExpr)| k.1),
        decreases ks.len() - i,
    {
        let ghost pre = ks@.subrange(0, i as int);
        let ghost x = ks@[i as int];
        let ghost kn0 = kn@;
        let ghost kx0 = kx@;
        let name = ks[i].0.clone();
        let xc = ks[i].1.copy();
        proof {
            assert(ks@.subrange(0, i + 1) =~= pre.push(x));
            crate::ast::lemma_kwargs_push(pre, x);
            let kv = kwargs_view(pre);
            let xv = (x.0@, x.1.sv());
            assert(kv.push(xv).map_values(|k: (Seq<char>, SExpr)| k.0) =~= kv.map_values(|k: (Seq<char>, SExpr)| k.0).push(xv.0));
            assert(kv.push(xv).map_values(|k: (Seq<char>, SExpr)| k.1) =~= kv.map_values(|k: (Seq<char>, SExpr)| k.1).push(xv.1));
            lemma_names_push(kn0, name);
            crate::ast::lemma_exprs_push(kx0, xc);
        }
        kn.push(name);
        kx.push(xc);
        i = i + 1;
    }
    proof {
        assert(ks@.subrange(0, ks.len() as int) =~= ks@);
    }
    (kn, kx)
}

/// The expression a piece of f-string code holds.
fn parse_fcode(code: &String) -> (r: Option<Result<Expr, String>>)
    ensures
        match r {
            None => fcode(code@) is None,
            Some(Ok(x)) => fcode(code@) == Some(Ok::<SExpr, Seq<char>>(x.sv())),
            Some(Err(msg)) => fcode(code@) == Some(Err::<SExpr, Seq<char>>(msg@)),
        },
{
    if code.as_str().unicode_len() >= 0x2000_0000 {
        return None;
    }
    match lex_checked(code.as_str()) {
        None => None,
        Some(Err(e)) => Some(Err(e)),
        Some(Ok(toks)) => {
            let fname = "<fstring>";
            let mut p = Parser::new(toks.as_slice(), fname);
            match p.parse_expr() {
                Ok(x) => Some(Ok(x)),
                Err(msg) => Some(Err(msg)),
            }
        },
    }
}

/// `l.__add__`, when `l` is an instance whose class defines it.
fn add_method_of(heap: &Heap, l: &PyValue) -> (r: Option<PyValue>)
    requires
        heap.wf(),
    ensures
        crate::value::opt_sv(r) == add_method(heap@, l.sv()),
{
    match l {
        PyValue::Instance(i) => match heap.instance_class(*i) {
            Some(c) => match heap.get_class_method(c, &"__add__".to_owned()) {
                Some(f) => Some(PyValue::BoundMethod(Box::new(l.copy()), Box::new(f))),
                None => None,
            },
            None => None,
        },
        _ => None,
    }
}

impl Machine {
    /// A machine that runs `body` in scope `env`.
    pub fn run_block(body: Vec<Stmt>, env: usize) -> (m: Machine)
        ensures
            m@ == (MachineView { tasks: seq![STask::Block(stmts_view(body@), 0, env)], vals: Seq::empty(), sig: None }),
    {
        let m = Machine { tasks: vec![Task::Block(body, 0, env)], vals: Vec::new(), sig: None };
        proof {
            assert(m.tasks@.map_values(|t: Task| t.sv()) =~= seq![STask::Block(stmts_view(body@), 0, env)]);
            assert(vals_view(m.vals@) =~= Seq::empty());
        }
        m
    }

    /// A machine that evaluates `x` in scope `env`; its run ends with the value.
    pub fn eval(x: Expr, env: usize) -> (m: Machine)
        ensures
            m@ == (MachineView { tasks: seq![STask::Eval(x.sv(), env)], vals: Seq::empty(), sig: None }),
    {
        let ghost xv = x.sv();
        let m = Machine { tasks: vec![Task::Eval(x, env)], vals: Vec::new(), sig: None };
        proof {
            assert(m.tasks@.map_values(|t: Task| t.sv()) =~= seq![STask::Eval(xv, env)]);
            assert(vals_view(m.vals@) =~= Seq::empty());
        }
        m
    }

    /// A machine that calls `f`; its run ends with the call's result.
    pub fn call(f: PyValue, args: Vec<PyValue>, kws: Table) -> (m: Machine)
        ensures
            m@ == (MachineView {
                tasks: seq![STask::Invoke(f.sv(), vals_view(args@), tview(kws@))],
                vals: Seq::empty(),
                sig: None,
            }),
    {
        let ghost fv = f.sv();
        let ghost av = vals_view(args@);
        let ghost kv = tview(kws@);
        let m = Machine { tasks: vec![Task::Invoke(f, args, kws)], vals: Vec::new(), sig: None };
        proof {
            assert(m.tasks@.map_values(|t: Task| t.sv()) =~= seq![STask::Invoke(fv, av, kv)]);
            assert(vals_view(m.vals@) =~= Seq::empty());
        }
        m
    }

    fn take_top(&mut self, n: usize) -> (r: Vec<PyValue>)
        ensures
            vals_view(r@) == top_n(old(self)@.vals, n as int),
            final(self)@ == (MachineView { vals: below_n(old(self)@.vals, n as int), ..old(self)@ }),
    {
        let ghost vs = self.vals@;
        proof {
            lemma_vals_index(vs);
        }
        let at = if n <= self.vals.len() { self.vals.len() - n } else { 0 };
        let r = self.vals.split_off(at);
        proof {
            lemma_vals_prefix(vs, at as int);
            lemma_vals_suffix(vs, at as int);
        }
        r
    }

    fn fail(&self, msg: &str) -> (a: Action)
        ensures
            a.sv() == SAction::Fail(msg@),
    {
        Action::Fail(msg.to_owned())
    }

    fn raise_new(&mut self, typ: &str, msg: &str)
        ensures
            final(self)@ == with_sig(old(self)@, SSignal::Raise(exc_sv(typ@, msg@))),
    {
        self.raise(crate::value::py_err_val(typ, msg));
    }
}

impl Machine {
    fn class_start(&mut self, heap: &mut Heap, n: String, base: Option<usize>, b: Vec<Stmt>, env: usize) -> (a: Action)
        requires
            old(heap).wf(),
        ensures
            final(heap).wf(),
            (final(self)@, final(heap)@, a.sv()) == class_start(old(self)@, old(heap)@, n@, base, stmts_view(b@), env),
    {
        let ce = heap.env_new(Some(env));
        self.push_task(Task::ClassFinish(n, base, ce, env));
        self.push_task(Task::Block(b, 0, ce));
        Action::Next
    }

    fn exec_stmt(&mut self, heap: &mut Heap, s: Stmt, env: usize) -> (a: Action)
        requires
            old(heap).wf(),
        ensures
            final(heap).wf(),
            (final(self)@, final(heap)@, a.sv()) == stmt_spec(old(self)@, old(heap)@, s.sv(), env),
    {
        match s {
            Stmt::Expr(x) => {
                self.push_task(Task::Discard);
                self.push_task(Task::Eval(x, env));
            },
            Stmt::Assign(t, x) => {
                self.push_task(Task::AssignTo(t, env));
                self.push_task(Task::Eval(x, env));
            },
            Stmt::If(c, b, o) => {
                self.push_task(Task::Branch(b, o, env));
                self.push_task(Task::Eval(c, env));
            },
            Stmt::While(c, b) => {
                self.push_task(Task::While(c, b, env));
            },
            Stmt::For(t, it, b) => {
                self.push_task(Task::ForStart(t, b, env));
                self.push_task(Task::Eval(it, env));
            },
            Stmt::FunctionDef(n, ps, va, kw, b) => {
                let (pn, dn, dx) = split_params(&ps);
                self.push_task(Task::DefFinish(n, pn, dn, va, kw, b, env));
                self.push_task(Task::Eval(Expr::Tuple(dx), env));
            },
            Stmt::ClassDef(n, base, b) => {
                match base {
                    Some(x) => {
                        self.push_task(Task::ClassBase(n, b, env));
                        self.push_task(Task::Eval(x, env));
                    },
                    None => {
                        return self.class_start(heap, n, None, b, env);
                    },
                }
            },
            Stmt::Try(body, hs) => {
                let ht = self.vals.len();
                proof {
                    lemma_vals_index(self.vals@);
                }
                self.push_task(Task::Catch(hs, env, ht));
                self.push_task(Task::Block(body, 0, env));
            },
            Stmt::Raise(x) => {
                self.push_task(Task::RaiseTop);
                self.push_task(Task::Eval(x, env));
            },
            Stmt::Import(n) => {
                let bind = crate::rules::last_component(&n);
                self.push_task(Task::BindImport(bind, env));
                return Action::LoadModule(n, 0);
            },
            Stmt::FromImport(n, ns, lvl) => {
                self.push_task(Task::FromStart(ns, env));
                return Action::LoadModule(n, lvl);
            },
            Stmt::Return(x) => {
                match x {
                    Some(x) => {
                        self.push_task(Task::ReturnTop);
                        self.push_task(Task::Eval(x, env));
                    },
                    None => {
                        self.signal(Signal::Return(PyValue::NoneVal));
                    },
                }
            },
            Stmt::Break => {
                self.signal(Signal::Break);
            },
            Stmt::Continue => {
                self.signal(Signal::Continue);
            },
            Stmt::Pass => {},
            Stmt::Decorated(d, t) => {
                let n = name_defined(&t);
                let ghost dv = d.sv();
                let args = vec![Expr::Name(n.clone())];
                let kws: Vec<(String, Expr)> = Vec::new();
                proof {
                    assert(args@.drop_last() =~= Seq::<Expr>::empty());
                    assert(exprs_view(args@) == exprs_view(args@.drop_last()).push(args@.last().sv()));
                    assert(exprs_view(args@) =~= seq![SExpr::Name(n@)]);
                    assert(kwargs_view(kws@) =~= Seq::<(Seq<char>, SExpr)>::empty());
                }
                let call = Expr::Call(Box::new(d), args, kws);
                let assign = Stmt::Assign(Expr::Name(n), call);
                proof {
                    assert(assign.sv() == decorate(dv, n@));
                }
                self.push_task(Task::Exec(assign, env));
                self.push_task(Task::Exec(*t, env));
            },
            Stmt::Yield(x) => {
                match x {
                    Some(x) => {
                        self.push_task(Task::YieldTop);
                        self.push_task(Task::Eval(x, env));
                    },
                    None => {
                        self.push_task(Task::YieldTop);
                        self.push_val(PyValue::NoneVal);
                    },
                }
            },
        }
        Action::Next
    }

    fn innermost_gen(&self) -> (r: Option<usize>)
        ensures
            r == innermost_gen(self@.tasks),
    {
        let ghost ts = self@.tasks;
        let mut i = self.tasks.len();
        proof {
            assert(ts.take(i as int) =~= ts);
        }
        while i > 0
            invariant
                i <= self.tasks.len(),
                ts == self@.tasks,
                ts.len() == self.tasks.len(),
                innermost_gen(ts) == innermost_gen(ts.take(i as int)),
            decreases i,
        {
            proof {
                assert(ts[i - 1] == self.tasks@[i - 1].sv());
                assert(ts.take(i as int).last() == ts[i - 1]);
                assert(ts.take(i as int).drop_last() =~= ts.take(i - 1));
            }
            match &self.tasks[i - 1] {
                Task::GenFrame(l) => {
                    return Some(*l);
                },
                Task::CallFrame => {
                    return None;
                },
                _ => {},
            }
            i = i - 1;
        }
        None
    }

    fn eval_expr(&mut self, heap: &mut Heap, x: Expr, env: usize) -> (a: Action)
        requires
            old(heap).wf(),
        ensures
            final(heap).wf(),
            (final(self)@, final(heap)@, a.sv()) == eval_spec(old(self)@, old(heap)@, x.sv(), env),
    {
        match x {
            Expr::NoneVal => self.push_val(PyValue::NoneVal),
            Expr::Bool(b) => self.push_val(PyValue::Bool(b)),
            Expr::Int(i) => self.push_val(PyValue::Int(i)),
            Expr::String(s) => self.push_val(PyValue::Str(s)),
            Expr::Float(t) => {
                return Action::ParseFloat(t);
            },
            Expr::Name(n) => match heap.env_get(env, &n) {
                Ok(v) => self.push_val(v),
                Err(ex) => self.raise(ex),
            },
            Expr::FString(s) => {
                let parts = fstring_parts(&s);
                self.push_task(Task::FStr(parts, 0, String::new(), false, env));
            },
            Expr::Tuple(xs) => {
                proof {
                    lemma_exprs_index(xs@);
                }
                self.push_task(Task::Build(false, xs.len()));
                self.push_task(Task::EvalSeq(xs, 0, env));
            },
            Expr::List(xs) => {
                proof {
                    lemma_exprs_index(xs@);
                }
                self.push_task(Task::Build(true, xs.len()));
                self.push_task(Task::EvalSeq(xs, 0, env));
            },
            Expr::Dict(ps) => {
                proof {
                    lemma_pairs_index(ps@);
                }
                self.push_task(Task::BuildDict(ps.len()));
                self.push_task(Task::DictSeq(ps, 0, env));
            },
            Expr::ListComp(x, t, it, c) => {
                let c2 = match c {
                    Some(b) => Some(*b),
                    None => None,
                };
                self.push_task(Task::CompStart(*x, *t, c2, env));
                self.push_task(Task::Eval(*it, env));
            },
            Expr::Lambda(ps, body) => {
                let ghost bv = body.sv();
                let ret = Stmt::Return(Some(*body));
                let b = vec![ret];
                let d: Table = Vec::new();
                proof {
                    assert(b@.drop_last() =~= Seq::<Stmt>::empty());
                    assert(b@.last() == ret);
                    assert(ret.sv() == SStmt::Return(Some(bv)));
                    assert(stmts_view(b@) == stmts_view(b@.drop_last()).push(b@.last().sv()));
                    assert(stmts_view(b@) =~= seq![SStmt::Return(Some(bv))]);
                    assert(tview(d@) =~= Seq::empty());
                }
                let fi = heap.func_new(FuncParts {
                    name: "<lambda>".to_owned(),
                    params: ps,
                    defaults: d,
                    vararg: None,
                    kwarg: None,
                    body: b,
                    closure: env,
                });
                self.push_val(PyValue::Function(fi));
            },
            Expr::BinOp(op, l, r) => {
                self.push_task(Task::BinTail(op));
                self.push_task(Task::Eval(*r, env));
                self.push_task(Task::Eval(*l, env));
            },
            Expr::UnaryOp(op, o) => {
                self.push_task(Task::UnTail(op));
                self.push_task(Task::Eval(*o, env));
            },
            Expr::Compare(op, l, r) => {
                self.push_task(Task::CompareTail(op));
                self.push_task(Task::Eval(*r, env));
                self.push_task(Task::Eval(*l, env));
            },
            Expr::Logical(op, l, r) => {
                self.push_task(Task::LogicTail(op, *r, env));
                self.push_task(Task::Eval(*l, env));
            },
            Expr::Call(f, args, kws) => {
                proof {
                    lemma_exprs_index(args@);
                }
                let (kn, kx) = split_kwargs(&kws);
                self.push_task(Task::CallTail(args.len(), kn));
                self.push_task(Task::EvalSeq(kx, 0, env));
                self.push_task(Task::EvalSeq(args, 0, env));
                self.push_task(Task::Eval(*f, env));
            },
            Expr::Attribute(o, a) => {
                self.push_task(Task::AttrTail(a));
                self.push_task(Task::Eval(*o, env));
            },
            Expr::Subscript(o, i) => {
                self.push_task(Task::SubTail);
                self.push_task(Task::Eval(*i, env));
                self.push_task(Task::Eval(*o, env));
            },
        }
        Action::Next
    }

    fn unpack(&mut self, heap: &mut Heap, ts: Vec<Expr>, v: PyValue, env: usize) -> (a: Action)
        requires
            old(heap).wf(),
        ensures
            final(heap).wf(),
            (final(self)@, final(heap)@, a.sv()) == unpack_spec(old(self)@, old(heap)@, exprs_view(ts@), v.sv(), env),
    {
        proof {
            lemma_exprs_index(ts@);
        }
        match items(heap, v) {
            None => self.raise_new("TypeError", "cannot unpack non-iterable object"),
            Some(xs) => {
                proof {
                    lemma_vals_index(xs@);
                }
                if xs.len() != ts.len() {
                    let mut msg = "too many/few values to unpack (expected ".to_owned();
                    crate::text::push_dec(&mut msg, ts.len());
                    msg.append(", got ");
                    crate::text::push_dec(&mut msg, xs.len());
                    msg.append(")");
                    proof {
                        assert(msg@ =~= unpack_msg(ts.len() as nat, xs.len() as nat));
                    }
                    self.raise(crate::value::py_err_string("ValueError", msg));
                } else {
                    self.push_task(Task::Unpack(ts, xs, 0, env));
                }
            },
        }
        Action::Next
    }

    fn assign(&mut self, heap: &mut Heap, t: Expr, v: PyValue, env: usize) -> (a: Action)
        requires
            old(heap).wf(),
        ensures
            final(heap).wf(),
            (final(self)@, final(heap)@, a.sv()) == assign_spec(old(self)@, old(heap)@, t.sv(), v.sv(), env),
    {
        match t {
            Expr::Name(n) => {
                heap.env_assign(env, n, v);
                Action::Next
            },
            Expr::Subscript(o, i) => {
                self.push_task(Task::StoreItem(v));
                self.push_task(Task::Eval(*i, env));
                self.push_task(Task::Eval(*o, env));
                Action::Next
            },
            Expr::Attribute(o, a) => {
                self.push_task(Task::StoreAttr(a, v));
                self.push_task(Task::Eval(*o, env));
                Action::Next
            },
            Expr::Tuple(ts) => self.unpack(heap, ts, v, env),
            Expr::List(ts) => self.unpack(heap, ts, v, env),
            _ => {
                self.raise_new("SyntaxError", "invalid assign target");
                Action::Next
            },
        }
    }
}

impl Machine {
    fn binop(&mut self, heap: &mut Heap, op: Op, l: PyValue, r: PyValue) -> (a: Action)
        requires
            old(heap).wf(),
        ensures
            final(heap).wf(),
            (final(self)@, final(heap)@, a.sv()) == binop_spec(old(self)@, old(heap)@, op, l.sv(), r.sv()),
    {
        let is_add = match op {
            Op::Add => true,
            _ => false,
        };
        if is_add {
            match add_method_of(heap, &l) {
                Some(f) => {
                    let args = vec![r];
                    proof {
                        lemma_vals_index(args@);
                        assert(vals_view(args@) =~= seq![r.sv()]);
                    }
                    let kw: Table = Vec::new();
                    proof {
                        assert(tview(kw@) =~= Seq::empty());
                    }
                    self.push_task(Task::Invoke(f, args, kw));
                    return Action::Next;
                },
                None => {},
            }
            match (&l, &r) {
                (PyValue::Str(a), PyValue::Str(b)) => {
                    let mut s = a.clone();
                    s.append(b.as_str());
                    self.push_val(PyValue::Str(s));
                    return Action::Next;
                },
                _ => {},
            }
        }
        let ints = match (&l, &r) {
            (PyValue::Int(a), PyValue::Int(b)) => Some((*a, *b)),
            _ => None,
        };
        match ints {
            Some((a, b)) => match op {
                Op::Add => match a.checked_add(b) {
                    Some(c) => self.push_val(PyValue::Int(c)),
                    None => {
                        return self.fail("attempt to add with overflow");
                    },
                },
                Op::Sub => match a.checked_sub(b) {
                    Some(c) => self.push_val(PyValue::Int(c)),
                    None => {
                        return self.fail("attempt to subtract with overflow");
                    },
                },
                Op::Mul => match a.checked_mul(b) {
                    Some(c) => self.push_val(PyValue::Int(c)),
                    None => {
                        return self.fail("attempt to multiply with overflow");
                    },
                },
                Op::Div => {
                    if b == 0 {
                        self.raise_new("ZeroDivisionError", "division by zero");
                    } else {
                        return Action::Arith(op, l, r);
                    }
                },
                Op::Mod => {
                    if b == 0 {
                        self.raise_new("ZeroDivisionError", "modulo by zero");
                    } else if a == i64::MIN && b == -1 {
                        return self.fail("attempt to calculate the remainder with overflow");
                    } else {
                        self.push_val(PyValue::Int(int_rem(a, b)));
                    }
                },
                _ => self.raise_new("TypeError", "unsupported operand"),
            },
            None => {
                if is_num(&l) && is_num(&r) {
                    return Action::Arith(op, l, r);
                }
                self.raise_new("TypeError", "expected number");
            },
        }
        Action::Next
    }

    fn unop(&mut self, heap: &mut Heap, op: Op, v: PyValue) -> (a: Action)
        requires
            old(heap).wf(),
        ensures
            final(heap).wf(),
            (final(self)@, final(heap)@, a.sv()) == unop_spec(old(self)@, old(heap)@, op, v.sv()),
    {
        match op {
            Op::Neg => match v {
                PyValue::Int(i) => {
                    if i == i64::MIN {
                        return self.fail("attempt to negate with overflow");
                    }
                    self.push_val(PyValue::Int(-i));
                },
                _ => {
                    if is_num(&v) {
                        return Action::Arith(op, v, PyValue::NoneVal);
                    }
                    self.raise_new("TypeError", "expected number");
                },
            },
            Op::Not => {
                let t = v.is_truthy(heap);
                self.push_val(PyValue::Bool(!t));
            },
            _ => self.raise_new("TypeError", "bad unary op"),
        }
        Action::Next
    }

    fn compare(&mut self, heap: &mut Heap, op: Op, l: PyValue, r: PyValue) -> (a: Action)
        requires
            old(heap).wf(),
        ensures
            final(heap).wf(),
            (final(self)@, final(heap)@, a.sv()) == compare_spec(old(self)@, old(heap)@, op, l.sv(), r.sv()),
    {
        let res = match (&l, &r) {
            (PyValue::Str(a), PyValue::Str(b)) => Some(match op {
                Op::Eq => *a == *b,
                Op::Ne => *a != *b,
                _ => false,
            }),
            _ => None,
        };
        match res {
            Some(t) => {
                self.push_val(PyValue::Bool(t));
                Action::Next
            },
            None => {
                if !(is_num(&l) && is_num(&r)) {
                    self.raise_new("TypeError", "expected number");
                    return Action::Next;
                }
                match (exact_int(&l), exact_int(&r)) {
                    (Some(a), Some(b)) => {
                        self.push_val(PyValue::Bool(int_compare(op, a, b)));
                        Action::Next
                    },
                    _ => Action::Arith(op, l, r),
                }
            },
        }
    }

    fn invoke(&mut self, heap: &mut Heap, f: PyValue, args: Vec<PyValue>, kws: Table) -> (a: Action)
        requires
            old(heap).wf(),
        ensures
            final(heap).wf(),
            (final(self)@, final(heap)@, a.sv()) == invoke_spec(old(self)@, old(heap)@, f.sv(), vals_view(args@), tview(kws@)),
    {
        proof {
            lemma_vals_index(args@);
        }
        match f {
            PyValue::Builtin(b) => Action::CallBuiltin(b, args, kws),
            PyValue::Method(o, name) => {
                let is_list = match *o {
                    PyValue::List(_) => true,
                    _ => false,
                };
                let append = "append".to_owned();
                if is_list && name == append && args.len() == 0 {
                    assert(o.sv() is List);
                    assert(name@ == "append"@);
                    assert(vals_view(args@).len() == 0);
                    return self.fail("append() takes exactly one argument");
                }
                match *o {
                    PyValue::File(fi) => Action::FileOp(fi, name, args),
                    other => match crate::objects::call_builtin_method(heap, &other, &name, &args) {
                        Some(Ok(v)) => {
                            self.push_val(v);
                            Action::Next
                        },
                        Some(Err(ex)) => {
                            self.raise(ex);
                            Action::Next
                        },
                        None => {
                            proof {
                                assert(false);
                            }
                            Action::Next
                        },
                    },
                }
            },
            PyValue::Class(c) => {
                let init = heap.get_class_method(c, &"__init__".to_owned());
                let i = heap.instance_new(c);
                let inst = PyValue::Instance(i);
                match init {
                    Some(init) => {
                        let mut a = vec![inst.copy()];
                        let ghost a0 = a@;
                        let ghost rest = args@;
                        let mut args = args;
                        a.append(&mut args);
                        proof {
                            lemma_vals_concat(a0, rest);
                            lemma_vals_index(a0);
                            assert(vals_view(a0) =~= seq![inst.sv()]);
                        }
                        self.push_task(Task::Keep(inst));
                        self.push_task(Task::Invoke(init, a, kws));
                    },
                    None => self.push_val(inst),
                }
                Action::Next
            },
            PyValue::BoundMethod(recv, func) => {
                let mut a = vec![*recv];
                let ghost a0 = a@;
                let ghost rest = args@;
                let mut args = args;
                a.append(&mut args);
                proof {
                    lemma_vals_concat(a0, rest);
                    lemma_vals_index(a0);
                    assert(vals_view(a0) =~= seq![a0[0].sv()]);
                }
                self.push_task(Task::Invoke(*func, a, kws));
                Action::Next
            },
            PyValue::Function(fi) => match heap.func_parts(fi) {
                None => self.fail("no such function"),
                Some(fp) => {
                    let ghost h0 = heap@;
                    match bind_arguments(&fp.name, &fp.params, &fp.defaults, &fp.vararg, &fp.kwarg, &args, &kws) {
                        Err(ex) => {
                            self.raise(ex);
                            Action::Next
                        },
                        Ok(b) => {
                            let ghost bb = b;
                            let local = open_call_scope(heap, fp.closure, b);
                            proof {
                                let fv = fp.view_of();
                                let ce = call_entry(h0, fv, vals_view(args@), tview(kws@));
                                assert(ce is Ok);
                                let h2 = ce->Ok_0.0;
                                assert(h2.envs =~= heap@.envs);
                                assert(h2.dicts =~= heap@.dicts);
                                assert(h2 == heap@);
                            }
                            if stmts_yield(&fp.body) {
                                let items: Vec<PyValue> = Vec::new();
                                proof {
                                    assert(vals_view(items@) =~= Seq::empty());
                                }
                                let l = heap.list_new(items);
                                self.push_task(Task::GenFrame(l));
                            } else {
                                self.push_task(Task::CallFrame);
                            }
                            self.push_task(Task::Block(fp.body, 0, local));
                            Action::Next
                        },
                    }
                },
            },
            _ => {
                self.raise_new("TypeError", "object is not callable");
                Action::Next
            },
        }
    }
}

impl Machine {
    fn run_loops(&mut self, heap: &mut Heap, t: Task) -> (a: Action)
        requires
            old(heap).wf(),
            t is Block || t is EvalSeq || t is Unpack || t is Branch || t is While || t is WhileTest || t is ForStart
                || t is For || t is DictSeq || t is Catch || t is CallFrame || t is GenFrame,
        ensures
            final(heap).wf(),
            (final(self)@, final(heap)@, a.sv()) == task_spec(old(self)@, old(heap)@, t.sv()),
    {
        match t {
            Task::Block(b, i, e) => {
                proof {
                    lemma_stmts_index(b@);
                }
                if i < b.len() {
                    let s = b[i].copy();
                    self.push_task(Task::Block(b, i + 1, e));
                    self.push_task(Task::Exec(s, e));
                }
            },
            Task::EvalSeq(xs, i, e) => {
                proof {
                    lemma_exprs_index(xs@);
                }
                if i < xs.len() {
                    let x = xs[i].copy();
                    self.push_task(Task::EvalSeq(xs, i + 1, e));
                    self.push_task(Task::Eval(x, e));
                }
            },
            Task::Unpack(ts, xs, i, e) => {
                proof {
                    lemma_exprs_index(ts@);
                    lemma_vals_index(xs@);
                }
                if i < ts.len() && i < xs.len() {
                    let t = ts[i].copy();
                    let x = xs[i].copy();
                    self.push_task(Task::Unpack(ts, xs, i + 1, e));
                    self.push_task(Task::AssignTo(t, e));
                    self.push_val(x);
                }
            },
            Task::Branch(b, o, e) => {
                let c = self.pop_val();
                if c.is_truthy(heap) {
                    self.push_task(Task::Block(b, 0, e));
                } else {
                    self.push_task(Task::Block(o, 0, e));
                }
            },
            Task::While(c, b, e) => {
                let cc = c.copy();
                let bc = copy_stmts(&b);
                self.push_task(Task::While(c, b, e));
                self.push_task(Task::WhileTest(bc, e));
                self.push_task(Task::Eval(cc, e));
            },
            Task::WhileTest(b, e) => {
                let c = self.pop_val();
                if c.is_truthy(heap) {
                    self.push_task(Task::Block(b, 0, e));
                } else {
                    self.signal(Signal::Break);
                }
            },
            Task::ForStart(tg, b, e) => {
                let v = self.pop_val();
                match items(heap, v) {
                    Some(xs) => self.push_task(Task::For(tg, b, xs, 0, e)),
                    None => self.raise_new("TypeError", "object is not iterable"),
                }
            },
            Task::For(tg, b, xs, i, e) => {
                proof {
                    lemma_vals_index(xs@);
                }
                if i < xs.len() {
                    let x = xs[i].copy();
                    let tc = tg.copy();
                    let bc = copy_stmts(&b);
                    self.push_task(Task::For(tg, b, xs, i + 1, e));
                    self.push_task(Task::Block(bc, 0, e));
                    self.push_task(Task::AssignTo(tc, e));
                    self.push_val(x);
                }
            },
            Task::DictSeq(ps, i, e) => {
                proof {
                    lemma_pairs_index(ps@);
                }
                if i < ps.len() {
                    let k = ps[i].0.copy();
                    let v = ps[i].1.copy();
                    self.push_task(Task::DictSeq(ps, i + 1, e));
                    self.push_task(Task::Eval(v, e));
                    self.push_task(Task::KeyCheck);
                    self.push_task(Task::Eval(k, e));
                }
            },
            Task::Catch(_, _, _) => {},
            Task::CallFrame => self.push_val(PyValue::NoneVal),
            Task::GenFrame(l) => self.push_val(PyValue::List(l)),
            _ => {
                proof {
                    assert(false);
                }
            },
        }
        Action::Next
    }

    fn run_defs(&mut self, heap: &mut Heap, t: Task) -> (a: Action)
        requires
            old(heap).wf(),
            t is DefFinish || t is ClassBase || t is ClassFinish || t is BindImport || t is FromStart || t is BindFrom
                || t is CompStart || t is Comp,
        ensures
            final(heap).wf(),
            (final(self)@, final(heap)@, a.sv()) == task_spec(old(self)@, old(heap)@, t.sv()),
    {
        match t {
            Task::DefFinish(n, pn, dn, va, kw, b, e) => {
                let v = self.pop_val();
                let ds = match v {
                    PyValue::Tuple(xs) => xs,
                    _ => Vec::new(),
                };
                let tbl = zip_into_table(&dn, &ds);
                let fi = heap.func_new(FuncParts {
                    name: n.clone(),
                    params: pn,
                    defaults: tbl,
                    vararg: va,
                    kwarg: kw,
                    body: b,
                    closure: e,
                });
                heap.env_set(e, n, PyValue::Function(fi));
            },
            Task::ClassBase(n, b, e) => {
                let v = self.pop_val();
                match v {
                    PyValue::Class(c) => {
                        return self.class_start(heap, n, Some(c), b, e);
                    },
                    _ => self.raise_new("TypeError", "base is not a class"),
                }
            },
            Task::ClassFinish(n, base, ce, e) => {
                let methods = heap.env_vars(ce);
                proof {
                    if ce >= heap@.envs.len() {
                        assert(tview(methods@) =~= Seq::empty());
                    }
                }
                let c = heap.class_new(n.clone(), base, methods);
                heap.env_set(e, n, PyValue::Class(c));
            },
            Task::BindImport(n, e) => {
                let v = self.pop_val();
                heap.env_assign(e, n, v);
            },
            Task::FromStart(ns, e) => {
                let v = self.pop_val();
                match v {
                    PyValue::Module(_, me) => self.push_task(Task::BindFrom(me, ns, 0, e)),
                    _ => {},
                }
            },
            Task::BindFrom(me, ns, i, e) => {
                if i < ns.len() {
                    let k = ns[i].clone();
                    match heap.env_get(me, &k) {
                        Ok(x) => {
                            self.push_task(Task::BindFrom(me, ns, i + 1, e));
                            heap.env_assign(e, k, x);
                        },
                        Err(ex) => self.raise(ex),
                    }
                }
            },
            Task::CompStart(x, tg, c, e) => {
                let v = self.pop_val();
                match items(heap, v) {
                    None => self.raise_new("TypeError", "not iterable"),
                    Some(xs) => {
                        let loc = heap.env_new(Some(e));
                        let rs: Vec<PyValue> = Vec::new();
                        proof {
                            assert(vals_view(rs@) =~= Seq::empty());
                        }
                        self.push_task(Task::Comp(x, tg, c, xs, 0, loc, rs, 0));
                    },
                }
            },
            Task::Comp(x, tg, c, xs, i, loc, rs, ph) => {
                proof {
                    lemma_vals_index(xs@);
                }
                if ph == 0 {
                    if i < xs.len() {
                        let item = xs[i].copy();
                        let tc = tg.copy();
                        self.push_task(Task::Comp(x, tg, c, xs, i + 1, loc, rs, 1));
                        self.push_task(Task::AssignTo(tc, loc));
                        self.push_val(item);
                    } else {
                        let h = heap.list_new(rs);
                        self.push_val(PyValue::List(h));
                    }
                } else if ph == 1 {
                    match &c {
                        Some(ce) => {
                            let cc = ce.copy();
                            self.push_task(Task::Comp(x, tg, c, xs, i, loc, rs, 2));
                            self.push_task(Task::Eval(cc, loc));
                        },
                        None => {
                            let xc = x.copy();
                            self.push_task(Task::Comp(x, tg, c, xs, i, loc, rs, 3));
                            self.push_task(Task::Eval(xc, loc));
                        },
                    }
                } else if ph == 2 {
                    let v = self.pop_val();
                    if v.is_truthy(heap) {
                        let xc = x.copy();
                        self.push_task(Task::Comp(x, tg, c, xs, i, loc, rs, 3));
                        self.push_task(Task::Eval(xc, loc));
                    } else {
                        self.push_task(Task::Comp(x, tg, c, xs, i, loc, rs, 0));
                    }
                } else {
                    let v = self.pop_val();
                    let mut rs = rs;
                    let ghost r0 = rs@;
                    proof {
                        crate::value::lemma_vals_push(r0, v);
                    }
                    rs.push(v);
                    self.push_task(Task::Comp(x, tg, c, xs, i, loc, rs, 0));
                }
            },
            _ => {
                proof {
                    assert(false);
                }
            },
        }
        Action::Next
    }

    fn run_stores(&mut self, heap: &mut Heap, t: Task) -> (a: Action)
        requires
            old(heap).wf(),
            t is Discard || t is Keep || t is AssignTo || t is StoreItem || t is StoreAttr || t is RaiseTop || t is ReturnTop || t is RenderTop,
        ensures
            final(heap).wf(),
            (final(self)@, final(heap)@, a.sv()) == task_spec(old(self)@, old(heap)@, t.sv()),
    {
        match t {
            Task::Discard => {
                self.pop_val();
            },
            Task::Keep(k) => {
                self.pop_val();
                self.push_val(k);
            },
            Task::AssignTo(tg, e) => {
                let v = self.pop_val();
                return self.assign(heap, tg, v, e);
            },
            Task::StoreItem(x) => {
                let iv = self.pop_val();
                let o = self.pop_val();
                let xc = x.copy();
                match set_item(heap, &o, &iv, x) {
                    Ok(None) => {},
                    Ok(Some(b)) => {
                        let args = vec![iv, xc];
                        let kw: Table = Vec::new();
                        proof {
                            lemma_vals_index(args@);
                            assert(vals_view(args@) =~= seq![args@[0].sv(), args@[1].sv()]);
                            assert(tview(kw@) =~= Seq::empty());
                        }
                        self.push_task(Task::Discard);
                        self.push_task(Task::Invoke(b, args, kw));
                    },
                    Err(ex) => self.raise(ex),
                }
            },
            Task::StoreAttr(a, x) => {
                let o = self.pop_val();
                match set_attribute(heap, &o, a, x) {
                    Ok(()) => {},
                    Err(ex) => self.raise(ex),
                }
            },
            Task::RaiseTop => {
                let v = self.pop_val();
                self.raise(v);
            },
            Task::ReturnTop => {
                let v = self.pop_val();
                self.signal(Signal::Return(v));
            },
            Task::RenderTop => {
                let v = self.pop_val();
                proof {
                    reveal(render_spec);
                }
                if str_method(heap, &v) {
                    return Action::Render(v);
                }
                match show(heap, &v) {
                    Some(ps) => {
                        match only_text(&ps) {
                            Some(t) => self.push_val(PyValue::Str(t)),
                            None => return Action::RenderPieces(ps),
                        }
                    },
                    None => return Action::Fail("maximum recursion depth exceeded".to_owned()),
                }
            },

            _ => {
                proof {
                    assert(false);
                }
            },
        }
        Action::Next
    }

    fn run_builds(&mut self, heap: &mut Heap, t: Task) -> (a: Action)
        requires
            old(heap).wf(),
            t is Build || t is KeyCheck || t is BuildDict || t is BinTail || t is UnTail || t is CompareTail,
        ensures
            final(heap).wf(),
            (final(self)@, final(heap)@, a.sv()) == task_spec(old(self)@, old(heap)@, t.sv()),
    {
        match t {
            Task::Build(is_list, n) => {
                let items = self.take_top(n);
                if is_list {
                    let h = heap.list_new(items);
                    self.push_val(PyValue::List(h));
                } else {
                    self.push_val(PyValue::Tuple(items));
                }
            },
            Task::KeyCheck => {
                let v = self.pop_val();
                match v.as_key() {
                    Ok(k) => self.push_val(PyValue::Str(k)),
                    Err(ex) => self.raise(ex),
                }
            },
            Task::BuildDict(n) => {
                proof {
                    lemma_vals_index(self.vals@);
                }
                let c = if n <= self.vals.len() / 2 { 2 * n } else { self.vals.len() };
                let items = self.take_top(c);
                proof {
                    lemma_vals_index(items@);
                }
                let tbl = dict_from_items(&items);
                let d = heap.dict_new(tbl);
                self.push_val(PyValue::Dict(d));
            },
            Task::BinTail(op) => {
                let r = self.pop_val();
                let l = self.pop_val();
                return self.binop(heap, op, l, r);
            },
            Task::UnTail(op) => {
                let v = self.pop_val();
                return self.unop(heap, op, v);
            },
            Task::CompareTail(op) => {
                let r = self.pop_val();
                let l = self.pop_val();
                return self.compare(heap, op, l, r);
            },
            _ => {
                proof {
                    assert(false);
                }
            },
        }
        Action::Next
    }

    fn run_reads(&mut self, heap: &mut Heap, t: Task) -> (a: Action)
        requires
            old(heap).wf(),
            t is LogicTail || t is CallTail || t is AttrTail || t is SubTail,
        ensures
            final(heap).wf(),
            (final(self)@, final(heap)@, a.sv()) == task_spec(old(self)@, old(heap)@, t.sv()),
    {
        match t {
            Task::LogicTail(op, r, e) => {
                let v = self.pop_val();
                let t = v.is_truthy(heap);
                let stop = match op {
                    LogicOp::And => !t,
                    LogicOp::Or => t,
                };
                if stop {
                    self.push_val(v);
                } else {
                    self.push_task(Task::Eval(r, e));
                }
            },
            Task::CallTail(n, ks) => {
                let kv = self.take_top(ks.len());
                proof {
                    assert(names(ks@).len() == ks@.len());
                }
                let av = self.take_top(n);
                let f = self.pop_val();
                let tbl = zip_into_table(&ks, &kv);
                self.push_task(Task::Invoke(f, av, tbl));
            },
            Task::AttrTail(a) => {
                let o = self.pop_val();
                match get_attribute(heap, &o, &a) {
                    Ok(x) => self.push_val(x),
                    Err(ex) => self.raise(ex),
                }
            },
            Task::SubTail => {
                let iv = self.pop_val();
                let o = self.pop_val();
                match get_item(heap, &o, &iv) {
                    Ok(Access::Value(x)) => self.push_val(x),
                    Ok(Access::Call(b)) => {
                        let args = vec![iv];
                        let kw: Table = Vec::new();
                        proof {
                            lemma_vals_index(args@);
                            assert(vals_view(args@) =~= seq![args@[0].sv()]);
                            assert(tview(kw@) =~= Seq::empty());
                        }
                        self.push_task(Task::Invoke(b, args, kw));
                    },
                    Err(ex) => self.raise(ex),
                }
            },
            _ => {
                proof {
                    assert(false);
                }
            },
        }
        Action::Next
    }
}

impl Machine {
    fn run_fstr(&mut self, heap: &mut Heap, ps: Vec<FPart>, i: usize, acc: String, waiting: bool, e: usize) -> (a: Action)
        requires
            old(heap).wf(),
        ensures
            final(heap).wf(),
            (final(self)@, final(heap)@, a.sv()) == task_spec(old(self)@, old(heap)@, STask::FStr(fparts_view(ps@), i, acc@, waiting, e)),
    {
        let mut acc = acc;
        if waiting {
            let v = self.pop_val();
            match v {
                PyValue::Str(s) => acc.append(s.as_str()),
                _ => {
                    proof {
                        assert(acc@ + Seq::<char>::empty() =~= acc@);
                    }
                },
            }
            self.push_task(Task::FStr(ps, i, acc, false, e));
            return Action::Next;
        }
        if i >= ps.len() {
            self.push_val(PyValue::Str(acc));
            return Action::Next;
        }
        let (is_text, s) = match &ps[i] {
            FPart::Text(t) => (true, t.clone()),
            FPart::Code(c) => (false, c.clone()),
        };
        if is_text {
            acc.append(s.as_str());
            self.push_task(Task::FStr(ps, i + 1, acc, false, e));
            return Action::Next;
        }
        match parse_fcode(&s) {
            None => self.fail("f-string expression cannot be tokenized"),
            Some(Err(msg)) => {
                self.raise(crate::value::py_err_string("SyntaxError", msg));
                Action::Next
            },
            Some(Ok(x)) => {
                self.push_task(Task::FStr(ps, i + 1, acc, true, e));
                self.push_task(Task::RenderTop);
                self.push_task(Task::Eval(x, e));
                Action::Next
            },
        }
    }

    fn run_yield(&mut self, heap: &mut Heap) -> (a: Action)
        requires
            old(heap).wf(),
        ensures
            final(heap).wf(),
            (final(self)@, final(heap)@, a.sv()) == task_spec(old(self)@, old(heap)@, STask::YieldTop),
    {
        let v = self.pop_val();
        match self.innermost_gen() {
            Some(l) => heap.list_push(l, v),
            None => self.raise_new("SyntaxError", "'yield' outside function"),
        }
        Action::Next
    }

    fn run_task(&mut self, heap: &mut Heap, t: Task) -> (a: Action)
        requires
            old(heap).wf(),
        ensures
            final(heap).wf(),
            (final(self)@, final(heap)@, a.sv()) == task_spec(old(self)@, old(heap)@, t.sv()),
    {
        if matches!(t, Task::Block(..) | Task::EvalSeq(..) | Task::Unpack(..) | Task::Branch(..) | Task::While(..) | Task::WhileTest(..) | Task::ForStart(..) | Task::For(..) | Task::DictSeq(..) | Task::Catch(..) | Task::CallFrame | Task::GenFrame(..)) {
            return self.run_loops(heap, t);
        }
        if matches!(t, Task::DefFinish(..) | Task::ClassBase(..) | Task::ClassFinish(..) | Task::BindImport(..) | Task::FromStart(..) | Task::BindFrom(..) | Task::CompStart(..) | Task::Comp(..)) {
            return self.run_defs(heap, t);
        }
        if matches!(t, Task::Discard | Task::Keep(..) | Task::AssignTo(..) | Task::StoreItem(..) | Task::StoreAttr(..) | Task::RaiseTop | Task::ReturnTop | Task::RenderTop) {
            return self.run_stores(heap, t);
        }
        if matches!(t, Task::Build(..) | Task::KeyCheck | Task::BuildDict(..) | Task::BinTail(..) | Task::UnTail(..) | Task::CompareTail(..)) {
            return self.run_builds(heap, t);
        }
        if matches!(t, Task::LogicTail(..) | Task::CallTail(..) | Task::AttrTail(..) | Task::SubTail) {
            return self.run_reads(heap, t);
        }
        match t {
            Task::Exec(s, e) => self.exec_stmt(heap, s, e),
            Task::Eval(x, e) => self.eval_expr(heap, x, e),
            Task::Invoke(f, args, kws) => self.invoke(heap, f, args, kws),
            Task::FStr(ps, i, acc, waiting, e) => self.run_fstr(heap, ps, i, acc, waiting, e),
            Task::YieldTop => self.run_yield(heap),
            _ => {
                proof {
                    assert(false);
                }
                Action::Next
            },
        }
    }

    fn catch_raise(&mut self, heap: &mut Heap, hs: Vec<(Vec<String>, Option<String>, Vec<Stmt>)>, e: usize, ht: usize, x: PyValue)
        requires
            old(heap).wf(),
            old(self)@.sig is None,
        ensures
            final(heap).wf(),
            (final(self)@, final(heap)@, SAction::Next) == unwind_spec(
                with_sig(old(self)@, SSignal::Raise(x.sv())), old(heap)@, STask::Catch(handlers_view(hs@), e, ht), SSignal::Raise(x.sv())),
    {
                    let ghost hv = handlers_view(hs@);
                    proof {
                        lemma_handlers_index(hs@);
                    }
                    match select_handler(&hs, &x) {
                        Some(k) => {
                            proof {
                                let p = |j: int| 0 <= j < hv.len() && catches(hv[j].0, x.sv())
                                    && forall|i: int| 0 <= i < j ==> !catches(#[trigger] hv[i].0, x.sv());
                                assert(hv[k as int].0 == strs(hs@[k as int].0@));
                                assert forall|i: int| 0 <= i < k implies !catches(#[trigger] hv[i].0, x.sv()) by {
                                    assert(hv[i].0 == strs(hs@[i].0@));
                                }
                                assert(p(k as int));
                                let c = choose|j: int| 0 <= j < hv.len() && catches(hv[j].0, x.sv())
                                    && forall|i: int| 0 <= i < j ==> !catches(#[trigger] hv[i].0, x.sv());
                                if c < k {
                                    assert(hv[c].0 == strs(hs@[c].0@));
                                }
                                if k < c {
                                    assert(!catches(hv[k as int].0, x.sv()));
                                }
                                assert(first_catch(hv, x.sv()) == Some(k as int));
                            }
                            let ghost vs = self.vals@;
                            let ghost keep: int = if (ht as int) < vs.len() { ht as int } else { vs.len() as int };
                            self.vals.truncate(ht);
                            proof {
                                lemma_vals_index(vs);
                                assert(self.vals@ =~= vs.subrange(0, keep));
                                lemma_vals_prefix(vs, keep);
                            }
                            let ne = heap.env_new(Some(e));
                            match &hs[k].1 {
                                Some(var) => heap.env_set(ne, var.clone(), x),
                                None => {},
                            }
                            let body = copy_stmts(&hs[k].2);
                            self.push_task(Task::Block(body, 0, ne));
                        },
                        None => {
                            proof {
                                assert forall|j: int| 0 <= j < hv.len() implies !catches(#[trigger] hv[j].0, x.sv()) by {
                                    assert(hv[j].0 == strs(hs@[j].0@));
                                }
                                assert(first_catch(hv, x.sv()) is None);
                            }
                            self.sig = Some(Signal::Raise(x));
                        },
                    }
    }

    fn unwind(&mut self, heap: &mut Heap, t: Task) -> (a: Action)
        requires
            old(heap).wf(),
            old(self)@.sig is Some,
        ensures
            final(heap).wf(),
            (final(self)@, final(heap)@, a.sv()) == unwind_spec(old(self)@, old(heap)@, t.sv(), old(self)@.sig->0),
    {
        let ghost m0 = self@;
        let s = match self.sig.take() {
            Some(s) => s,
            None => {
                proof {
                    assert(false);
                }
                return Action::Next;
            },
        };
        match t {
            Task::Catch(hs, e, ht) => match s {
                Signal::Raise(x) => self.catch_raise(heap, hs, e, ht, x),
                other => {
                    self.sig = Some(other);
                },
            },
            Task::While(c, b, e) => match s {
                Signal::Break => {},
                Signal::Continue => self.push_task(Task::While(c, b, e)),
                other => {
                    self.sig = Some(other);
                },
            },
            Task::For(tg, b, xs, i, e) => match s {
                Signal::Break => {},
                Signal::Continue => self.push_task(Task::For(tg, b, xs, i, e)),
                other => {
                    self.sig = Some(other);
                },
            },
            Task::CallFrame => match s {
                Signal::Return(v) => self.push_val(v),
                Signal::Break => self.push_val(PyValue::NoneVal),
                Signal::Continue => self.push_val(PyValue::NoneVal),
                other => {
                    self.sig = Some(other);
                },
            },
            Task::GenFrame(l) => match s {
                Signal::Raise(x) => {
                    self.sig = Some(Signal::Raise(x));
                },
                _ => self.push_val(PyValue::List(l)),
            },
            Task::ClassFinish(n, base, ce, e) => match s {
                Signal::Raise(x) => {
                    self.sig = Some(Signal::Raise(x));
                },
                _ => self.push_task(Task::ClassFinish(n, base, ce, e)),
            },
            _ => {
                self.sig = Some(s);
            },
        }
        Action::Next
    }
}

/// Makes one move of the machine: takes in the result `ev` of the work last
/// asked for, or else runs the next task (or passes the travelling signal
/// one task outwards).
pub fn step(m: &mut Machine, heap: &mut Heap, ev: Event) -> (a: Action)
    requires
        old(heap).wf(),
    ensures
        final(heap).wf(),
        (final(m)@, final(heap)@, a.sv()) == step_spec(old(m)@, old(heap)@, ev.sv()),
{
    match ev {
        Event::Value(Ok(v)) => {
            m.push_val(v);
            return Action::Next;
        },
        Event::Value(Err(x)) => {
            m.raise(x);
            return Action::Next;
        },
        Event::Start => {},
    }
    let ghost ts = m.tasks@;
    let popped_task = m.tasks.pop();
    proof {
        if ts.len() > 0 {
            assert(ts.subrange(0, ts.len() - 1).map_values(|t: Task| t.sv()) =~= ts.map_values(|t: Task| t.sv()).drop_last());
        }
    }
    match popped_task {
        None => {
            match &m.sig {
                Some(Signal::Raise(x)) => Action::Done(Err(x.copy())),
                Some(_) => Action::Done(Ok(PyValue::NoneVal)),
                None => {
                    proof {
                        lemma_vals_index(m.vals@);
                    }
                    if m.vals.len() > 0 {
                        Action::Done(Ok(m.vals[m.vals.len() - 1].copy()))
                    } else {
                        Action::Done(Ok(PyValue::NoneVal))
                    }
                },
            }
        },
        Some(t) => {
            if m.sig.is_some() {
                m.unwind(heap, t)
            } else {
                m.run_task(heap, t)
            }
        },
    }
}

// ----------------------------------------------------------------------
// laws
// ----------------------------------------------------------------------

/// The state after `n` moves on no event.
pub open spec fn run_start(m: MachineView, h: HeapView, n: nat) -> (MachineView, HeapView)
    decreases n,
{
    if n == 0 {
        (m, h)
    } else {
        let r = step_spec(m, h, SEvent::Start);
        run_start(r.0, r.1, (n - 1) as nat)
    }
}

/// Whether a `break` or `continue` passes a task by: only loops, calls
/// and class bodies stop it.
pub open spec fn passes_jump(t: STask) -> bool {
    !(t is While || t is For || t is CallFrame || t is GenFrame || t is ClassFinish)
}

/// Whether signal `s` passes task `t` by, dropping it: an exception stops
/// only at a `try`; a `return` only at a call (or a class body); a `break`
/// or `continue` as [`passes_jump`] says.
pub open spec fn passes(t: STask, s: SSignal) -> bool {
    match s {
        SSignal::Raise(_) => !(t is Catch),
        SSignal::Return(_) => !(t is CallFrame || t is GenFrame || t is ClassFinish),
        _ => passes_jump(t),
    }
}

proof fn lemma_signal_unwinds(pre: Seq<STask>, mid: Seq<STask>, vals: Seq<SVal>, s: SSignal, h: HeapView)
    requires
        forall|i: int| 0 <= i < mid.len() ==> passes(#[trigger] mid[i], s),
    ensures
        run_start(MachineView { tasks: pre + mid, vals, sig: Some(s) }, h, mid.len())
            == (MachineView { tasks: pre, vals, sig: Some(s) }, h),
    decreases mid.len(),
{
    if mid.len() == 0 {
        assert(pre + mid =~= pre);
    } else {
        let m = MachineView { tasks: pre + mid, vals, sig: Some(s) };
        let t = mid.last();
        assert(passes(mid[mid.len() - 1], s));
        assert((pre + mid).last() == t);
        assert((pre + mid).drop_last() =~= pre + mid.drop_last());
        assert(step_spec(m, h, SEvent::Start) == (MachineView { tasks: pre + mid.drop_last(), vals, sig: Some(s) }, h, SAction::Next));
        assert forall|i: int| 0 <= i < mid.drop_last().len() implies passes(#[trigger] mid.drop_last()[i], s) by {
            assert(mid.drop_last()[i] == mid[i]);
        }
        lemma_signal_unwinds(pre, mid.drop_last(), vals, s, h);
    }
}

proof fn lemma_jump_unwinds(pre: Seq<STask>, mid: Seq<STask>, vals: Seq<SVal>, s: SSignal, h: HeapView)
    requires
        s is Break || s is Continue,
        forall|i: int| 0 <= i < mid.len() ==> passes_jump(#[trigger] mid[i]),
    ensures
        run_start(MachineView { tasks: pre + mid, vals, sig: Some(s) }, h, mid.len())
            == (MachineView { tasks: pre, vals, sig: Some(s) }, h),
{
    assert forall|i: int| 0 <= i < mid.len() implies passes(#[trigger] mid[i], s) by {
        assert(passes_jump(mid[i]));
    }
    lemma_signal_unwinds(pre, mid, vals, s, h);
}

/// An exception travels out through every task until the innermost `try`,
/// one task per move, leaving values and heap untouched; there the `try`'s
/// clauses decide (see [`law_first_matching_handler`]).
pub proof fn law_raise_reaches_innermost_try(
    pre: Seq<STask>,
    hs: Seq<(Seq<Seq<char>>, Option<Seq<char>>, Seq<SStmt>)>,
    e: usize,
    ht: usize,
    mid: Seq<STask>,
    vals: Seq<SVal>,
    x: SVal,
    h: HeapView,
)
    requires
        forall|i: int| 0 <= i < mid.len() ==> !(#[trigger] mid[i] is Catch),
    ensures
        run_start(MachineView { tasks: pre.push(STask::Catch(hs, e, ht)) + mid, vals, sig: Some(SSignal::Raise(x)) }, h, mid.len())
            == (MachineView { tasks: pre.push(STask::Catch(hs, e, ht)), vals, sig: Some(SSignal::Raise(x)) }, h),
{
    lemma_signal_unwinds(pre.push(STask::Catch(hs, e, ht)), mid, vals, SSignal::Raise(x), h);
}

/// An exception with no `try` around it ends the run with that exception.
pub proof fn law_uncaught_exception_ends_run(mid: Seq<STask>, vals: Seq<SVal>, x: SVal, h: HeapView)
    requires
        forall|i: int| 0 <= i < mid.len() ==> !(#[trigger] mid[i] is Catch),
    ensures
        run_start(MachineView { tasks: mid, vals, sig: Some(SSignal::Raise(x)) }, h, mid.len())
            == (MachineView { tasks: Seq::empty(), vals, sig: Some(SSignal::Raise(x)) }, h),
        step_spec(MachineView { tasks: Seq::empty(), vals, sig: Some(SSignal::Raise(x)) }, h, SEvent::Start).2
            == SAction::Done(Err(x)),
{
    lemma_signal_unwinds(Seq::empty(), mid, vals, SSignal::Raise(x), h);
    assert(Seq::<STask>::empty() + mid =~= mid);
}

/// `return` leaves every loop and `try` it is in, up to the call it is in.
pub proof fn law_return_reaches_call(pre: Seq<STask>, mid: Seq<STask>, vals: Seq<SVal>, v: SVal, h: HeapView)
    requires
        forall|i: int| 0 <= i < mid.len() ==> !(#[trigger] mid[i] is CallFrame || mid[i] is GenFrame || mid[i] is ClassFinish),
    ensures
        run_start(MachineView { tasks: pre.push(STask::CallFrame) + mid, vals, sig: Some(SSignal::Return(v)) }, h, mid.len())
            == (MachineView { tasks: pre.push(STask::CallFrame), vals, sig: Some(SSignal::Return(v)) }, h),
{
    lemma_signal_unwinds(pre.push(STask::CallFrame), mid, vals, SSignal::Return(v), h);
}

/// `break` ends the innermost loop only: it passes every task above that
/// loop, one per move, leaving values and heap as they were; the next move
/// drops the loop and the signal, and whatever lay below the loop runs on.
pub proof fn law_break_ends_innermost_loop(pre: Seq<STask>, lp: STask, mid: Seq<STask>, vals: Seq<SVal>, h: HeapView)
    requires
        lp is While || lp is For,
        forall|i: int| 0 <= i < mid.len() ==> passes_jump(#[trigger] mid[i]),
    ensures
        run_start(MachineView { tasks: pre.push(lp) + mid, vals, sig: Some(SSignal::Break) }, h, mid.len())
            == (MachineView { tasks: pre.push(lp), vals, sig: Some(SSignal::Break) }, h),
        step_spec(MachineView { tasks: pre.push(lp), vals, sig: Some(SSignal::Break) }, h, SEvent::Start)
            == (MachineView { tasks: pre, vals, sig: None }, h, SAction::Next),
{
    lemma_jump_unwinds(pre.push(lp), mid, vals, SSignal::Break, h);
    assert(pre.push(lp).drop_last() =~= pre);
}

/// `continue` passes the same tasks, then leaves the innermost loop in
/// place with the signal gone, so that the loop goes on with its next round.
pub proof fn law_continue_resumes_innermost_loop(pre: Seq<STask>, lp: STask, mid: Seq<STask>, vals: Seq<SVal>, h: HeapView)
    requires
        lp is While || lp is For,
        forall|i: int| 0 <= i < mid.len() ==> passes_jump(#[trigger] mid[i]),
    ensures
        run_start(MachineView { tasks: pre.push(lp) + mid, vals, sig: Some(SSignal::Continue) }, h, mid.len())
            == (MachineView { tasks: pre.push(lp), vals, sig: Some(SSignal::Continue) }, h),
        step_spec(MachineView { tasks: pre.push(lp), vals, sig: Some(SSignal::Continue) }, h, SEvent::Start)
            == (MachineView { tasks: pre.push(lp), vals, sig: None }, h, SAction::Next),
{
    lemma_jump_unwinds(pre.push(lp), mid, vals, SSignal::Continue, h);
    assert(pre.push(lp).drop_last() =~= pre);
}

/// An exception reaching a `try` runs the body of the first `except` clause
/// that takes it, in a new scope inside the `try`'s scope where the clause's
/// name (if any) is bound to the exception; values computed since the `try`
/// began are dropped. When no clause takes it, it travels on.
pub proof fn law_first_matching_handler(
    pre: Seq<STask>,
    hs: Seq<(Seq<Seq<char>>, Option<Seq<char>>, Seq<SStmt>)>,
    e: usize,
    ht: usize,
    vals: Seq<SVal>,
    x: SVal,
    h: HeapView,
)
    requires
        ht <= vals.len(),
        h.envs.len() < usize::MAX,
    ensures
        ({
            let r = step_spec(
                MachineView { tasks: pre.push(STask::Catch(hs, e, ht)), vals, sig: Some(SSignal::Raise(x)) },
                h,
                SEvent::Start,
            );
            match first_catch(hs, x) {
                Some(k) => {
                    &&& 0 <= k < hs.len() && catches(hs[k].0, x)
                    &&& forall|j: int| 0 <= j < k ==> !catches(#[trigger] hs[j].0, x)
                    &&& r.0 == (MachineView {
                        tasks: pre.push(STask::Block(hs[k].2, 0, h.envs.len() as usize)),
                        vals: vals.subrange(0, ht as int),
                        sig: None,
                    })
                    &&& r.1.envs.len() == h.envs.len() + 1
                    &&& r.1.envs.last().parent == (if e < h.envs.len() { Some(e) } else { None })
                    &&& r.1.envs.last().vars == match hs[k].1 {
                        Some(var) => seq![(var, x)],
                        None => Seq::empty(),
                    }
                    &&& forall|i: int| 0 <= i < h.envs.len() ==> r.1.envs[i] == #[trigger] h.envs[i]
                },
                None => {
                    &&& forall|j: int| 0 <= j < hs.len() ==> !catches(#[trigger] hs[j].0, x)
                    &&& r == (MachineView { tasks: pre, vals, sig: Some(SSignal::Raise(x)) }, h, SAction::Next)
                },
            }
        }),
{
    assert(pre.push(STask::Catch(hs, e, ht)).drop_last() =~= pre);
    let p = |k: int| 0 <= k < hs.len() && catches(hs[k].0, x) && forall|j: int| 0 <= j < k ==> !catches(#[trigger] hs[j].0, x);
    match first_catch(hs, x) {
        Some(k) => {
            assert(p(k));
            let ne = h.envs.len() as usize;
            let h1 = new_scope(h, e);
            let r = step_spec(
                MachineView { tasks: pre.push(STask::Catch(hs, e, ht)), vals, sig: Some(SSignal::Raise(x)) },
                h,
                SEvent::Start,
            );
            match hs[k].1 {
                Some(var) => {
                    let em = Seq::<(Seq<char>, SVal)>::empty();
                    assert(tpos(em, var) is None);
                    assert(tput(em, var, x) =~= seq![(var, x)]);
                    assert(r.1 == h1.env_put(ne as int, var, x));
                    assert(r.1.envs =~= h1.envs.update(ne as int, FrameView { parent: h1.envs[ne as int].parent, vars: seq![(var, x)] }));
                },
                None => {
                    assert(r.1 == h1);
                },
            }
            assert(vals.subrange(0, ht as int) == vals.subrange(0, if (ht as int) < vals.len() { ht as int } else { vals.len() as int }));
        },
        None => {
            assert forall|j: int| 0 <= j < hs.len() implies !catches(#[trigger] hs[j].0, x) by {
                if catches(hs[j].0, x) {
                    lemma_first_exists(hs, x, j);
                }
            }
        },
    }
}

proof fn lemma_first_exists(hs: Seq<(Seq<Seq<char>>, Option<Seq<char>>, Seq<SStmt>)>, x: SVal, j: int)
    requires
        0 <= j < hs.len(),
        catches(hs[j].0, x),
    ensures
        first_catch(hs, x) is Some,
    decreases j,
{
    if exists|i: int| 0 <= i < j && catches(hs[i].0, x) {
        let i = choose|i: int| 0 <= i < j && catches(hs[i].0, x);
        lemma_first_exists(hs, x, i);
    } else {
        assert(forall|i: int| 0 <= i < j ==> !catches(#[trigger] hs[i].0, x));
    }
}

/// `return v` reaching the call it is in ends the signal and leaves `v` as
/// the call's value.
pub proof fn law_return_gives_call_value(pre: Seq<STask>, vals: Seq<SVal>, v: SVal, h: HeapView)
    ensures
        step_spec(MachineView { tasks: pre.push(STask::CallFrame), vals, sig: Some(SSignal::Return(v)) }, h, SEvent::Start)
            == (MachineView { tasks: pre, vals: vals.push(v), sig: None }, h, SAction::Next),
{
    assert(pre.push(STask::CallFrame).drop_last() =~= pre);
}

/// `a and b` with a false `a`, and `a or b` with a true `a`, give `a` and
/// never evaluate `b`.
pub proof fn law_short_circuit(pre: Seq<STask>, op: LogicOp, r: SExpr, e: usize, vals: Seq<SVal>, v: SVal, h: HeapView)
    requires
        (op == LogicOp::And && !h.truthy(v)) || (op == LogicOp::Or && h.truthy(v)),
    ensures
        step_spec(MachineView { tasks: pre.push(STask::LogicTail(op, r, e)), vals: vals.push(v), sig: None }, h, SEvent::Start)
            == (MachineView { tasks: pre, vals: vals.push(v), sig: None }, h, SAction::Next),
{
    assert(pre.push(STask::LogicTail(op, r, e)).drop_last() =~= pre);
    assert(vals.push(v).drop_last() =~= vals);
}

/// Unpacking into a tuple or list of targets raises `ValueError`, and
/// assigns nothing, when the value has another number of items.
pub proof fn law_unpack_counts(pre: Seq<STask>, ts: Seq<SExpr>, e: usize, vals: Seq<SVal>, v: SVal, h: HeapView)
    requires
        items_of(h, v) matches Some(xs) && xs.len() != ts.len(),
    ensures
        step_spec(MachineView { tasks: pre.push(STask::AssignTo(SExpr::Tuple(ts), e)), vals: vals.push(v), sig: None }, h, SEvent::Start)
            == (MachineView {
                tasks: pre,
                vals,
                sig: Some(SSignal::Raise(exc_sv("ValueError"@, unpack_msg(ts.len(), items_of(h, v)->0.len())))),
            }, h, SAction::Next),
{
    assert(pre.push(STask::AssignTo(SExpr::Tuple(ts), e)).drop_last() =~= pre);
    assert(vals.push(v).drop_last() =~= vals);
}


/// A decorated definition runs the definition first, and then binds its name
/// to what the decorator gives when called with it.
pub proof fn law_decorator_rebinds_name(pre: Seq<STask>, d: SExpr, t: SStmt, e: usize, vals: Seq<SVal>, h: HeapView)
    ensures
        step_spec(
            MachineView { tasks: pre.push(STask::Exec(SStmt::Decorated(d, Box::new(t)), e)), vals, sig: None },
            h,
            SEvent::Start,
        ) == (MachineView {
            tasks: pre.push(STask::Exec(SStmt::Assign(
                SExpr::Name(defined_name(t)),
                SExpr::Call(Box::new(d), seq![SExpr::Name(defined_name(t))], Seq::empty()),
            ), e)).push(STask::Exec(t, e)),
            vals,
            sig: None,
        }, h, SAction::Next),
{
    assert(pre.push(STask::Exec(SStmt::Decorated(d, Box::new(t)), e)).drop_last() =~= pre);
}

/// Calling a function whose body yields runs the body against a new, empty
/// list, instead of returning to an ordinary call frame.
pub proof fn law_generator_call_collects(m: MachineView, h: HeapView, fi: usize, args: Seq<SVal>, kws: Seq<(Seq<char>, SVal)>)
    requires
        fi < h.funcs.len(),
        yields_all(h.funcs[fi as int].body),
        call_entry(h, h.funcs[fi as int], args, kws) is Ok,
    ensures
        ({
            let (h2, env) = call_entry(h, h.funcs[fi as int], args, kws)->Ok_0;
            invoke_spec(m, h, SVal::Function(fi), args, kws) == (
                two(m, STask::GenFrame(h2.lists.len() as usize), STask::Block(h.funcs[fi as int].body, 0, env)),
                HeapView { lists: h2.lists.push(Seq::empty()), ..h2 },
                SAction::Next,
            )
        }),
{
}

/// `yield v` adds `v` to the list of the generator whose body runs
/// innermost, and changes nothing else.
pub proof fn law_yield_appends(pre: Seq<STask>, vals: Seq<SVal>, v: SVal, l: usize, h: HeapView)
    requires
        innermost_gen(pre) == Some(l),
        l < h.lists.len(),
    ensures
        step_spec(MachineView { tasks: pre.push(STask::YieldTop), vals: vals.push(v), sig: None }, h, SEvent::Start)
            == (MachineView { tasks: pre, vals, sig: None },
                HeapView { lists: h.lists.update(l as int, h.lists[l as int].push(v)), ..h },
                SAction::Next),
{
    assert(pre.push(STask::YieldTop).drop_last() =~= pre);
    assert(vals.push(v).drop_last() =~= vals);
}

/// A generator's call gives the list of the values it yielded, whether its
/// body runs to the end or leaves by `return`.
pub proof fn law_generator_gives_list(pre: Seq<STask>, vals: Seq<SVal>, l: usize, r: SVal, h: HeapView)
    ensures
        step_spec(MachineView { tasks: pre.push(STask::GenFrame(l)), vals, sig: None }, h, SEvent::Start)
            == (MachineView { tasks: pre, vals: vals.push(SVal::List(l)), sig: None }, h, SAction::Next),
        step_spec(MachineView { tasks: pre.push(STask::GenFrame(l)), vals, sig: Some(SSignal::Return(r)) }, h, SEvent::Start)
            == (MachineView { tasks: pre, vals: vals.push(SVal::List(l)), sig: None }, h, SAction::Next),
{
    assert(pre.push(STask::GenFrame(l)).drop_last() =~= pre);
}


/// Calling a bound method calls its function with the receiver put before
/// the other positional arguments.
pub proof fn law_bound_method_passes_receiver(
    m: MachineView,
    h: HeapView,
    r: SVal,
    f: SVal,
    args: Seq<SVal>,
    kws: Seq<(Seq<char>, SVal)>,
)
    ensures
        invoke_spec(m, h, SVal::BoundMethod(Box::new(r), Box::new(f)), args, kws)
            == (with_task(m, STask::Invoke(f, seq![r] + args, kws)), h, SAction::Next),
{
}

/// A block runs its statements one at a time, in order: the statement at `i`
/// runs before the rest of the block, and a block at its end is done.
pub proof fn law_block_runs_in_order(pre: Seq<STask>, b: Seq<SStmt>, i: usize, e: usize, vals: Seq<SVal>, h: HeapView)
    ensures
        i < b.len() ==> step_spec(MachineView { tasks: pre.push(STask::Block(b, i, e)), vals, sig: None }, h, SEvent::Start)
            == (MachineView {
                tasks: pre.push(STask::Block(b, (i + 1) as usize, e)).push(STask::Exec(b[i as int], e)),
                vals,
                sig: None,
            }, h, SAction::Next),
        i >= b.len() ==> step_spec(MachineView { tasks: pre.push(STask::Block(b, i, e)), vals, sig: None }, h, SEvent::Start)
            == (MachineView { tasks: pre, vals, sig: None }, h, SAction::Next),
{
    assert(pre.push(STask::Block(b, i, e)).drop_last() =~= pre);
}

/// A `for` loop walks the items of a list, tuple or string as they were when
/// the loop began, and raises `TypeError` without running its body on any
/// other value.
pub proof fn law_for_walks_items(pre: Seq<STask>, tg: SExpr, b: Seq<SStmt>, e: usize, vals: Seq<SVal>, v: SVal, h: HeapView)
    ensures
        items_of(h, v) is Some ==> step_spec(
            MachineView { tasks: pre.push(STask::ForStart(tg, b, e)), vals: vals.push(v), sig: None },
            h,
            SEvent::Start,
        ) == (MachineView { tasks: pre.push(STask::For(tg, b, items_of(h, v)->0, 0, e)), vals, sig: None }, h, SAction::Next),
        items_of(h, v) is None ==> step_spec(
            MachineView { tasks: pre.push(STask::ForStart(tg, b, e)), vals: vals.push(v), sig: None },
            h,
            SEvent::Start,
        ) == (MachineView {
            tasks: pre,
            vals,
            sig: Some(SSignal::Raise(exc_sv("TypeError"@, "object is not iterable"@))),
        }, h, SAction::Next),
{
    assert(pre.push(STask::ForStart(tg, b, e)).drop_last() =~= pre);
    assert(vals.push(v).drop_last() =~= vals);
}

/// Each turn of a `for` loop binds the target to the next item and then runs
/// the body; after the last item the loop is done.
pub proof fn law_for_binds_each_item(
    pre: Seq<STask>,
    tg: SExpr,
    b: Seq<SStmt>,
    xs: Seq<SVal>,
    i: usize,
    e: usize,
    vals: Seq<SVal>,
    h: HeapView,
)
    ensures
        i < xs.len() ==> step_spec(MachineView { tasks: pre.push(STask::For(tg, b, xs, i, e)), vals, sig: None }, h, SEvent::Start)
            == (MachineView {
                tasks: pre.push(STask::For(tg, b, xs, (i + 1) as usize, e)).push(STask::Block(b, 0, e)).push(STask::AssignTo(tg, e)),
                vals: vals.push(xs[i as int]),
                sig: None,
            }, h, SAction::Next),
        i >= xs.len() ==> step_spec(MachineView { tasks: pre.push(STask::For(tg, b, xs, i, e)), vals, sig: None }, h, SEvent::Start)
            == (MachineView { tasks: pre, vals, sig: None }, h, SAction::Next),
{
    assert(pre.push(STask::For(tg, b, xs, i, e)).drop_last() =~= pre);
}

} // verus!
