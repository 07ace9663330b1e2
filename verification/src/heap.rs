//! The heap: the lists, dicts, classes, instances and scopes of a running
//! program, each named by its index.
//!
//! A scope has the variables bound in it and, but for the outermost, the
//! scope it was opened in. A class has a name, its methods and, optionally,
//! a base class. Both links always lead to something made earlier, which is
//! the heap's well-formedness.
use vstd::prelude::*;
use crate::value::{PyValue, SVal, vals_view, opt_sv, exc_sv, copy_vals, lemma_vals_view, lemma_vals_push, py_err_string};
use crate::table::{Table, tview, tfind, tput, tbl_get, tbl_put, tbl_copy, lemma_tput, lemma_tview};
use crate::text::push_char;

verus! {

struct Frame {
    parent: Option<usize>,
    vars: Table,
}

struct ClassInfo {
    name: String,
    base: Option<usize>,
    methods: Table,
}

struct InstanceInfo {
    class: usize,
    attrs: Table,
}

/// Every list, dict, class, instance and scope of a running program.
pub struct Heap {
    lists: Vec<Vec<PyValue>>,
    dicts: Vec<Table>,
    classes: Vec<ClassInfo>,
    instances: Vec<InstanceInfo>,
    envs: Vec<Frame>,
    funcs: Vec<FuncInfo>,
}

/// A function defined in the program.
struct FuncInfo {
    name: String,
    params: Vec<String>,
    defaults: Table,
    vararg: Option<String>,
    kwarg: Option<String>,
    body: Vec<crate::ast::Stmt>,
    closure: usize,
}

/// A scope: the scope it was opened in, and its variables.
pub struct FrameView {
    pub parent: Option<usize>,
    pub vars: Seq<(Seq<char>, SVal)>,
}

/// A class: its name, its base class and its methods.
pub struct ClassView {
    pub name: Seq<char>,
    pub base: Option<usize>,
    pub methods: Seq<(Seq<char>, SVal)>,
}

/// An instance: its class and its attributes.
pub struct InstanceView {
    pub class: usize,
    pub attrs: Seq<(Seq<char>, SVal)>,
}

/// The mathematical form of a heap.
pub struct HeapView {
    pub lists: Seq<Seq<SVal>>,
    pub dicts: Seq<Seq<(Seq<char>, SVal)>>,
    pub classes: Seq<ClassView>,
    pub instances: Seq<InstanceView>,
    pub envs: Seq<FrameView>,
    pub funcs: Seq<FuncView>,
}

/// A function: its name, parameters, defaults, `*args` and `**kwargs`
/// names, body, and the scope it was defined in.
pub struct FuncView {
    pub name: Seq<char>,
    pub params: Seq<Seq<char>>,
    pub defaults: Seq<(Seq<char>, SVal)>,
    pub vararg: Option<Seq<char>>,
    pub kwarg: Option<Seq<char>>,
    pub body: Seq<crate::ast::SStmt>,
    pub closure: usize,
}

spec fn func_view(f: FuncInfo) -> FuncView {
    FuncView {
        name: f.name@,
        params: crate::call::strs(f.params@),
        defaults: tview(f.defaults@),
        vararg: crate::call::opt_str(f.vararg),
        kwarg: crate::call::opt_str(f.kwarg),
        body: crate::ast::stmts_view(f.body@),
        closure: f.closure,
    }
}

impl View for Heap {
    type V = HeapView;

    closed spec fn view(&self) -> HeapView {
        HeapView {
            lists: self.lists@.map_values(|l: Vec<PyValue>| vals_view(l@)),
            dicts: self.dicts@.map_values(|d: Table| tview(d@)),
            classes: self.classes@.map_values(
                |c: ClassInfo| ClassView { name: c.name@, base: c.base, methods: tview(c.methods@) },
            ),
            instances: self.instances@.map_values(
                |i: InstanceInfo| InstanceView { class: i.class, attrs: tview(i.attrs@) },
            ),
            envs: self.envs@.map_values(|f: Frame| FrameView { parent: f.parent, vars: tview(f.vars@) }),
            funcs: self.funcs@.map_values(|f: FuncInfo| func_view(f)),
        }
    }
}

impl HeapView {
    /// Every scope's enclosing scope, and every class's base, was made before it.
    pub open spec fn wf(self) -> bool {
        &&& forall|e: int|
            0 <= e < self.envs.len() ==> ((#[trigger] self.envs[e]).parent matches Some(p) ==> p < e)
        &&& forall|c: int|
            0 <= c < self.classes.len() ==> ((#[trigger] self.classes[c]).base matches Some(b) ==> b < c)
    }

    /// The value of variable `k` seen from scope `e`: its binding in `e`, or
    /// else in the scope `e` was opened in, and so on outwards.
    pub open spec fn lookup(self, e: int, k: Seq<char>) -> Option<SVal>
        decreases e,
    {
        if e < 0 || e >= self.envs.len() {
            None
        } else {
            match tfind(self.envs[e].vars, k) {
                Some(v) => Some(v),
                None => match self.envs[e].parent {
                    Some(p) => if p < e {
                        self.lookup(p as int, k)
                    } else {
                        None
                    },
                    None => None,
                },
            }
        }
    }

    /// The scope whose binding of `k` is seen from scope `e`.
    pub open spec fn owner(self, e: int, k: Seq<char>) -> Option<int>
        decreases e,
    {
        if e < 0 || e >= self.envs.len() {
            None
        } else {
            match tfind(self.envs[e].vars, k) {
                Some(_) => Some(e),
                None => match self.envs[e].parent {
                    Some(p) => if p < e {
                        self.owner(p as int, k)
                    } else {
                        None
                    },
                    None => None,
                },
            }
        }
    }

    /// The heap after binding `k` to `v` in scope `e` itself.
    pub open spec fn env_put(self, e: int, k: Seq<char>, v: SVal) -> HeapView {
        HeapView {
            envs: self.envs.update(e, FrameView { parent: self.envs[e].parent, vars: tput(self.envs[e].vars, k, v) }),
            ..self
        }
    }

    /// The scope an assignment to `k` from scope `e` writes: the one whose
    /// binding is seen from `e`, or `e` itself when `k` is bound nowhere.
    pub open spec fn assign_target(self, e: int, k: Seq<char>) -> int {
        match self.owner(e, k) {
            Some(t) => t,
            None => e,
        }
    }

    /// The method `k` of class `c`: its own, or else its base's, and so on.
    pub open spec fn method(self, c: int, k: Seq<char>) -> Option<SVal>
        decreases c,
    {
        if c < 0 || c >= self.classes.len() {
            None
        } else {
            match tfind(self.classes[c].methods, k) {
                Some(v) => Some(v),
                None => match self.classes[c].base {
                    Some(b) => if b < c {
                        self.method(b as int, k)
                    } else {
                        None
                    },
                    None => None,
                },
            }
        }
    }

    /// Whether class `c`, or one of the classes it derives from, is named `name`.
    pub open spec fn descends(self, c: int, name: Seq<char>) -> bool
        decreases c,
    {
        if c < 0 || c >= self.classes.len() {
            false
        } else if self.classes[c].name == name {
            true
        } else {
            match self.classes[c].base {
                Some(b) => if b < c {
                    self.descends(b as int, name)
                } else {
                    false
                },
                None => false,
            }
        }
    }

    /// Whether a value counts as true: `None`, `False`, zero, and empty
    /// strings, tuples, lists and dicts are false; everything else is true.
    pub open spec fn truthy(self, v: SVal) -> bool {
        match v {
            SVal::NoneVal => false,
            SVal::Bool(b) => b,
            SVal::Int(i) => i != 0,
            SVal::Float(f) => !crate::value::float_is_zero(f),
            SVal::Str(s) => s.len() > 0,
            SVal::Tuple(t) => t.len() > 0,
            SVal::List(h) => h < self.lists.len() && self.lists[h as int].len() > 0,
            SVal::Dict(h) => h < self.dicts.len() && self.dicts[h as int].len() > 0,
            _ => true,
        }
    }

    /// The name `type()` reports for a value (its type label).
    pub open spec fn type_label(self, v: SVal) -> Seq<char> {
        match v {
            SVal::Int(_) => "int"@,
            SVal::Float(_) => "float"@,
            SVal::Str(_) => "str"@,
            SVal::Bool(_) => "bool"@,
            SVal::List(_) => "list"@,
            SVal::Dict(_) => "dict"@,
            SVal::Tuple(_) => "tuple"@,
            SVal::NoneVal => "NoneType"@,
            SVal::Instance(i) => if i < self.instances.len()
                && self.instances[i as int].class < self.classes.len() {
                self.classes[self.instances[i as int].class as int].name
            } else {
                "object"@
            },
            SVal::Class(_) => "type"@,
            SVal::Function(_) => "function"@,
            SVal::Builtin(_) => "function"@,
            SVal::BoundMethod(_, _) => "function"@,
            SVal::Method(_, _) => "function"@,
            _ => "object"@,
        }
    }
}


impl Heap {
    /// Whether every link in the heap leads to something made before it.
    pub open spec fn wf(&self) -> bool {
        self@.wf()
    }

    proof fn lemma_view(&self)
        ensures
            self@.lists.len() == self.lists@.len(),
            self@.dicts.len() == self.dicts@.len(),
            self@.classes.len() == self.classes@.len(),
            self@.instances.len() == self.instances@.len(),
            self@.envs.len() == self.envs@.len(),
            forall|i: int| 0 <= i < self.lists@.len() ==> #[trigger] self@.lists[i] == vals_view(self.lists@[i]@),
            forall|i: int| 0 <= i < self.dicts@.len() ==> #[trigger] self@.dicts[i] == tview(self.dicts@[i]@),
            forall|i: int| 0 <= i < self.classes@.len() ==> #[trigger] self@.classes[i] == (ClassView {
                name: self.classes@[i].name@,
                base: self.classes@[i].base,
                methods: tview(self.classes@[i].methods@),
            }),
            forall|i: int| 0 <= i < self.instances@.len() ==> #[trigger] self@.instances[i] == (InstanceView {
                class: self.instances@[i].class,
                attrs: tview(self.instances@[i].attrs@),
            }),
            forall|i: int| 0 <= i < self.envs@.len() ==> #[trigger] self@.envs[i] == (FrameView {
                parent: self.envs@[i].parent,
                vars: tview(self.envs@[i].vars@),
            }),
    {
    }

    /// An empty heap.
    pub fn new() -> (h: Heap)
        ensures
            h.wf(),
            h@.lists.len() == 0,
            h@.dicts.len() == 0,
            h@.classes.len() == 0,
            h@.instances.len() == 0,
            h@.envs.len() == 0,
            h@.funcs.len() == 0,
    {
        let h = Heap {
            lists: Vec::new(),
            dicts: Vec::new(),
            classes: Vec::new(),
            instances: Vec::new(),
            envs: Vec::new(),
            funcs: Vec::new(),
        };
        proof {
            h.lemma_view();
        }
        h
    }

    /// Opens a new, empty scope inside `parent` (none when `parent` does not
    /// name a scope), and returns its index.
    pub fn env_new(&mut self, parent: Option<usize>) -> (e: usize)
        requires
            old(self).wf(),
        ensures
            final(self).wf(),
            e == old(self)@.envs.len(),
            final(self)@ == (HeapView {
                envs: old(self)@.envs.push(FrameView {
                    parent: match parent {
                        Some(p) => if p < old(self)@.envs.len() { Some(p) } else { None },
                        None => None,
                    },
                    vars: Seq::empty(),
                }),
                ..old(self)@
            }),
    {
        proof {
            self.lemma_view();
        }
        let p = match parent {
            Some(p) => if p < self.envs.len() { Some(p) } else { None },
            None => None,
        };
        let e = self.envs.len();
        let vars: Table = Vec::new();
        self.envs.push(Frame { parent: p, vars });
        proof {
            self.lemma_view();
            assert(tview(vars@) =~= Seq::empty());
            assert(self@.envs =~= old(self)@.envs.push(FrameView { parent: p, vars: Seq::empty() }));
            assert(self@.lists =~= old(self)@.lists);
            assert(self@.dicts =~= old(self)@.dicts);
            assert(self@.classes =~= old(self)@.classes);
            assert(self@.instances =~= old(self)@.instances);
        }
        e
    }

    /// Binds `k` to `v` in scope `e` itself (nothing, when `e` names no scope).
    pub fn env_set(&mut self, e: usize, k: String, v: PyValue)
        requires
            old(self).wf(),
        ensures
            final(self).wf(),
            final(self)@ == (if e < old(self)@.envs.len() {
                old(self)@.env_put(e as int, k@, v.sv())
            } else {
                old(self)@
            }),
    {
        proof {
            self.lemma_view();
        }
        if e < self.envs.len() {
            let ghost kv = k@;
            let ghost vv = v.sv();
            tbl_put(&mut self.envs[e].vars, k, v);
            proof {
                self.lemma_view();
                assert(self@.envs =~= old(self)@.env_put(e as int, kv, vv).envs);
                assert(self@.lists =~= old(self)@.lists);
                assert(self@.dicts =~= old(self)@.dicts);
                assert(self@.classes =~= old(self)@.classes);
                assert(self@.instances =~= old(self)@.instances);
            }
        }
    }

    /// The value of `k` seen from scope `e`, copied.
    pub fn env_get_opt(&self, e: usize, k: &String) -> (r: Option<PyValue>)
        requires
            self.wf(),
        ensures
            opt_sv(r) == self@.lookup(e as int, k@),
        decreases e,
    {
        proof {
            self.lemma_view();
        }
        if e >= self.envs.len() {
            return None;
        }
        match tbl_get(&self.envs[e].vars, k) {
            Some(v) => Some(v),
            None => match self.envs[e].parent {
                Some(p) => {
                    if p < e {
                        self.env_get_opt(p, k)
                    } else {
                        None
                    }
                },
                None => None,
            },
        }
    }

    /// The scope whose binding of `k` is seen from scope `e`.
    fn env_owner(&self, e: usize, k: &String) -> (r: Option<usize>)
        requires
            self.wf(),
        ensures
            match r {
                Some(t) => self@.owner(e as int, k@) == Some(t as int),
                None => self@.owner(e as int, k@) is None,
            },
        decreases e,
    {
        proof {
            self.lemma_view();
        }
        if e >= self.envs.len() {
            return None;
        }
        match tbl_get(&self.envs[e].vars, k) {
            Some(_) => Some(e),
            None => match self.envs[e].parent {
                Some(p) => {
                    if p < e {
                        self.env_owner(p, k)
                    } else {
                        None
                    }
                },
                None => None,
            },
        }
    }

    /// The value of `k` seen from scope `e`, or `NameError`.
    pub fn env_get(&self, e: usize, k: &String) -> (r: Result<PyValue, PyValue>)
        requires
            self.wf(),
        ensures
            match r {
                Ok(v) => self@.lookup(e as int, k@) == Some(v.sv()),
                Err(x) => self@.lookup(e as int, k@) is None && x.sv() == exc_sv("NameError"@, name_error_msg(k@)),
            },
    {
        match self.env_get_opt(e, k) {
            Some(v) => Ok(v),
            None => {
                let mut m = "name '".to_owned();
                m.append(k.as_str());
                m.append("' is not defined");
                Err(py_err_string("NameError", m))
            },
        }
    }

    /// Assigns `v` to `k` from scope `e`: rebinds `k` where its binding is
    /// seen from `e`, or binds it in `e` when it is bound nowhere.
    pub fn env_assign(&mut self, e: usize, k: String, v: PyValue)
        requires
            old(self).wf(),
        ensures
            final(self).wf(),
            final(self)@ == (if e < old(self)@.envs.len() {
                old(self)@.env_put(old(self)@.assign_target(e as int, k@), k@, v.sv())
            } else {
                old(self)@
            }),
    {
        proof {
            self.lemma_view();
            if e < self.envs.len() {
                lemma_owner_range(self@, e as int, k@);
            }
        }
        let t = match self.env_owner(e, &k) {
            Some(t) => t,
            None => e,
        };
        self.env_set(t, k, v);
    }

    /// A copy of the variables bound in scope `e` itself, in order.
    pub fn env_vars(&self, e: usize) -> (r: Table)
        requires
            self.wf(),
        ensures
            e < self@.envs.len() ==> tview(r@) == self@.envs[e as int].vars,
            e >= self@.envs.len() ==> r@.len() == 0,
    {
        proof {
            self.lemma_view();
        }
        if e < self.envs.len() {
            tbl_copy(&self.envs[e].vars)
        } else {
            Vec::new()
        }
    }
}


impl Heap {
    /// Makes a new list holding `items`, and returns its index.
    pub fn list_new(&mut self, items: Vec<PyValue>) -> (h: usize)
        requires
            old(self).wf(),
        ensures
            final(self).wf(),
            h == old(self)@.lists.len(),
            final(self)@ == (HeapView { lists: old(self)@.lists.push(vals_view(items@)), ..old(self)@ }),
    {
        proof {
            self.lemma_view();
        }
        let h = self.lists.len();
        let ghost iv = vals_view(items@);
        self.lists.push(items);
        proof {
            self.lemma_view();
            assert(self@.lists =~= old(self)@.lists.push(iv));
            assert(self@.envs =~= old(self)@.envs);
            assert(self@.dicts =~= old(self)@.dicts);
            assert(self@.classes =~= old(self)@.classes);
            assert(self@.instances =~= old(self)@.instances);
        }
        h
    }

    /// The number of lists.
    pub fn list_len_all(&self) -> (n: usize)
        ensures
            n == self@.lists.len(),
    {
        proof {
            self.lemma_view();
        }
        self.lists.len()
    }

    /// The length of list `h` (zero when `h` names no list).
    pub fn list_len(&self, h: usize) -> (n: usize)
        ensures
            n == (if h < self@.lists.len() { self@.lists[h as int].len() } else { 0 }),
    {
        proof {
            self.lemma_view();
        }
        if h < self.lists.len() {
            proof {
                lemma_vals_view(self.lists@[h as int]@);
            }
            self.lists[h].len()
        } else {
            0
        }
    }

    /// Item `i` of list `h`, copied; `None` when `i` is negative or past the end.
    pub fn list_get(&self, h: usize, i: i64) -> (r: Option<PyValue>)
        ensures
            match r {
                Some(v) => h < self@.lists.len() && 0 <= i < self@.lists[h as int].len()
                    && v.sv() == self@.lists[h as int][i as int],
                None => !(h < self@.lists.len() && 0 <= i < self@.lists[h as int].len()),
            },
    {
        proof {
            self.lemma_view();
        }
        if h >= self.lists.len() {
            return None;
        }
        proof {
            lemma_vals_view(self.lists@[h as int]@);
        }
        if i < 0 || i as u64 >= self.lists[h].len() as u64 {
            return None;
        }
        let j = i as usize;
        Some(self.lists[h][j].copy())
    }

    /// Replaces item `i` of list `h` by `v`; false, and nothing changed, when
    /// `i` is negative or past the end.
    pub fn list_set(&mut self, h: usize, i: i64, v: PyValue) -> (ok: bool)
        requires
            old(self).wf(),
        ensures
            final(self).wf(),
            ok == (h < old(self)@.lists.len() && 0 <= i < old(self)@.lists[h as int].len()),
            ok ==> final(self)@ == (HeapView {
                lists: old(self)@.lists.update(h as int, old(self)@.lists[h as int].update(i as int, v.sv())),
                ..old(self)@
            }),
            !ok ==> final(self)@ == old(self)@,
    {
        proof {
            self.lemma_view();
        }
        if h >= self.lists.len() {
            return false;
        }
        proof {
            lemma_vals_view(self.lists@[h as int]@);
        }
        if i < 0 || i as u64 >= self.lists[h].len() as u64 {
            return false;
        }
        let j = i as usize;
        let ghost vv = v.sv();
        self.lists[h].set(j, v);
        proof {
            self.lemma_view();
            lemma_vals_view(self.lists@[h as int]@);
            assert(self@.lists[h as int] =~= old(self)@.lists[h as int].update(i as int, vv));
            assert(self@.lists =~= old(self)@.lists.update(h as int, old(self)@.lists[h as int].update(i as int, vv)));
            assert(self@.envs =~= old(self)@.envs);
            assert(self@.dicts =~= old(self)@.dicts);
            assert(self@.classes =~= old(self)@.classes);
            assert(self@.instances =~= old(self)@.instances);
        }
        true
    }

    /// Appends `v` to list `h` (nothing, when `h` names no list).
    pub fn list_push(&mut self, h: usize, v: PyValue)
        requires
            old(self).wf(),
        ensures
            final(self).wf(),
            final(self)@ == (if h < old(self)@.lists.len() {
                HeapView { lists: old(self)@.lists.update(h as int, old(self)@.lists[h as int].push(v.sv())), ..old(self)@ }
            } else {
                old(self)@
            }),
    {
        proof {
            self.lemma_view();
        }
        if h < self.lists.len() {
            let ghost vv = v.sv();
            proof {
                lemma_vals_push(self.lists@[h as int]@, v);
            }
            self.lists[h].push(v);
            proof {
                self.lemma_view();
                assert(self@.lists =~= old(self)@.lists.update(h as int, old(self)@.lists[h as int].push(vv)));
                assert(self@.envs =~= old(self)@.envs);
                assert(self@.dicts =~= old(self)@.dicts);
                assert(self@.classes =~= old(self)@.classes);
                assert(self@.instances =~= old(self)@.instances);
            }
        }
    }

    /// Removes and returns the last item of list `h`; `None` when it is empty.
    pub fn list_pop(&mut self, h: usize) -> (r: Option<PyValue>)
        requires
            old(self).wf(),
        ensures
            final(self).wf(),
            match r {
                Some(v) => h < old(self)@.lists.len() && old(self)@.lists[h as int].len() > 0
                    && v.sv() == old(self)@.lists[h as int].last()
                    && final(self)@ == (HeapView {
                        lists: old(self)@.lists.update(h as int, old(self)@.lists[h as int].drop_last()),
                        ..old(self)@
                    }),
                None => !(h < old(self)@.lists.len() && old(self)@.lists[h as int].len() > 0)
                    && final(self)@ == old(self)@,
            },
    {
        proof {
            self.lemma_view();
        }
        if h >= self.lists.len() {
            return None;
        }
        proof {
            lemma_vals_view(self.lists@[h as int]@);
        }
        let ghost before = self.lists@[h as int]@;
        match self.lists[h].pop() {
            Some(v) => {
                proof {
                    self.lemma_view();
                    assert(before.drop_last() =~= self.lists@[h as int]@);
                    assert(vals_view(before) == vals_view(before.drop_last()).push(before.last().sv()));
                    assert(vals_view(before).drop_last() =~= vals_view(before.drop_last()));
                    assert(self@.lists[h as int] == old(self)@.lists[h as int].drop_last());
                    assert(self@.lists =~= old(self)@.lists.update(h as int, old(self)@.lists[h as int].drop_last()));
                    assert(self@.envs =~= old(self)@.envs);
                    assert(self@.dicts =~= old(self)@.dicts);
                    assert(self@.classes =~= old(self)@.classes);
                    assert(self@.instances =~= old(self)@.instances);
                }
                Some(v)
            },
            None => {
                proof {
                    self.lemma_view();
                    assert(self@.lists =~= old(self)@.lists);
                    assert(self@.envs =~= old(self)@.envs);
                    assert(self@.dicts =~= old(self)@.dicts);
                    assert(self@.classes =~= old(self)@.classes);
                    assert(self@.instances =~= old(self)@.instances);
                }
                None
            },
        }
    }

    /// A copy of the items of list `h`, in order (none, when `h` names no list).
    pub fn list_items(&self, h: usize) -> (r: Vec<PyValue>)
        ensures
            vals_view(r@) == (if h < self@.lists.len() { self@.lists[h as int] } else { Seq::empty() }),
    {
        proof {
            self.lemma_view();
        }
        if h < self.lists.len() {
            copy_vals(&self.lists[h])
        } else {
            let r: Vec<PyValue> = Vec::new();
            proof {
                assert(vals_view(r@) =~= Seq::<SVal>::empty());
            }
            r
        }
    }
}


impl Heap {
    /// Makes a new dict holding the entries of `t`, and returns its index.
    pub fn dict_new(&mut self, t: Table) -> (h: usize)
        requires
            old(self).wf(),
        ensures
            final(self).wf(),
            h == old(self)@.dicts.len(),
            final(self)@ == (HeapView { dicts: old(self)@.dicts.push(tview(t@)), ..old(self)@ }),
    {
        proof {
            self.lemma_view();
        }
        let h = self.dicts.len();
        let ghost tv = tview(t@);
        self.dicts.push(t);
        proof {
            self.lemma_view();
            assert(self@.dicts =~= old(self)@.dicts.push(tv));
            assert(self@.envs =~= old(self)@.envs);
            assert(self@.lists =~= old(self)@.lists);
            assert(self@.classes =~= old(self)@.classes);
            assert(self@.instances =~= old(self)@.instances);
        }
        h
    }

    /// The number of entries of dict `h` (zero when `h` names no dict).
    pub fn dict_len(&self, h: usize) -> (n: usize)
        ensures
            n == (if h < self@.dicts.len() { self@.dicts[h as int].len() } else { 0 }),
    {
        proof {
            self.lemma_view();
        }
        if h < self.dicts.len() {
            proof {
                lemma_tview(self.dicts@[h as int]@);
            }
            self.dicts[h].len()
        } else {
            0
        }
    }

    /// The value of key `k` in dict `h`, copied.
    pub fn dict_get(&self, h: usize, k: &String) -> (r: Option<PyValue>)
        ensures
            opt_sv(r) == (if h < self@.dicts.len() { tfind(self@.dicts[h as int], k@) } else { None }),
    {
        proof {
            self.lemma_view();
        }
        if h < self.dicts.len() {
            tbl_get(&self.dicts[h], k)
        } else {
            None
        }
    }

    /// Binds key `k` to `v` in dict `h` (nothing, when `h` names no dict).
    pub fn dict_set(&mut self, h: usize, k: String, v: PyValue)
        requires
            old(self).wf(),
        ensures
            final(self).wf(),
            final(self)@ == (if h < old(self)@.dicts.len() {
                HeapView { dicts: old(self)@.dicts.update(h as int, tput(old(self)@.dicts[h as int], k@, v.sv())), ..old(self)@ }
            } else {
                old(self)@
            }),
    {
        proof {
            self.lemma_view();
        }
        if h < self.dicts.len() {
            let ghost kv = k@;
            let ghost vv = v.sv();
            tbl_put(&mut self.dicts[h], k, v);
            proof {
                self.lemma_view();
                assert(self@.dicts =~= old(self)@.dicts.update(h as int, tput(old(self)@.dicts[h as int], kv, vv)));
                assert(self@.envs =~= old(self)@.envs);
                assert(self@.lists =~= old(self)@.lists);
                assert(self@.classes =~= old(self)@.classes);
                assert(self@.instances =~= old(self)@.instances);
            }
        }
    }

    /// A copy of the entries of dict `h`, in order (none, when `h` names no dict).
    pub fn dict_entries(&self, h: usize) -> (r: Table)
        ensures
            tview(r@) == (if h < self@.dicts.len() { self@.dicts[h as int] } else { Seq::empty() }),
    {
        proof {
            self.lemma_view();
        }
        if h < self.dicts.len() {
            tbl_copy(&self.dicts[h])
        } else {
            let r: Table = Vec::new();
            proof {
                assert(tview(r@) =~= Seq::empty());
            }
            r
        }
    }

    /// Makes a new class, and returns its index. A base that names no class
    /// is dropped.
    pub fn class_new(&mut self, name: String, base: Option<usize>, methods: Table) -> (c: usize)
        requires
            old(self).wf(),
        ensures
            final(self).wf(),
            c == old(self)@.classes.len(),
            final(self)@ == (HeapView {
                classes: old(self)@.classes.push(ClassView {
                    name: name@,
                    base: match base {
                        Some(b) => if b < old(self)@.classes.len() { Some(b) } else { None },
                        None => None,
                    },
                    methods: tview(methods@),
                }),
                ..old(self)@
            }),
    {
        proof {
            self.lemma_view();
        }
        let b = match base {
            Some(b) => if b < self.classes.len() { Some(b) } else { None },
            None => None,
        };
        let c = self.classes.len();
        let ghost cv = ClassView { name: name@, base: b, methods: tview(methods@) };
        self.classes.push(ClassInfo { name, base: b, methods });
        proof {
            self.lemma_view();
            assert(self@.classes =~= old(self)@.classes.push(cv));
            assert(self@.envs =~= old(self)@.envs);
            assert(self@.lists =~= old(self)@.lists);
            assert(self@.dicts =~= old(self)@.dicts);
            assert(self@.instances =~= old(self)@.instances);
        }
        c
    }

    /// The name of class `c`.
    pub fn class_name(&self, c: usize) -> (r: Option<String>)
        ensures
            match r {
                Some(n) => c < self@.classes.len() && n@ == self@.classes[c as int].name,
                None => c >= self@.classes.len(),
            },
    {
        proof {
            self.lemma_view();
        }
        if c < self.classes.len() {
            Some(self.classes[c].name.clone())
        } else {
            None
        }
    }

    /// The method `k` of class `c`, its own or inherited, copied.
    pub fn get_class_method(&self, c: usize, k: &String) -> (r: Option<PyValue>)
        requires
            self.wf(),
        ensures
            opt_sv(r) == self@.method(c as int, k@),
        decreases c,
    {
        proof {
            self.lemma_view();
        }
        if c >= self.classes.len() {
            return None;
        }
        match tbl_get(&self.classes[c].methods, k) {
            Some(m) => Some(m),
            None => match self.classes[c].base {
                Some(b) => {
                    if b < c {
                        self.get_class_method(b, k)
                    } else {
                        None
                    }
                },
                None => None,
            },
        }
    }

    /// Whether class `c`, or a class it derives from, is named `name`.
    pub fn class_descends(&self, c: usize, name: &String) -> (r: bool)
        requires
            self.wf(),
        ensures
            r == self@.descends(c as int, name@),
        decreases c,
    {
        proof {
            self.lemma_view();
        }
        if c >= self.classes.len() {
            return false;
        }
        if self.classes[c].name == *name {
            return true;
        }
        match self.classes[c].base {
            Some(b) => {
                if b < c {
                    self.class_descends(b, name)
                } else {
                    false
                }
            },
            None => false,
        }
    }

    /// Makes a new instance of class `c`, with no attributes, and returns its index.
    pub fn instance_new(&mut self, c: usize) -> (i: usize)
        requires
            old(self).wf(),
        ensures
            final(self).wf(),
            i == old(self)@.instances.len(),
            final(self)@ == (HeapView {
                instances: old(self)@.instances.push(InstanceView { class: c, attrs: Seq::empty() }),
                ..old(self)@
            }),
    {
        proof {
            self.lemma_view();
        }
        let i = self.instances.len();
        let attrs: Table = Vec::new();
        self.instances.push(InstanceInfo { class: c, attrs });
        proof {
            self.lemma_view();
            assert(tview(attrs@) =~= Seq::empty());
            assert(self@.instances =~= old(self)@.instances.push(InstanceView { class: c, attrs: Seq::empty() }));
            assert(self@.envs =~= old(self)@.envs);
            assert(self@.lists =~= old(self)@.lists);
            assert(self@.dicts =~= old(self)@.dicts);
            assert(self@.classes =~= old(self)@.classes);
        }
        i
    }

    /// The class of instance `i`.
    pub fn instance_class(&self, i: usize) -> (r: Option<usize>)
        ensures
            match r {
                Some(c) => i < self@.instances.len() && c == self@.instances[i as int].class,
                None => i >= self@.instances.len(),
            },
    {
        proof {
            self.lemma_view();
        }
        if i < self.instances.len() {
            Some(self.instances[i].class)
        } else {
            None
        }
    }

    /// The attribute `k` of instance `i`, copied.
    pub fn attr_get(&self, i: usize, k: &String) -> (r: Option<PyValue>)
        ensures
            opt_sv(r) == (if i < self@.instances.len() { tfind(self@.instances[i as int].attrs, k@) } else { None }),
    {
        proof {
            self.lemma_view();
        }
        if i < self.instances.len() {
            tbl_get(&self.instances[i].attrs, k)
        } else {
            None
        }
    }

    /// Binds attribute `k` of instance `i` to `v` (nothing, when `i` names no instance).
    pub fn attr_set(&mut self, i: usize, k: String, v: PyValue)
        requires
            old(self).wf(),
        ensures
            final(self).wf(),
            final(self)@ == (if i < old(self)@.instances.len() {
                HeapView {
                    instances: old(self)@.instances.update(i as int, InstanceView {
                        class: old(self)@.instances[i as int].class,
                        attrs: tput(old(self)@.instances[i as int].attrs, k@, v.sv()),
                    }),
                    ..old(self)@
                }
            } else {
                old(self)@
            }),
    {
        proof {
            self.lemma_view();
        }
        if i < self.instances.len() {
            let ghost kv = k@;
            let ghost vv = v.sv();
            tbl_put(&mut self.instances[i].attrs, k, v);
            proof {
                self.lemma_view();
                assert(self@.instances =~= old(self)@.instances.update(i as int, InstanceView {
                    class: old(self)@.instances[i as int].class,
                    attrs: tput(old(self)@.instances[i as int].attrs, kv, vv),
                }));
                assert(self@.envs =~= old(self)@.envs);
                assert(self@.lists =~= old(self)@.lists);
                assert(self@.dicts =~= old(self)@.dicts);
                assert(self@.classes =~= old(self)@.classes);
            }
        }
    }
}

impl PyValue {
    /// Whether the value counts as true in a condition.
    pub fn is_truthy(&self, heap: &Heap) -> (r: bool)
        ensures
            r == heap@.truthy(self.sv()),
    {
        match self {
            PyValue::NoneVal => false,
            PyValue::Bool(b) => *b,
            PyValue::Int(i) => *i != 0,
            PyValue::Float(f) => !crate::value::float_zero(*f),
            PyValue::Str(s) => !s.as_str().is_empty(),
            PyValue::Tuple(t) => {
                proof {
                    lemma_vals_view(t@);
                }
                t.len() != 0
            },
            PyValue::List(h) => heap.list_len(*h) != 0,
            PyValue::Dict(h) => heap.dict_len(*h) != 0,
            _ => true,
        }
    }

    /// The name `type()` reports for the value.
    pub fn type_label(&self, heap: &Heap) -> (r: String)
        ensures
            r@ == heap@.type_label(self.sv()),
    {
        match self {
            PyValue::Int(_) => "int".to_owned(),
            PyValue::Float(_) => "float".to_owned(),
            PyValue::Str(_) => "str".to_owned(),
            PyValue::Bool(_) => "bool".to_owned(),
            PyValue::List(_) => "list".to_owned(),
            PyValue::Dict(_) => "dict".to_owned(),
            PyValue::Tuple(_) => "tuple".to_owned(),
            PyValue::NoneVal => "NoneType".to_owned(),
            PyValue::Instance(i) => match heap.instance_class(*i) {
                Some(c) => match heap.class_name(c) {
                    Some(n) => n,
                    None => "object".to_owned(),
                },
                None => "object".to_owned(),
            },
            PyValue::Class(_) => "type".to_owned(),
            PyValue::Function(_) => "function".to_owned(),
            PyValue::Builtin(_) => "function".to_owned(),
            PyValue::BoundMethod(_, _) => "function".to_owned(),
            PyValue::Method(_, _) => "function".to_owned(),
            _ => "object".to_owned(),
        }
    }
}


/// The parts of a function, copied.
pub struct FuncParts {
    pub name: String,
    pub params: Vec<String>,
    pub defaults: Table,
    pub vararg: Option<String>,
    pub kwarg: Option<String>,
    pub body: Vec<crate::ast::Stmt>,
    pub closure: usize,
}

impl FuncParts {
    pub open spec fn view_of(&self) -> FuncView {
        FuncView {
            name: self.name@,
            params: crate::call::strs(self.params@),
            defaults: tview(self.defaults@),
            vararg: crate::call::opt_str(self.vararg),
            kwarg: crate::call::opt_str(self.kwarg),
            body: crate::ast::stmts_view(self.body@),
            closure: self.closure,
        }
    }
}

fn copy_names(v: &Vec<String>) -> (r: Vec<String>)
    ensures
        crate::call::strs(r@) == crate::call::strs(v@),
{
    let mut r: Vec<String> = Vec::new();
    let mut i: usize = 0;
    while i < v.len()
        invariant
            i <= v.len(),
            r@.len() == i,
            forall|j: int| 0 <= j < i ==> (#[trigger] r@[j])@ == v@[j]@,
        decreases v.len() - i,
    {
        r.push(v[i].clone());
        i = i + 1;
    }
    assert(crate::call::strs(r@) =~= crate::call::strs(v@));
    r
}

fn copy_opt(o: &Option<String>) -> (r: Option<String>)
    ensures
        crate::call::opt_str(r) == crate::call::opt_str(*o),
{
    match o {
        Some(s) => Some(s.clone()),
        None => None,
    }
}

impl Heap {
    /// Records a function, and returns its index.
    pub fn func_new(&mut self, f: FuncParts) -> (i: usize)
        requires
            old(self).wf(),
        ensures
            final(self).wf(),
            i == old(self)@.funcs.len(),
            final(self)@ == (HeapView { funcs: old(self)@.funcs.push(f.view_of()), ..old(self)@ }),
    {
        let i = self.funcs.len();
        let ghost fv = f.view_of();
        let FuncParts { name, params, defaults, vararg, kwarg, body, closure } = f;
        self.funcs.push(FuncInfo { name, params, defaults, vararg, kwarg, body, closure });
        proof {
            assert(self@.funcs =~= old(self)@.funcs.push(fv));
            assert(self@.envs =~= old(self)@.envs);
            assert(self@.lists =~= old(self)@.lists);
            assert(self@.dicts =~= old(self)@.dicts);
            assert(self@.classes =~= old(self)@.classes);
            assert(self@.instances =~= old(self)@.instances);
        }
        i
    }

    /// A copy of the parts of function `i`.
    pub fn func_parts(&self, i: usize) -> (r: Option<FuncParts>)
        ensures
            match r {
                Some(f) => i < self@.funcs.len() && f.view_of() == self@.funcs[i as int],
                None => i >= self@.funcs.len(),
            },
    {
        if i >= self.funcs.len() {
            return None;
        }
        let f = &self.funcs[i];
        let r = FuncParts {
            name: f.name.clone(),
            params: copy_names(&f.params),
            defaults: tbl_copy(&f.defaults),
            vararg: copy_opt(&f.vararg),
            kwarg: copy_opt(&f.kwarg),
            body: crate::ast::copy_stmts(&f.body),
            closure: f.closure,
        };
        Some(r)
    }

    /// The name of function `i` (empty when `i` names none).
    pub fn func_name(&self, i: usize) -> (r: String)
        ensures
            r@ == (if i < self@.funcs.len() { self@.funcs[i as int].name } else { Seq::empty() }),
    {
        if i < self.funcs.len() {
            self.funcs[i].name.clone()
        } else {
            String::new()
        }
    }
}

/// The scope that owns a binding is the scope itself or one it lies in, and
/// it binds the name.
pub proof fn lemma_owner_range(h: HeapView, e: int, k: Seq<char>)
    requires
        h.wf(),
    ensures
        h.owner(e, k) matches Some(t) ==> 0 <= t <= e && t < h.envs.len() && tfind(h.envs[t].vars, k) is Some,
        h.owner(e, k) is Some <==> h.lookup(e, k) is Some,
        h.owner(e, k) matches Some(t) ==> h.lookup(e, k) == tfind(h.envs[t].vars, k),
    decreases e,
{
    if 0 <= e < h.envs.len() {
        if tfind(h.envs[e].vars, k) is None {
            if let Some(p) = h.envs[e].parent {
                lemma_owner_range(h, p as int, k);
            }
        }
    }
}


proof fn lemma_put_other_keys(h: HeapView, t: int, k: Seq<char>, v: SVal, x: int, k2: Seq<char>)
    requires
        h.wf(),
        0 <= t < h.envs.len(),
        k2 != k,
    ensures
        h.env_put(t, k, v).lookup(x, k2) == h.lookup(x, k2),
    decreases x,
{
    let h2 = h.env_put(t, k, v);
    if 0 <= x < h.envs.len() {
        lemma_tput(h.envs[t].vars, k, v, k2);
        assert(tfind(h2.envs[x].vars, k2) == tfind(h.envs[x].vars, k2));
        if let Some(p) = h.envs[x].parent {
            lemma_put_other_keys(h, t, k, v, p as int, k2);
        }
    }
}

proof fn lemma_put_below(h: HeapView, t: int, k: Seq<char>, v: SVal, x: int, k2: Seq<char>)
    requires
        h.wf(),
        0 <= t < h.envs.len(),
        x < t,
    ensures
        h.env_put(t, k, v).lookup(x, k2) == h.lookup(x, k2),
    decreases x,
{
    if 0 <= x < h.envs.len() {
        if let Some(p) = h.envs[x].parent {
            lemma_put_below(h, t, k, v, p as int, k2);
        }
    }
}

proof fn lemma_put_reaches(h: HeapView, t: int, k: Seq<char>, v: SVal, x: int)
    requires
        h.wf(),
        0 <= t < h.envs.len(),
        h.owner(x, k) == Some(t),
    ensures
        h.env_put(t, k, v).lookup(x, k) == Some(v),
    decreases x,
{
    lemma_tput(h.envs[t].vars, k, v, k);
    if x != t {
        if let Some(p) = h.envs[x].parent {
            lemma_put_reaches(h, t, k, v, p as int);
        }
    }
}

/// Binding `k` in a scope makes `k` read back the value bound there, and
/// leaves every other name as it read before.
pub proof fn law_set_then_lookup(h: HeapView, e: int, k: Seq<char>, v: SVal, k2: Seq<char>)
    requires
        h.wf(),
        0 <= e < h.envs.len(),
    ensures
        h.env_put(e, k, v).lookup(e, k2) == (if k2 == k { Some(v) } else { h.lookup(e, k2) }),
{
    if k2 == k {
        lemma_tput(h.envs[e].vars, k, v, k);
    } else {
        lemma_put_other_keys(h, e, k, v, e, k2);
    }
}

/// Binding a name in an inner scope shadows the binding outside: what any
/// enclosing (earlier) scope reads is unchanged.
pub proof fn law_set_leaves_enclosing(h: HeapView, e: int, k: Seq<char>, v: SVal, x: int, k2: Seq<char>)
    requires
        h.wf(),
        0 <= e < h.envs.len(),
        x < e,
    ensures
        h.env_put(e, k, v).lookup(x, k2) == h.lookup(x, k2),
{
    lemma_put_below(h, e, k, v, x, k2);
}

/// After an assignment to `k` from scope `e`, `k` reads the assigned value
/// from `e`, and every other name reads as before.
pub proof fn law_assign_then_lookup(h: HeapView, e: int, k: Seq<char>, v: SVal, k2: Seq<char>)
    requires
        h.wf(),
        0 <= e < h.envs.len(),
    ensures
        h.env_put(h.assign_target(e, k), k, v).lookup(e, k2) == (if k2 == k { Some(v) } else { h.lookup(e, k2) }),
{
    lemma_owner_range(h, e, k);
    let t = h.assign_target(e, k);
    if k2 == k {
        if h.owner(e, k) is Some {
            lemma_put_reaches(h, t, k, v, e);
        } else {
            lemma_tput(h.envs[e].vars, k, v, k);
        }
    } else {
        lemma_put_other_keys(h, t, k, v, e, k2);
    }
}

/// An assignment from a scope that does not bind `k` itself, inside a scope
/// where `k` is seen, rebinds `k` out there: the enclosing scope reads the
/// new value too, and the inner scope gets no binding of its own.
pub proof fn law_assign_reaches_enclosing(h: HeapView, e: int, k: Seq<char>, v: SVal, p: usize)
    requires
        h.wf(),
        0 <= e < h.envs.len(),
        tfind(h.envs[e].vars, k) is None,
        h.envs[e].parent == Some(p),
        h.lookup(p as int, k) is Some,
    ensures
        h.env_put(h.assign_target(e, k), k, v).lookup(p as int, k) == Some(v),
        h.env_put(h.assign_target(e, k), k, v).envs[e] == h.envs[e],
{
    lemma_owner_range(h, p as int, k);
    assert(h.envs[e].parent matches Some(q) ==> q < e);
    let t = h.owner(p as int, k)->0;
    assert(h.owner(e, k) == Some(t));
    lemma_put_reaches(h, t, k, v, p as int);
}


/// A class's own method wins; a method it does not define is looked up in
/// its base class.
pub proof fn law_method_inherited(h: HeapView, c: int, k: Seq<char>)
    requires
        h.wf(),
        0 <= c < h.classes.len(),
    ensures
        tfind(h.classes[c].methods, k) matches Some(m) ==> h.method(c, k) == Some(m),
        tfind(h.classes[c].methods, k) is None ==> h.method(c, k) == match h.classes[c].base {
            Some(b) => h.method(b as int, k),
            None => None,
        },
{
    assert(h.classes[c].base matches Some(b) ==> b < c);
}

/// An instance of a class is an instance of every class it derives from.
pub proof fn law_descends_from_base(h: HeapView, c: int, name: Seq<char>)
    requires
        h.wf(),
        0 <= c < h.classes.len(),
        h.classes[c].base matches Some(b) && h.descends(b as int, name),
    ensures
        h.descends(c, name),
{
    assert(h.classes[c].base matches Some(b) ==> b < c);
}

/// The message of the `NameError` for an unbound name.
pub open spec fn name_error_msg(k: Seq<char>) -> Seq<char> {
    "name '"@ + k + "' is not defined"@
}

} // verus!
