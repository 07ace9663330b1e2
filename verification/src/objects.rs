//! Reading and writing through values: `obj.attr`, `obj[idx]`, and the
//! assignments to them.
//!
//! An instance's own attribute comes before a method of its class; a method
//! read through an instance comes bound to it. Where an instance defines
//! `__getitem__` or `__setitem__`, the access becomes a call of that bound
//! method, which the caller makes.
use vstd::prelude::*;
use crate::value::{PyValue, SVal, exc_sv, py_err, py_err_string, lemma_vals_view};
use crate::heap::{Heap, HeapView, name_error_msg};
use crate::table::{tfind, tput};

verus! {

/// The method `a` of the class of instance `i`, if any.
pub open spec fn instance_method(h: HeapView, i: usize, a: Seq<char>) -> Option<SVal> {
    if i < h.instances.len() {
        h.method(h.instances[i as int].class as int, a)
    } else {
        None
    }
}

/// The attribute `a` of instance `i` itself, if any.
pub open spec fn own_attr(h: HeapView, i: usize, a: Seq<char>) -> Option<SVal> {
    if i < h.instances.len() {
        tfind(h.instances[i as int].attrs, a)
    } else {
        None
    }
}

/// The name of class `c`, or nothing when `c` names no class.
pub open spec fn class_name_of(h: HeapView, c: usize) -> Seq<char> {
    if c < h.classes.len() {
        h.classes[c as int].name
    } else {
        Seq::empty()
    }
}

/// What `o.a` gives, or the exception it raises.
pub open spec fn attribute_of(h: HeapView, o: SVal, a: Seq<char>) -> Result<SVal, SVal> {
    match o {
        SVal::Module(_, e) => match h.lookup(e as int, a) {
            Some(v) => Ok(v),
            None => Err(exc_sv("NameError"@, name_error_msg(a))),
        },
        SVal::Instance(i) => match own_attr(h, i, a) {
            Some(v) => Ok(v),
            None => match instance_method(h, i, a) {
                Some(m) => Ok(SVal::BoundMethod(Box::new(o), Box::new(m))),
                None => Err(exc_sv("AttributeError"@, "object has no attribute '"@ + a + "'"@)),
            },
        },
        SVal::Class(c) => match h.method(c as int, a) {
            Some(m) => Ok(m),
            None => Err(exc_sv(
                "AttributeError"@,
                "type object '"@ + class_name_of(h, c) + "' has no attribute '"@ + a + "'"@,
            )),
        },
        SVal::List(_) => Ok(SVal::Method(Box::new(o), a)),
        SVal::Dict(_) => Ok(SVal::Method(Box::new(o), a)),
        SVal::Str(_) => Ok(SVal::Method(Box::new(o), a)),
        SVal::File(_) => Ok(SVal::Method(Box::new(o), a)),
        _ => Err(exc_sv("AttributeError"@, "object has no attribute"@)),
    }
}

/// What reading `o[i]` comes to.
#[derive(Debug)]
pub enum Access {
    /// The item itself.
    Value(PyValue),
    /// A call of this bound method (with the index, and for a write the value).
    Call(PyValue),
}

/// The mathematical form of an access.
pub enum SAccess {
    Value(SVal),
    Call(SVal),
}

pub open spec fn access_sv(a: Access) -> SAccess {
    match a {
        Access::Value(v) => SAccess::Value(v.sv()),
        Access::Call(v) => SAccess::Call(v.sv()),
    }
}

/// Whether `0 <= i < n`.
pub open spec fn in_bounds(i: i64, n: nat) -> bool {
    0 <= i && i < n
}

/// What `o[i]` gives, or the exception it raises.
pub open spec fn item_of(h: HeapView, o: SVal, i: SVal) -> Result<SAccess, SVal> {
    match o {
        SVal::Tuple(t) => match i {
            SVal::Int(k) => if in_bounds(k, t.len()) {
                Ok(SAccess::Value(t[k as int]))
            } else {
                Err(exc_sv("IndexError"@, "tuple index out of range"@))
            },
            _ => Err(exc_sv("TypeError"@, "index must be int"@)),
        },
        SVal::List(l) => match i {
            SVal::Int(k) => if l < h.lists.len() && in_bounds(k, h.lists[l as int].len()) {
                Ok(SAccess::Value(h.lists[l as int][k as int]))
            } else {
                Err(exc_sv("IndexError"@, "list index out of range"@))
            },
            _ => Err(exc_sv("TypeError"@, "index must be int"@)),
        },
        SVal::Dict(d) => match crate::value::key_of(i) {
            None => Err(exc_sv("TypeError"@, "unhashable type"@)),
            Some(k) => match (if d < h.dicts.len() { tfind(h.dicts[d as int], k) } else { None }) {
                Some(v) => Ok(SAccess::Value(v)),
                None => Err(SVal::Exception("KeyError"@, Box::new(i))),
            },
        },
        SVal::Instance(x) => match instance_method(h, x, "__getitem__"@) {
            Some(m) => Ok(SAccess::Call(SVal::BoundMethod(Box::new(o), Box::new(m)))),
            None => Err(exc_sv("TypeError"@, "object is not subscriptable"@)),
        },
        _ => Err(exc_sv("TypeError"@, "object is not subscriptable"@)),
    }
}

/// What `o[i] = v` does: the heap after it, and the bound `__setitem__` to
/// call when there is one; or the exception it raises.
pub open spec fn store_item(h: HeapView, o: SVal, i: SVal, v: SVal) -> Result<(HeapView, Option<SVal>), SVal> {
    match o {
        SVal::List(l) => match i {
            SVal::Int(k) => if l < h.lists.len() && in_bounds(k, h.lists[l as int].len()) {
                Ok((HeapView { lists: h.lists.update(l as int, h.lists[l as int].update(k as int, v)), ..h }, None))
            } else {
                Err(exc_sv("IndexError"@, "list assignment index out of range"@))
            },
            _ => Err(exc_sv("TypeError"@, "list indices must be integers"@)),
        },
        SVal::Dict(d) => match crate::value::key_of(i) {
            None => Err(exc_sv("TypeError"@, "unhashable type"@)),
            Some(k) => Ok((
                if d < h.dicts.len() {
                    HeapView { dicts: h.dicts.update(d as int, tput(h.dicts[d as int], k, v)), ..h }
                } else {
                    h
                },
                None,
            )),
        },
        SVal::Tuple(_) => Err(exc_sv("TypeError"@, "tuple object does not support item assignment"@)),
        SVal::Instance(x) => match instance_method(h, x, "__setitem__"@) {
            Some(m) => Ok((h, Some(SVal::BoundMethod(Box::new(o), Box::new(m))))),
            None => Err(exc_sv("TypeError"@, "object does not support item assignment"@)),
        },
        _ => Err(exc_sv("TypeError"@, "object does not support item assignment"@)),
    }
}

fn method_of_instance(heap: &Heap, i: usize, a: &String) -> (r: Option<PyValue>)
    requires
        heap.wf(),
    ensures
        crate::value::opt_sv(r) == instance_method(heap@, i, a@),
{
    match heap.instance_class(i) {
        Some(c) => heap.get_class_method(c, a),
        None => None,
    }
}

/// What `o.a` gives.
pub fn get_attribute(heap: &Heap, o: &PyValue, a: &String) -> (r: Result<PyValue, PyValue>)
    requires
        heap.wf(),
    ensures
        match r {
            Ok(v) => attribute_of(heap@, o.sv(), a@) == Ok::<SVal, SVal>(v.sv()),
            Err(e) => attribute_of(heap@, o.sv(), a@) == Err::<SVal, SVal>(e.sv()),
        },
{
    match o {
        PyValue::Module(_, e) => heap.env_get(*e, a),
        PyValue::Instance(i) => {
            match heap.attr_get(*i, a) {
                Some(v) => {
                    return Ok(v);
                },
                None => {},
            }
            match method_of_instance(heap, *i, a) {
                Some(m) => Ok(PyValue::BoundMethod(Box::new(o.copy()), Box::new(m))),
                None => {
                    let mut msg = "object has no attribute '".to_owned();
                    msg.append(a.as_str());
                    msg.append("'");
                    Err(py_err_string("AttributeError", msg))
                },
            }
        },
        PyValue::Class(c) => match heap.get_class_method(*c, a) {
            Some(m) => Ok(m),
            None => {
                let mut msg = "type object '".to_owned();
                match heap.class_name(*c) {
                    Some(n) => msg.append(n.as_str()),
                    None => {},
                }
                msg.append("' has no attribute '");
                msg.append(a.as_str());
                msg.append("'");
                proof {
                    assert(msg@ =~= "type object '"@ + class_name_of(heap@, *c) + "' has no attribute '"@ + a@ + "'"@);
                }
                Err(py_err_string("AttributeError", msg))
            },
        },
        PyValue::List(_) => Ok(PyValue::Method(Box::new(o.copy()), a.clone())),
        PyValue::Dict(_) => Ok(PyValue::Method(Box::new(o.copy()), a.clone())),
        PyValue::Str(_) => Ok(PyValue::Method(Box::new(o.copy()), a.clone())),
        PyValue::File(_) => Ok(PyValue::Method(Box::new(o.copy()), a.clone())),
        _ => py_err("AttributeError", "object has no attribute"),
    }
}

/// What `o[i]` gives.
pub fn get_item(heap: &Heap, o: &PyValue, i: &PyValue) -> (r: Result<Access, PyValue>)
    requires
        heap.wf(),
    ensures
        match r {
            Ok(x) => item_of(heap@, o.sv(), i.sv()) == Ok::<SAccess, SVal>(access_sv(x)),
            Err(e) => item_of(heap@, o.sv(), i.sv()) == Err::<SAccess, SVal>(e.sv()),
        },
{
    match o {
        PyValue::Tuple(t) => match i {
            PyValue::Int(k) => {
                proof {
                    lemma_vals_view(t@);
                }
                if *k < 0 || *k as u64 >= t.len() as u64 {
                    py_err("IndexError", "tuple index out of range")
                } else {
                    let j = *k as usize;
                    Ok(Access::Value(t[j].copy()))
                }
            },
            _ => py_err("TypeError", "index must be int"),
        },
        PyValue::List(l) => match i {
            PyValue::Int(k) => match heap.list_get(*l, *k) {
                Some(v) => Ok(Access::Value(v)),
                None => py_err("IndexError", "list index out of range"),
            },
            _ => py_err("TypeError", "index must be int"),
        },
        PyValue::Dict(d) => {
            let k = i.as_key()?;
            match heap.dict_get(*d, &k) {
                Some(v) => Ok(Access::Value(v)),
                None => Err(PyValue::Exception("KeyError".to_owned(), Box::new(i.copy()))),
            }
        },
        PyValue::Instance(x) => {
            let name = "__getitem__".to_owned();
            match method_of_instance(heap, *x, &name) {
                Some(m) => Ok(Access::Call(PyValue::BoundMethod(Box::new(o.copy()), Box::new(m)))),
                None => py_err("TypeError", "object is not subscriptable"),
            }
        },
        _ => py_err("TypeError", "object is not subscriptable"),
    }
}

/// Does `o[i] = v`; returns the bound `__setitem__` to call with `i` and
/// `v` when `o` is an instance that defines it.
pub fn set_item(heap: &mut Heap, o: &PyValue, i: &PyValue, v: PyValue) -> (r: Result<Option<PyValue>, PyValue>)
    requires
        old(heap).wf(),
    ensures
        final(heap).wf(),
        match r {
            Ok(c) => store_item(old(heap)@, o.sv(), i.sv(), v.sv()) == Ok::<(HeapView, Option<SVal>), SVal>(
                (final(heap)@, crate::value::opt_sv(c)),
            ),
            Err(e) => store_item(old(heap)@, o.sv(), i.sv(), v.sv()) == Err::<(HeapView, Option<SVal>), SVal>(e.sv())
                && final(heap)@ == old(heap)@,
        },
{
    match o {
        PyValue::List(l) => match i {
            PyValue::Int(k) => {
                if heap.list_set(*l, *k, v) {
                    Ok(None)
                } else {
                    py_err("IndexError", "list assignment index out of range")
                }
            },
            _ => py_err("TypeError", "list indices must be integers"),
        },
        PyValue::Dict(d) => {
            let k = i.as_key()?;
            heap.dict_set(*d, k, v);
            Ok(None)
        },
        PyValue::Tuple(_) => py_err("TypeError", "tuple object does not support item assignment"),
        PyValue::Instance(x) => {
            let name = "__setitem__".to_owned();
            match method_of_instance(heap, *x, &name) {
                Some(m) => Ok(Some(PyValue::BoundMethod(Box::new(o.copy()), Box::new(m)))),
                None => py_err("TypeError", "object does not support item assignment"),
            }
        },
        _ => py_err("TypeError", "object does not support item assignment"),
    }
}

/// Does `o.a = v`: binds the attribute of an instance; nothing else takes one.
pub fn set_attribute(heap: &mut Heap, o: &PyValue, a: String, v: PyValue) -> (r: Result<(), PyValue>)
    requires
        old(heap).wf(),
    ensures
        final(heap).wf(),
        match o.sv() {
            SVal::Instance(i) => r is Ok && final(heap)@ == (if i < old(heap)@.instances.len() {
                HeapView {
                    instances: old(heap)@.instances.update(i as int, crate::heap::InstanceView {
                        class: old(heap)@.instances[i as int].class,
                        attrs: tput(old(heap)@.instances[i as int].attrs, a@, v.sv()),
                    }),
                    ..old(heap)@
                }
            } else {
                old(heap)@
            }),
            _ => r matches Err(e) && e.sv() == exc_sv("AttributeError"@, "cannot assign attribute"@)
                && final(heap)@ == old(heap)@,
        },
{
    match o {
        PyValue::Instance(i) => {
            heap.attr_set(*i, a, v);
            Ok(())
        },
        _ => py_err("AttributeError", "cannot assign attribute"),
    }
}

/// An instance's own attribute hides a method of the same name; a method
/// read through an instance comes bound to it.
pub proof fn law_attribute_lookup_order(h: HeapView, i: usize, a: Seq<char>)
    ensures
        own_attr(h, i, a) matches Some(v) ==> attribute_of(h, SVal::Instance(i), a) == Ok::<SVal, SVal>(v),
        own_attr(h, i, a) is None && instance_method(h, i, a) is Some ==> attribute_of(h, SVal::Instance(i), a)
            == Ok::<SVal, SVal>(SVal::BoundMethod(Box::new(SVal::Instance(i)), Box::new(instance_method(h, i, a)->0))),
{
}

/// Writing an item of a list and reading it back gives what was written.
pub proof fn law_list_item_roundtrip(h: HeapView, l: usize, k: i64, v: SVal)
    requires
        l < h.lists.len(),
        in_bounds(k, h.lists[l as int].len()),
    ensures
        store_item(h, SVal::List(l), SVal::Int(k), v) matches Ok((h2, None))
            && item_of(h2, SVal::List(l), SVal::Int(k)) == Ok::<SAccess, SVal>(SAccess::Value(v)),
{
}

/// Writing a dict entry and reading it back gives what was written.
pub proof fn law_dict_item_roundtrip(h: HeapView, d: usize, key: SVal, v: SVal)
    requires
        d < h.dicts.len(),
        crate::value::key_of(key) is Some,
    ensures
        store_item(h, SVal::Dict(d), key, v) matches Ok((h2, None))
            && item_of(h2, SVal::Dict(d), key) == Ok::<SAccess, SVal>(SAccess::Value(v)),
{
    let k = crate::value::key_of(key)->0;
    crate::table::lemma_tput(h.dicts[d as int], k, v, k);
}

/// What a call of the built-in method `name` of `o` (a list, dict or string)
/// does: the heap after it and the value it returns, or the exception it
/// raises. Methods of files are not among these.
pub open spec fn method_call(h: HeapView, o: SVal, name: Seq<char>, args: Seq<SVal>) -> Result<(HeapView, SVal), SVal> {
    let unknown = Err(exc_sv("AttributeError"@, "unknown method '"@ + name + "'"@));
    match o {
        SVal::List(l) => if name == "append"@ {
            Ok((if l < h.lists.len() {
                HeapView { lists: h.lists.update(l as int, h.lists[l as int].push(args[0])), ..h }
            } else {
                h
            }, SVal::NoneVal))
        } else if name == "pop"@ {
            if l < h.lists.len() && h.lists[l as int].len() > 0 {
                Ok((HeapView { lists: h.lists.update(l as int, h.lists[l as int].drop_last()), ..h }, h.lists[l as int].last()))
            } else {
                Ok((h, SVal::NoneVal))
            }
        } else {
            unknown
        },
        SVal::Dict(d) => {
            let es = if d < h.dicts.len() { h.dicts[d as int] } else { Seq::empty() };
            if name == "keys"@ {
                Ok(new_list(h, es.map_values(|e: (Seq<char>, SVal)| column(e, 0))))
            } else if name == "values"@ {
                Ok(new_list(h, es.map_values(|e: (Seq<char>, SVal)| column(e, 1))))
            } else if name == "items"@ {
                Ok(new_list(h, es.map_values(|e: (Seq<char>, SVal)| column(e, 2))))
            } else if name == "copy"@ {
                Ok((HeapView { dicts: h.dicts.push(es), ..h }, SVal::Dict(h.dicts.len() as usize)))
            } else {
                unknown
            }
        },
        SVal::Str(text) => if name == "split"@ {
            if args.len() == 0 {
                Ok(new_list(h, split_vals(text, " "@)))
            } else {
                match args[0] {
                    SVal::Str(sep) => Ok(new_list(h, split_vals(text, sep))),
                    _ => Err(exc_sv("TypeError"@, "separator must be str"@)),
                }
            }
        } else if name == "join"@ {
            if args.len() == 0 {
                Err(exc_sv("TypeError"@, "join() takes exactly one argument"@))
            } else {
                match args[0] {
                    SVal::List(l) => if l < h.lists.len() && all_strs(h.lists[l as int]) {
                        Ok((h, SVal::Str(crate::rules::join_spec(h.lists[l as int].map_values(|v: SVal| v->Str_0), text))))
                    } else {
                        Err(exc_sv("TypeError"@, "join() expects list of strings"@))
                    },
                    _ => Err(exc_sv("TypeError"@, "join() expects list of strings"@)),
                }
            }
        } else {
            unknown
        },
        _ => unknown,
    }
}

/// What `keys()` (0), `values()` (1) and `items()` (2) hold for a dict entry.
pub open spec fn column(e: (Seq<char>, SVal), which: u8) -> SVal {
    if which == 0 {
        SVal::Str(e.0)
    } else if which == 1 {
        e.1
    } else {
        SVal::Tuple(seq![SVal::Str(e.0), e.1])
    }
}

/// The heap after making a new list of `items`, and that list.
pub open spec fn new_list(h: HeapView, items: Seq<SVal>) -> (HeapView, SVal) {
    (HeapView { lists: h.lists.push(items), ..h }, SVal::List(h.lists.len() as usize))
}

/// The pieces of `text.split(sep)`, as strings.
pub open spec fn split_vals(text: Seq<char>, sep: Seq<char>) -> Seq<SVal> {
    crate::rules::split_spec(text, sep).map_values(|p: Seq<char>| SVal::Str(p))
}

/// Whether every value is a string.
pub open spec fn all_strs(vs: Seq<SVal>) -> bool {
    forall|i: int| 0 <= i < vs.len() ==> #[trigger] vs[i] is Str
}

fn strings_to_vals(ps: Vec<String>) -> (r: Vec<PyValue>)
    ensures
        crate::value::vals_view(r@) == crate::call::strs(ps@).map_values(|p: Seq<char>| SVal::Str(p)),
{
    let mut r: Vec<PyValue> = Vec::new();
    let mut i: usize = 0;
    while i < ps.len()
        invariant
            i <= ps.len(),
            crate::value::vals_view(r@) == crate::call::strs(ps@.subrange(0, i as int)).map_values(|p: Seq<char>| SVal::Str(p)),
        decreases ps.len() - i,
    {
        let v = PyValue::Str(ps[i].clone());
        proof {
            crate::value::lemma_vals_push(r@, v);
        }
        r.push(v);
        proof {
            assert(crate::call::strs(ps@.subrange(0, i + 1)).map_values(|p: Seq<char>| SVal::Str(p))
                =~= crate::call::strs(ps@.subrange(0, i as int)).map_values(|p: Seq<char>| SVal::Str(p)).push(SVal::Str(ps@[i as int]@)));
        }
        i = i + 1;
    }
    proof {
        assert(ps@.subrange(0, ps.len() as int) =~= ps@);
    }
    r
}

fn dict_column(t: &crate::table::Table, which: u8) -> (r: Vec<PyValue>)
    requires
        which < 3,
    ensures
        crate::value::vals_view(r@) == crate::table::tview(t@).map_values(|e: (Seq<char>, SVal)| column(e, which)),
{
    proof {
        crate::table::lemma_tview(t@);
    }
    let ghost tv = crate::table::tview(t@);
    let mut r: Vec<PyValue> = Vec::new();
    let mut i: usize = 0;
    while i < t.len()
        invariant
            i <= t.len(),
            which < 3,
            tv == crate::table::tview(t@),
            tv.len() == t@.len(),
            forall|x: int| 0 <= x < t.len() ==> #[trigger] tv[x] == (t@[x].0@, t@[x].1.sv()),
            crate::value::vals_view(r@) == tv.subrange(0, i as int).map_values(|e: (Seq<char>, SVal)| column(e, which)),
        decreases t.len() - i,
    {
        let v = if which == 0 {
            PyValue::Str(t[i].0.clone())
        } else if which == 1 {
            t[i].1.copy()
        } else {
            let k = PyValue::Str(t[i].0.clone());
            let x = t[i].1.copy();
            let tup = vec![k, x];
            proof {
                crate::value::lemma_vals_view(tup@);
                assert(crate::value::vals_view(tup@) =~= seq![SVal::Str(t@[i as int].0@), t@[i as int].1.sv()]);
            }
            PyValue::Tuple(tup)
        };
        proof {
            crate::value::lemma_vals_push(r@, v);
            assert(tv[i as int] == (t@[i as int].0@, t@[i as int].1.sv()));
            if which == 0 {
                assert(v.sv() == SVal::Str(t@[i as int].0@));
            } else if which == 1 {
                assert(v.sv() == t@[i as int].1.sv());
            } else {
                assert(v.sv() == SVal::Tuple(seq![SVal::Str(t@[i as int].0@), t@[i as int].1.sv()]));
            }
            assert(v.sv() == column(tv[i as int], which));
        }
        r.push(v);
        proof {
            assert(tv.subrange(0, i + 1).map_values(|e: (Seq<char>, SVal)| column(e, which)) =~= tv.subrange(0, i as int).map_values(|e: (Seq<char>, SVal)| column(e, which)).push(column(tv[i as int], which)));
        }
        i = i + 1;
    }
    proof {
        assert(tv.subrange(0, t.len() as int) =~= tv);
    }
    r
}

fn strings_of(vs: &Vec<PyValue>) -> (r: Option<Vec<String>>)
    ensures
        match r {
            Some(ss) => all_strs(crate::value::vals_view(vs@))
                && crate::call::strs(ss@) == crate::value::vals_view(vs@).map_values(|v: SVal| v->Str_0),
            None => !all_strs(crate::value::vals_view(vs@)),
        },
{
    proof {
        crate::value::lemma_vals_view(vs@);
    }
    let ghost vv = crate::value::vals_view(vs@);
    let mut ss: Vec<String> = Vec::new();
    let mut i: usize = 0;
    while i < vs.len()
        invariant
            i <= vs.len(),
            vv == crate::value::vals_view(vs@),
            vv.len() == vs.len(),
            forall|x: int| 0 <= x < vs.len() ==> #[trigger] vv[x] == vs@[x].sv(),
            forall|x: int| 0 <= x < i ==> #[trigger] vv[x] is Str,
            crate::call::strs(ss@) == vv.subrange(0, i as int).map_values(|v: SVal| v->Str_0),
        decreases vs.len() - i,
    {
        match &vs[i] {
            PyValue::Str(x) => {
                let ghost s0 = ss@;
                ss.push(x.clone());
                proof {
                    assert(crate::call::strs(ss@) =~= crate::call::strs(s0).push(x@));
                    assert(vv.subrange(0, i + 1).map_values(|v: SVal| v->Str_0)
                        =~= vv.subrange(0, i as int).map_values(|v: SVal| v->Str_0).push(x@));
                }
            },
            _ => {
                assert(!(vv[i as int] is Str));
                return None;
            },
        }
        i = i + 1;
    }
    proof {
        assert(vv.subrange(0, vs.len() as int) =~= vv);
    }
    Some(ss)
}

/// Calls the built-in method `name` of `o`, a list, dict or string; `None`
/// for a file, whose methods are input and output.
pub fn call_builtin_method(heap: &mut Heap, o: &PyValue, name: &String, args: &Vec<PyValue>) -> (r: Option<Result<PyValue, PyValue>>)
    requires
        old(heap).wf(),
        o is List && name@ == "append"@ ==> args.len() > 0,
    ensures
        final(heap).wf(),
        match r {
            None => o is File && final(heap)@ == old(heap)@,
            Some(Ok(v)) => !(o is File) && method_call(old(heap)@, o.sv(), name@, crate::value::vals_view(args@))
                == Ok::<(HeapView, SVal), SVal>((final(heap)@, v.sv())),
            Some(Err(e)) => !(o is File) && method_call(old(heap)@, o.sv(), name@, crate::value::vals_view(args@))
                == Err::<(HeapView, SVal), SVal>(e.sv()) && final(heap)@ == old(heap)@,
        },
{
    proof {
        crate::value::lemma_vals_view(args@);
    }
    let unknown = {
        let mut m = "unknown method '".to_owned();
        m.append(name.as_str());
        m.append("'");
        py_err_string("AttributeError", m)
    };
    let append = "append".to_owned();
    let pop = "pop".to_owned();
    let keys = "keys".to_owned();
    let values = "values".to_owned();
    let items = "items".to_owned();
    let copy = "copy".to_owned();
    let split = "split".to_owned();
    let join = "join".to_owned();
    match o {
        PyValue::File(_) => None,
        PyValue::List(l) => {
            if *name == append {
                heap.list_push(*l, args[0].copy());
                Some(Ok(PyValue::NoneVal))
            } else if *name == pop {
                match heap.list_pop(*l) {
                    Some(v) => Some(Ok(v)),
                    None => Some(Ok(PyValue::NoneVal)),
                }
            } else {
                Some(Err(unknown))
            }
        },
        PyValue::Dict(d) => {
            let t = heap.dict_entries(*d);
            if *name == keys {
                let h = heap.list_new(dict_column(&t, 0));
                Some(Ok(PyValue::List(h)))
            } else if *name == values {
                let h = heap.list_new(dict_column(&t, 1));
                Some(Ok(PyValue::List(h)))
            } else if *name == items {
                let h = heap.list_new(dict_column(&t, 2));
                Some(Ok(PyValue::List(h)))
            } else if *name == copy {
                let h = heap.dict_new(t);
                Some(Ok(PyValue::Dict(h)))
            } else {
                Some(Err(unknown))
            }
        },
        PyValue::Str(text) => {
            if *name == split {
                let sep = if args.len() == 0 {
                    " ".to_owned()
                } else {
                    match &args[0] {
                        PyValue::Str(x) => x.clone(),
                        _ => {
                            return Some(py_err("TypeError", "separator must be str"));
                        },
                    }
                };
                let pieces = crate::rules::split_text(text, &sep);
                let h = heap.list_new(strings_to_vals(pieces));
                Some(Ok(PyValue::List(h)))
            } else if *name == join {
                if args.len() == 0 {
                    return Some(py_err("TypeError", "join() takes exactly one argument"));
                }
                match &args[0] {
                    PyValue::List(l) => {
                        let vs = heap.list_items(*l);
                        match strings_of(&vs) {
                            Some(ss) => {
                                if *l < heap.list_len_all() {
                                    Some(Ok(PyValue::Str(crate::rules::join_text(text, &ss))))
                                } else {
                                    Some(py_err("TypeError", "join() expects list of strings"))
                                }
                            },
                            None => Some(py_err("TypeError", "join() expects list of strings")),
                        }
                    },
                    _ => Some(py_err("TypeError", "join() expects list of strings")),
                }
            } else {
                Some(Err(unknown))
            }
        },
        _ => Some(Err(unknown)),
    }
}

/// What `isinstance(obj, cls)` gives: whether `obj` is an instance of a class
/// that is `cls` or derives from it (going by class names), or the
/// `TypeError` when `cls` is not a class.
pub open spec fn isinstance_of(h: HeapView, obj: SVal, cls: SVal) -> Result<bool, SVal> {
    match cls {
        SVal::Class(c) => match obj {
            SVal::Instance(i) => Ok(i < h.instances.len()
                && h.descends(h.instances[i as int].class as int, class_name_of(h, c))),
            _ => Ok(false),
        },
        _ => Err(exc_sv("TypeError"@, "isinstance() arg 2 must be a type"@)),
    }
}

/// `isinstance(obj, cls)`.
pub fn is_instance(heap: &Heap, obj: &PyValue, cls: &PyValue) -> (r: Result<bool, PyValue>)
    requires
        heap.wf(),
    ensures
        match r {
            Ok(b) => isinstance_of(heap@, obj.sv(), cls.sv()) == Ok::<bool, SVal>(b),
            Err(e) => isinstance_of(heap@, obj.sv(), cls.sv()) == Err::<bool, SVal>(e.sv()),
        },
{
    match cls {
        PyValue::Class(c) => {
            let target = match heap.class_name(*c) {
                Some(n) => n,
                None => String::new(),
            };
            match obj {
                PyValue::Instance(i) => match heap.instance_class(*i) {
                    Some(k) => Ok(heap.class_descends(k, &target)),
                    None => Ok(false),
                },
                _ => Ok(false),
            }
        },
        _ => py_err("TypeError", "isinstance() arg 2 must be a type"),
    }
}

/// An attribute bound on an instance reads back as bound, whatever its class
/// defines.
pub proof fn law_attribute_roundtrip(h: HeapView, i: usize, a: Seq<char>, v: SVal)
    requires
        i < h.instances.len(),
    ensures
        ({
            let h2 = HeapView {
                instances: h.instances.update(i as int, crate::heap::InstanceView {
                    class: h.instances[i as int].class,
                    attrs: tput(h.instances[i as int].attrs, a, v),
                }),
                ..h
            };
            attribute_of(h2, SVal::Instance(i), a) == Ok::<SVal, SVal>(v)
        }),
{
    crate::table::lemma_tput(h.instances[i as int].attrs, a, v, a);
}


/// What `len(v)` gives: the length in bytes of a string's UTF-8 text, the
/// number of items of a list, tuple or dict.
pub open spec fn len_of(h: HeapView, v: SVal) -> Result<SVal, SVal> {
    match v {
        SVal::Str(s) => Ok(SVal::Int((vstd::utf8::encode_utf8(s).len() as usize) as i64)),
        SVal::List(l) => Ok(SVal::Int((if l < h.lists.len() { h.lists[l as int].len() } else { 0 }) as i64)),
        SVal::Tuple(t) => Ok(SVal::Int(t.len() as i64)),
        SVal::Dict(d) => Ok(SVal::Int((if d < h.dicts.len() { h.dicts[d as int].len() } else { 0 }) as i64)),
        _ => Err(exc_sv("TypeError"@, "object has no len()"@)),
    }
}

/// `len(v)`.
pub fn py_len(heap: &Heap, v: &PyValue) -> (r: Result<PyValue, PyValue>)
    ensures
        match r {
            Ok(x) => len_of(heap@, v.sv()) == Ok::<SVal, SVal>(x.sv()),
            Err(e) => len_of(heap@, v.sv()) == Err::<SVal, SVal>(e.sv()),
        },
{
    match v {
        PyValue::Str(s) => Ok(PyValue::Int(s.as_str().len() as i64)),
        PyValue::List(l) => Ok(PyValue::Int(heap.list_len(*l) as i64)),
        PyValue::Tuple(t) => {
            proof {
                lemma_vals_view(t@);
            }
            Ok(PyValue::Int(t.len() as i64))
        },
        PyValue::Dict(d) => Ok(PyValue::Int(heap.dict_len(*d) as i64)),
        _ => py_err("TypeError", "object has no len()"),
    }
}


/// The list a method call without arguments makes, as it stands in the heap
/// after the call.
pub open spec fn made_list(h: HeapView, o: SVal, name: Seq<char>) -> Seq<SVal> {
    match method_call(h, o, name, Seq::empty()) {
        Ok((h2, SVal::List(l))) => if l < h2.lists.len() { h2.lists[l as int] } else { Seq::empty() },
        _ => Seq::empty(),
    }
}

/// `keys()`, `values()` and `items()` of a dict agree position by position:
/// each has one item per entry, in the order the keys were first written;
/// the `i`-th key, a string, indexes the dict to the `i`-th value; and the
/// `i`-th item is the pair of the two.
/// (Keys are distinct in every dict built by writes.)
pub proof fn law_dict_views_agree(h: HeapView, d: usize)
    requires
        d < h.dicts.len(),
        h.lists.len() < usize::MAX,
        crate::table::keys_distinct(h.dicts[d as int]),
    ensures
        ({
            let ks = made_list(h, SVal::Dict(d), "keys"@);
            let vs = made_list(h, SVal::Dict(d), "values"@);
            let its = made_list(h, SVal::Dict(d), "items"@);
            &&& ks.len() == h.dicts[d as int].len()
            &&& vs.len() == ks.len()
            &&& its.len() == ks.len()
            &&& forall|i: int| 0 <= i < ks.len() ==> {
                &&& #[trigger] ks[i] == SVal::Str(h.dicts[d as int][i].0)
                &&& item_of(h, SVal::Dict(d), ks[i]) == Ok::<SAccess, SVal>(SAccess::Value(vs[i]))
                &&& its[i] == SVal::Tuple(seq![ks[i], vs[i]])
            }
        }),
{
    reveal_strlit("keys");
    reveal_strlit("values");
    reveal_strlit("items");
    assert("keys"@.len() == 4 && "values"@.len() == 6 && "items"@.len() == 5);
    assert("keys"@[0] == 'k' && "items"@[0] == 'i');
    let es = h.dicts[d as int];
    let ks = made_list(h, SVal::Dict(d), "keys"@);
    let vs = made_list(h, SVal::Dict(d), "values"@);
    let its = made_list(h, SVal::Dict(d), "items"@);
    assert(method_call(h, SVal::Dict(d), "keys"@, Seq::empty())
        == Ok::<(HeapView, SVal), SVal>(new_list(h, es.map_values(|e: (Seq<char>, SVal)| column(e, 0)))));
    assert(ks == es.map_values(|e: (Seq<char>, SVal)| column(e, 0)));
    assert(vs == es.map_values(|e: (Seq<char>, SVal)| column(e, 1)));
    assert(its == es.map_values(|e: (Seq<char>, SVal)| column(e, 2)));
    assert forall|i: int| 0 <= i < ks.len() implies {
        &&& #[trigger] ks[i] == SVal::Str(h.dicts[d as int][i].0)
        &&& item_of(h, SVal::Dict(d), ks[i]) == Ok::<SAccess, SVal>(SAccess::Value(vs[i]))
        &&& its[i] == SVal::Tuple(seq![ks[i], vs[i]])
    } by {
        crate::table::lemma_tfind_own_key(es, i);
        assert(ks[i] == SVal::Str(es[i].0));
        assert(vs[i] == es[i].1);
    }
}

} // verus!
