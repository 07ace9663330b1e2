//! The builtin functions that compute on plain values: `len`, `range`,
//! `type`, `isinstance`, and the exception types. (`print` and `open` do
//! input and output, and `str` needs the text of a value, so they are left
//! to the caller.)
use vstd::prelude::*;
use crate::heap::{Heap, HeapView};
use crate::objects::{is_instance, isinstance_of, len_of, py_len};
use crate::rules::{range_items, range_vals};
use crate::value::{exc_sv, py_err, PyValue, SVal};

verus! {

/// Whether `n` names one of the exception types.
pub open spec fn is_exception_name(n: Seq<char>) -> bool {
    ||| n == "Exception"@
    ||| n == "TypeError"@
    ||| n == "ValueError"@
    ||| n == "NameError"@
    ||| n == "IndexError"@
    ||| n == "AttributeError"@
    ||| n == "KeyError"@
    ||| n == "IOError"@
    ||| n == "ImportError"@
    ||| n == "ZeroDivisionError"@
    ||| n == "SyntaxError"@
}

/// What calling the builtin `name` with `args` gives: the heap after it and
/// the result, or the exception; `None` for a name this module does not do.
pub open spec fn builtin_spec(h: HeapView, name: Seq<char>, args: Seq<SVal>) -> Option<Result<(HeapView, SVal), SVal>> {
    if name == "len"@ {
        Some(if args.len() == 0 {
            Err(exc_sv("TypeError"@, "len() takes exactly one argument (0 given)"@))
        } else {
            match len_of(h, args[0]) {
                Ok(v) => Ok((h, v)),
                Err(e) => Err(e),
            }
        })
    } else if name == "range"@ {
        Some(if args.len() == 0 {
            Err(exc_sv("TypeError"@, "range expected 1 argument, got 0"@))
        } else {
            match args[0] {
                SVal::Int(end) => Ok((
                    HeapView { lists: h.lists.push(range_vals(end)), ..h },
                    SVal::List(h.lists.len() as usize),
                )),
                _ => Err(exc_sv("TypeError"@, "range() integer argument expected"@)),
            }
        })
    } else if name == "type"@ {
        Some(if args.len() != 1 {
            Err(exc_sv("TypeError"@, "type() takes 1 argument"@))
        } else {
            Ok((h, SVal::Str("<class '"@ + h.type_label(args[0]) + "'>"@)))
        })
    } else if name == "isinstance"@ {
        Some(if args.len() != 2 {
            Err(exc_sv("TypeError"@, "isinstance expected 2 arguments"@))
        } else {
            match isinstance_of(h, args[0], args[1]) {
                Ok(b) => Ok((h, SVal::Bool(b))),
                Err(e) => Err(e),
            }
        })
    } else if is_exception_name(name) {
        Some(Ok((h, SVal::Exception(name, Box::new(if args.len() > 0 { args[0] } else { SVal::NoneVal })))))
    } else {
        None
    }
}

fn is_named(name: &String, s: &str) -> (r: bool)
    ensures
        r == (name@ == s@),
{
    let t = s.to_owned();
    *name == t
}

fn exception_name(name: &String) -> (r: bool)
    ensures
        r == is_exception_name(name@),
{
    is_named(name, "Exception") || is_named(name, "TypeError") || is_named(name, "ValueError")
        || is_named(name, "NameError") || is_named(name, "IndexError") || is_named(name, "AttributeError")
        || is_named(name, "KeyError") || is_named(name, "IOError") || is_named(name, "ImportError")
        || is_named(name, "ZeroDivisionError") || is_named(name, "SyntaxError")
}

/// Calls the builtin `name` with `args`, when it is one of those this
/// module does; `None` otherwise, with the heap untouched.
pub fn builtin_call(heap: &mut Heap, name: &String, args: &Vec<PyValue>) -> (r: Option<Result<PyValue, PyValue>>)
    requires
        old(heap).wf(),
    ensures
        final(heap).wf(),
        match r {
            None => builtin_spec(old(heap)@, name@, crate::value::vals_view(args@)) is None && final(heap)@ == old(heap)@,
            Some(Ok(v)) => builtin_spec(old(heap)@, name@, crate::value::vals_view(args@))
                == Some(Ok::<(HeapView, SVal), SVal>((final(heap)@, v.sv()))),
            Some(Err(e)) => builtin_spec(old(heap)@, name@, crate::value::vals_view(args@))
                == Some(Err::<(HeapView, SVal), SVal>(e.sv())) && final(heap)@ == old(heap)@,
        },
{
    proof {
        crate::machine::lemma_vals_index(args@);
    }
    if is_named(name, "len") {
        if args.len() == 0 {
            return Some(py_err("TypeError", "len() takes exactly one argument (0 given)"));
        }
        return Some(py_len(heap, &args[0]));
    }
    if is_named(name, "range") {
        if args.len() == 0 {
            return Some(py_err("TypeError", "range expected 1 argument, got 0"));
        }
        return match args[0] {
            PyValue::Int(end) => {
                let l = heap.list_new(range_items(end));
                Some(Ok(PyValue::List(l)))
            },
            _ => Some(py_err("TypeError", "range() integer argument expected")),
        };
    }
    if is_named(name, "type") {
        if args.len() != 1 {
            return Some(py_err("TypeError", "type() takes 1 argument"));
        }
        let mut s = "<class '".to_owned();
        let t = args[0].type_label(heap);
        s.append(t.as_str());
        s.append("'>");
        return Some(Ok(PyValue::Str(s)));
    }
    if is_named(name, "isinstance") {
        if args.len() != 2 {
            return Some(py_err("TypeError", "isinstance expected 2 arguments"));
        }
        return match is_instance(heap, &args[0], &args[1]) {
            Ok(b) => Some(Ok(PyValue::Bool(b))),
            Err(e) => Some(Err(e)),
        };
    }
    if exception_name(name) {
        let arg = if args.len() > 0 { args[0].copy() } else { PyValue::NoneVal };
        return Some(Ok(PyValue::Exception(name.clone(), Box::new(arg))));
    }
    None
}


/// What `type(v)` gives, as a one-argument call of the builtin.
pub open spec fn type_result(h: HeapView, v: SVal) -> Option<Result<(HeapView, SVal), SVal>> {
    builtin_spec(h, "type"@, seq![v])
}

/// The built-in kinds of value that `type()` names by a fixed word: a
/// number for each, told apart by the value's variant alone.
pub open spec fn builtin_kind(v: SVal) -> Option<int> {
    match v {
        SVal::Int(_) => Some(0),
        SVal::Float(_) => Some(1),
        SVal::Str(_) => Some(2),
        SVal::Bool(_) => Some(3),
        SVal::List(_) => Some(4),
        SVal::Dict(_) => Some(5),
        SVal::Tuple(_) => Some(6),
        SVal::NoneVal => Some(7),
        SVal::Class(_) => Some(8),
        _ => None,
    }
}

proof fn lemma_type_result(h: HeapView, v: SVal)
    ensures
        type_result(h, v) == Some(Ok::<(HeapView, SVal), SVal>((h, SVal::Str("<class '"@ + h.type_label(v) + "'>"@)))),
{
    reveal_strlit("type");
    reveal_strlit("len");
    reveal_strlit("range");
    assert("type"@.len() == 4 && "len"@.len() == 3 && "range"@.len() == 5);
    assert(seq![v].len() == 1);
    assert(seq![v][0] == v);
}

/// What `type()` answers for a type named `n`.
pub open spec fn class_word(n: Seq<char>) -> Seq<char> {
    "<class '"@ + n + "'>"@
}

/// `type(v)` names Python's type of `v`: `int`, `float`, `str`, `bool`,
/// `list`, `dict`, `tuple`, `NoneType`, `type` for a class, and the name of
/// its class for an instance; it changes nothing in the heap.
pub proof fn law_type_names(h: HeapView, v: SVal)
    ensures
        v is Int ==> type_result(h, v) == Some(Ok::<(HeapView, SVal), SVal>((h, SVal::Str(class_word("int"@))))),
        v is Float ==> type_result(h, v) == Some(Ok::<(HeapView, SVal), SVal>((h, SVal::Str(class_word("float"@))))),
        v is Str ==> type_result(h, v) == Some(Ok::<(HeapView, SVal), SVal>((h, SVal::Str(class_word("str"@))))),
        v is Bool ==> type_result(h, v) == Some(Ok::<(HeapView, SVal), SVal>((h, SVal::Str(class_word("bool"@))))),
        v is List ==> type_result(h, v) == Some(Ok::<(HeapView, SVal), SVal>((h, SVal::Str(class_word("list"@))))),
        v is Dict ==> type_result(h, v) == Some(Ok::<(HeapView, SVal), SVal>((h, SVal::Str(class_word("dict"@))))),
        v is Tuple ==> type_result(h, v) == Some(Ok::<(HeapView, SVal), SVal>((h, SVal::Str(class_word("tuple"@))))),
        v is NoneVal ==> type_result(h, v) == Some(Ok::<(HeapView, SVal), SVal>((h, SVal::Str(class_word("NoneType"@))))),
        v is Class ==> type_result(h, v) == Some(Ok::<(HeapView, SVal), SVal>((h, SVal::Str(class_word("type"@))))),
        v matches SVal::Instance(i) && i < h.instances.len() && h.instances[i as int].class < h.classes.len()
            ==> type_result(h, v) == Some(Ok::<(HeapView, SVal), SVal>((
                h,
                SVal::Str(class_word(h.classes[h.instances[v->Instance_0 as int].class as int].name)),
            ))),
{
    lemma_type_result(h, v);
    let t = h.type_label(v);
    match v {
        SVal::Int(_) => {
            reveal_strlit("int");
        },
        SVal::Float(_) => {
            reveal_strlit("float");
        },
        SVal::Str(_) => {
            reveal_strlit("str");
        },
        SVal::Bool(_) => {
            reveal_strlit("bool");
        },
        SVal::List(_) => {
            reveal_strlit("list");
        },
        SVal::Dict(_) => {
            reveal_strlit("dict");
        },
        SVal::Tuple(_) => {
            reveal_strlit("tuple");
        },
        SVal::NoneVal => {
            reveal_strlit("NoneType");
        },
        SVal::Class(_) => {
            reveal_strlit("type");
        },
        _ => {},
    }
}

/// The length and first letter of the name `type()` gives a value of each
/// built-in kind: no two kinds agree on both.
spec fn kind_sig(k: int) -> (int, char) {
    if k == 0 { (3, 'i') }
    else if k == 1 { (5, 'f') }
    else if k == 2 { (3, 's') }
    else if k == 3 { (4, 'b') }
    else if k == 4 { (4, 'l') }
    else if k == 5 { (4, 'd') }
    else if k == 6 { (5, 't') }
    else if k == 7 { (8, 'N') }
    else { (4, 't') }
}

proof fn lemma_label_sig(h: HeapView, v: SVal)
    requires
        builtin_kind(v) is Some,
    ensures
        h.type_label(v).len() == kind_sig(builtin_kind(v)->0).0,
        h.type_label(v)[0] == kind_sig(builtin_kind(v)->0).1,
{
    match v {
        SVal::Int(_) => reveal_strlit("int"),
        SVal::Float(_) => reveal_strlit("float"),
        SVal::Str(_) => reveal_strlit("str"),
        SVal::Bool(_) => reveal_strlit("bool"),
        SVal::List(_) => reveal_strlit("list"),
        SVal::Dict(_) => reveal_strlit("dict"),
        SVal::Tuple(_) => reveal_strlit("tuple"),
        SVal::NoneVal => reveal_strlit("NoneType"),
        SVal::Class(_) => reveal_strlit("type"),
        _ => {},
    }
}

/// Values of different built-in kinds (a list and a tuple, say) get
/// different answers from `type()`.
pub proof fn law_type_tells_kinds_apart(h: HeapView, v: SVal, w: SVal)
    requires
        builtin_kind(v) is Some,
        builtin_kind(w) is Some,
        builtin_kind(v) != builtin_kind(w),
    ensures
        type_result(h, v) != type_result(h, w),
{
    lemma_type_result(h, v);
    lemma_type_result(h, w);
    lemma_label_sig(h, v);
    lemma_label_sig(h, w);
    reveal_strlit("<class '");
    reveal_strlit("'>");
    let tv = h.type_label(v);
    let tw = h.type_label(w);
    let sv = "<class '"@ + tv + "'>"@;
    let sw = "<class '"@ + tw + "'>"@;
    if sv == sw {
        assert(sv.len() == tv.len() + 10);
        assert(sv[8] == tv[0]);
        assert(sw[8] == tw[0]);
        assert(false);
    }
}

} // verus!
