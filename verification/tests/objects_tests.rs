use py5::heap::Heap;
use py5::objects::{call_builtin_method, get_attribute, get_item, set_attribute, set_item, Access};
use py5::table::Table;
use py5::value::PyValue;

fn s(x: &str) -> String {
    x.to_string()
}

fn exc(v: &PyValue) -> (String, String) {
    match v {
        PyValue::Exception(t, a) => match &**a {
            PyValue::Str(m) => (t.clone(), m.clone()),
            other => (t.clone(), format!("{:?}", other)),
        },
        other => panic!("not an exception: {:?}", other),
    }
}

fn value(a: Access) -> PyValue {
    match a {
        Access::Value(v) => v,
        Access::Call(_) => panic!("expected a value"),
    }
}

#[test]
fn instance_attribute_before_method() {
    let mut heap = Heap::new();
    let mut m: Table = Vec::new();
    m.push((s("f"), PyValue::Function(0)));
    let c = heap.class_new(s("C"), None, m);
    let i = heap.instance_new(c);
    let obj = PyValue::Instance(i);
    match get_attribute(&heap, &obj, &s("f")).unwrap() {
        PyValue::BoundMethod(r, f) => {
            assert!(matches!(*r, PyValue::Instance(x) if x == i));
            assert!(matches!(*f, PyValue::Function(0)));
        }
        other => panic!("expected a bound method, got {:?}", other),
    }
    set_attribute(&mut heap, &obj, s("f"), PyValue::Int(3)).unwrap();
    assert!(matches!(get_attribute(&heap, &obj, &s("f")).unwrap(), PyValue::Int(3)));
    let e = get_attribute(&heap, &obj, &s("g")).unwrap_err();
    assert_eq!(exc(&e), (s("AttributeError"), s("object has no attribute 'g'")));
}

#[test]
fn class_and_module_attributes() {
    let mut heap = Heap::new();
    let c = heap.class_new(s("K"), None, Vec::new());
    let e = get_attribute(&heap, &PyValue::Class(c), &s("x")).unwrap_err();
    assert_eq!(exc(&e), (s("AttributeError"), s("type object 'K' has no attribute 'x'")));
    let env = heap.env_new(None);
    heap.env_set(env, s("pi"), PyValue::Int(3));
    let m = PyValue::Module(s("math"), env);
    assert!(matches!(get_attribute(&heap, &m, &s("pi")).unwrap(), PyValue::Int(3)));
    let e = get_attribute(&heap, &m, &s("tau")).unwrap_err();
    assert_eq!(exc(&e), (s("NameError"), s("name 'tau' is not defined")));
    let l = heap.list_new(vec![]);
    assert!(matches!(get_attribute(&heap, &PyValue::List(l), &s("append")).unwrap(), PyValue::Method(_, n) if n == "append"));
    let e = get_attribute(&heap, &PyValue::Int(1), &s("x")).unwrap_err();
    assert_eq!(exc(&e), (s("AttributeError"), s("object has no attribute")));
    let e = set_attribute(&mut heap, &PyValue::Int(1), s("x"), PyValue::NoneVal).unwrap_err();
    assert_eq!(exc(&e), (s("AttributeError"), s("cannot assign attribute")));
}

#[test]
fn items_of_tuples_lists_and_dicts() {
    let mut heap = Heap::new();
    let t = PyValue::Tuple(vec![PyValue::Int(5), PyValue::Int(6)]);
    assert!(matches!(value(get_item(&heap, &t, &PyValue::Int(1)).unwrap()), PyValue::Int(6)));
    let e = get_item(&heap, &t, &PyValue::Int(2)).unwrap_err();
    assert_eq!(exc(&e), (s("IndexError"), s("tuple index out of range")));
    let l = PyValue::List(heap.list_new(vec![PyValue::Int(1)]));
    let e = get_item(&heap, &l, &PyValue::Int(-1)).unwrap_err();
    assert_eq!(exc(&e), (s("IndexError"), s("list index out of range")));
    let e = get_item(&heap, &l, &PyValue::Str(s("0"))).unwrap_err();
    assert_eq!(exc(&e), (s("TypeError"), s("index must be int")));
    assert!(set_item(&mut heap, &l, &PyValue::Int(0), PyValue::Int(9)).unwrap().is_none());
    assert!(matches!(value(get_item(&heap, &l, &PyValue::Int(0)).unwrap()), PyValue::Int(9)));
    let e = set_item(&mut heap, &l, &PyValue::Int(4), PyValue::Int(9)).unwrap_err();
    assert_eq!(exc(&e), (s("IndexError"), s("list assignment index out of range")));
    let d = PyValue::Dict(heap.dict_new(Vec::new()));
    set_item(&mut heap, &d, &PyValue::Int(7), PyValue::Str(s("seven"))).unwrap();
    assert!(matches!(value(get_item(&heap, &d, &PyValue::Str(s("7"))).unwrap()), PyValue::Str(x) if x == "seven"));
    match get_item(&heap, &d, &PyValue::Str(s("8"))) {
        Err(PyValue::Exception(t, k)) => {
            assert_eq!(t, "KeyError");
            assert!(matches!(*k, PyValue::Str(x) if x == "8"));
        }
        _ => panic!("expected a KeyError"),
    }
    let e = set_item(&mut heap, &t, &PyValue::Int(0), PyValue::Int(1)).unwrap_err();
    assert_eq!(exc(&e), (s("TypeError"), s("tuple object does not support item assignment")));
}

#[test]
fn instances_with_item_methods_are_called() {
    let mut heap = Heap::new();
    let mut m: Table = Vec::new();
    m.push((s("__getitem__"), PyValue::Function(1)));
    m.push((s("__setitem__"), PyValue::Function(2)));
    let c = heap.class_new(s("Box"), None, m);
    let obj = PyValue::Instance(heap.instance_new(c));
    assert!(matches!(get_item(&heap, &obj, &PyValue::Int(0)).unwrap(), Access::Call(PyValue::BoundMethod(_, f)) if matches!(*f, PyValue::Function(1))));
    assert!(matches!(set_item(&mut heap, &obj, &PyValue::Int(0), PyValue::Int(1)).unwrap(), Some(PyValue::BoundMethod(_, f)) if matches!(*f, PyValue::Function(2))));
    let pc = heap.class_new(s("P"), None, Vec::new());
    let plain = PyValue::Instance(heap.instance_new(pc));
    let e = get_item(&heap, &plain, &PyValue::Int(0)).unwrap_err();
    assert_eq!(exc(&e), (s("TypeError"), s("object is not subscriptable")));
}

#[test]
fn list_dict_and_string_methods() {
    let mut heap = Heap::new();
    let l = PyValue::List(heap.list_new(vec![]));
    assert!(matches!(call_builtin_method(&mut heap, &l, &s("append"), &vec![PyValue::Int(4)]), Some(Ok(PyValue::NoneVal))));
    assert!(matches!(call_builtin_method(&mut heap, &l, &s("pop"), &vec![]), Some(Ok(PyValue::Int(4)))));
    assert!(matches!(call_builtin_method(&mut heap, &l, &s("pop"), &vec![]), Some(Ok(PyValue::NoneVal))));
    match call_builtin_method(&mut heap, &l, &s("sort"), &vec![]) {
        Some(Err(e)) => assert_eq!(exc(&e), (s("AttributeError"), s("unknown method 'sort'"))),
        _ => panic!("expected an error"),
    }

    let mut t: Table = Vec::new();
    t.push((s("a"), PyValue::Int(1)));
    t.push((s("b"), PyValue::Int(2)));
    let d = PyValue::Dict(heap.dict_new(t));
    let keys = match call_builtin_method(&mut heap, &d, &s("keys"), &vec![]) {
        Some(Ok(PyValue::List(h))) => heap.list_items(h),
        _ => panic!("expected a list"),
    };
    assert!(matches!(&keys[..], [PyValue::Str(a), PyValue::Str(b)] if a == "a" && b == "b"));
    let items = match call_builtin_method(&mut heap, &d, &s("items"), &vec![]) {
        Some(Ok(PyValue::List(h))) => heap.list_items(h),
        _ => panic!("expected a list"),
    };
    assert!(matches!(&items[1], PyValue::Tuple(p) if matches!(&p[..], [PyValue::Str(k), PyValue::Int(2)] if k == "b")));
    let copy = match call_builtin_method(&mut heap, &d, &s("copy"), &vec![]) {
        Some(Ok(PyValue::Dict(h))) => h,
        _ => panic!("expected a dict"),
    };
    heap.dict_set(copy, s("c"), PyValue::Int(3));
    assert_eq!(heap.dict_len(copy), 3);
    if let PyValue::Dict(h) = d {
        assert_eq!(heap.dict_len(h), 2);
    }

    let text = PyValue::Str(s("a b c"));
    let parts = match call_builtin_method(&mut heap, &text, &s("split"), &vec![]) {
        Some(Ok(PyValue::List(h))) => heap.list_items(h),
        _ => panic!("expected a list"),
    };
    assert_eq!(parts.len(), 3);
    let words = PyValue::List(heap.list_new(vec![PyValue::Str(s("x")), PyValue::Str(s("y"))]));
    assert!(matches!(call_builtin_method(&mut heap, &PyValue::Str(s("-")), &s("join"), &vec![words]), Some(Ok(PyValue::Str(j))) if j == "x-y"));
    let mixed = PyValue::List(heap.list_new(vec![PyValue::Int(1)]));
    match call_builtin_method(&mut heap, &PyValue::Str(s("-")), &s("join"), &vec![mixed]) {
        Some(Err(e)) => assert_eq!(exc(&e), (s("TypeError"), s("join() expects list of strings"))),
        _ => panic!("expected an error"),
    }
    assert!(call_builtin_method(&mut heap, &PyValue::File(0), &s("read"), &vec![]).is_none());
}

#[test]
fn len_counts_bytes_items_and_entries() {
    let mut heap = Heap::new();
    let l = PyValue::List(heap.list_new(vec![PyValue::Int(1), PyValue::Int(2)]));
    let mut t: Table = Vec::new();
    t.push(("k".to_string(), PyValue::Int(1)));
    let d = PyValue::Dict(heap.dict_new(t));
    let n = |v: &PyValue| match py5::objects::py_len(&heap, v) {
        Ok(PyValue::Int(i)) => i,
        other => panic!("unexpected {:?}", other),
    };
    assert_eq!(n(&PyValue::Str("héllo".to_string())), 6);
    assert_eq!(n(&l), 2);
    assert_eq!(n(&PyValue::Tuple(vec![PyValue::NoneVal])), 1);
    assert_eq!(n(&d), 1);
    assert!(py5::objects::py_len(&heap, &PyValue::Int(3)).is_err());
}
