use py5::heap::Heap;
use py5::table::Table;
use py5::value::{float_equal, float_zero, int_to_string, py_err, py_err_val, PyValue};

fn s(x: &str) -> String {
    x.to_string()
}

fn str_val(x: &str) -> PyValue {
    PyValue::Str(x.to_string())
}

fn is_int(v: &PyValue, n: i64) -> bool {
    matches!(v, PyValue::Int(m) if *m == n)
}

fn exc_parts(v: &PyValue) -> (String, String) {
    match v {
        PyValue::Exception(t, a) => match &**a {
            PyValue::Str(m) => (t.clone(), m.clone()),
            other => panic!("exception argument is not a string: {:?}", other),
        },
        other => panic!("not an exception: {:?}", other),
    }
}

fn env_with_vars(heap: &mut Heap, vars: Vec<(&str, PyValue)>) -> usize {
    let env = heap.env_new(None);
    for (name, val) in vars {
        heap.env_set(env, s(name), val);
    }
    env
}

#[test]
fn test_py_value_partial_eq() {
    assert!(PyValue::NoneVal.py_eq(&PyValue::NoneVal));
    assert!(PyValue::Bool(true).py_eq(&PyValue::Bool(true)));
    assert!(PyValue::Bool(false).py_eq(&PyValue::Bool(false)));
    assert!(PyValue::Int(42).py_eq(&PyValue::Int(42)));
    assert!(PyValue::Float(3.14f64.to_bits()).py_eq(&PyValue::Float(3.14f64.to_bits())));
    assert!(str_val("hello").py_eq(&str_val("hello")));
}

#[test]
fn test_py_value_partial_eq_different_types() {
    assert!(!PyValue::Int(42).py_eq(&PyValue::Int(43)));
    assert!(!PyValue::Int(42).py_eq(&PyValue::Float(42.0f64.to_bits())));
    assert!(!str_val("42").py_eq(&PyValue::Int(42)));
}

#[test]
fn test_py_value_is_truthy() {
    let heap = Heap::new();
    assert!(!PyValue::NoneVal.is_truthy(&heap));
    assert!(PyValue::Bool(true).is_truthy(&heap));
    assert!(!PyValue::Bool(false).is_truthy(&heap));
    assert!(PyValue::Int(1).is_truthy(&heap));
    assert!(!PyValue::Int(0).is_truthy(&heap));
    assert!(PyValue::Float(1.0f64.to_bits()).is_truthy(&heap));
    assert!(!PyValue::Float(0.0f64.to_bits()).is_truthy(&heap));
    assert!(str_val("hello").is_truthy(&heap));
    assert!(!str_val("").is_truthy(&heap));
}

#[test]
fn test_py_value_is_truthy_tuple() {
    let heap = Heap::new();
    assert!(!PyValue::Tuple(vec![]).is_truthy(&heap));
    assert!(PyValue::Tuple(vec![PyValue::Int(1)]).is_truthy(&heap));
}

#[test]
fn test_py_value_is_truthy_list() {
    let mut heap = Heap::new();
    let empty = heap.list_new(vec![]);
    let one = heap.list_new(vec![PyValue::Int(1)]);
    assert!(!PyValue::List(empty).is_truthy(&heap));
    assert!(PyValue::List(one).is_truthy(&heap));
}

#[test]
fn test_py_value_is_truthy_dict() {
    let mut heap = Heap::new();
    let empty = heap.dict_new(Vec::new());
    assert!(!PyValue::Dict(empty).is_truthy(&heap));
    let mut m: Table = Vec::new();
    m.push((s("a"), PyValue::Int(1)));
    let d = heap.dict_new(m);
    assert!(PyValue::Dict(d).is_truthy(&heap));
}

#[test]
fn test_py_value_as_key() {
    assert_eq!(str_val("hello").as_key().unwrap(), "hello");
    assert_eq!(PyValue::Int(42).as_key().unwrap(), "42");
}

#[test]
fn test_py_value_as_key_error() {
    let mut heap = Heap::new();
    let l = heap.list_new(vec![]);
    let result = PyValue::List(l).as_key();
    assert!(result.is_err());
}

#[test]
fn test_env_new() {
    let mut heap = Heap::new();
    let env = heap.env_new(None);
    assert!(heap.env_vars(env).is_empty());
    assert!(heap.env_get_opt(env, &s("anything")).is_none());
}

#[test]
fn test_env_new_with_parent() {
    let mut heap = Heap::new();
    let parent = heap.env_new(None);
    heap.env_set(parent, s("p"), PyValue::Int(1));
    let child = heap.env_new(Some(parent));
    assert!(is_int(&heap.env_get_opt(child, &s("p")).unwrap(), 1));
}

#[test]
fn test_env_set_and_get() {
    let mut heap = Heap::new();
    let env = env_with_vars(&mut heap, vec![("x", PyValue::Int(42)), ("name", str_val("Alice"))]);
    assert!(heap.env_get(env, &s("x")).unwrap().py_eq(&PyValue::Int(42)));
    assert!(heap.env_get(env, &s("name")).unwrap().py_eq(&str_val("Alice")));
}

#[test]
fn test_env_get_missing() {
    let mut heap = Heap::new();
    let env = env_with_vars(&mut heap, vec![]);
    let result = heap.env_get(env, &s("undefined"));
    assert!(result.is_err());
    if let Err(PyValue::Exception(t, _)) = result {
        assert_eq!(t, "NameError");
    }
}

#[test]
fn test_env_get_opt() {
    let mut heap = Heap::new();
    let env = env_with_vars(&mut heap, vec![("x", PyValue::Int(1))]);
    assert!(heap.env_get_opt(env, &s("x")).unwrap().py_eq(&PyValue::Int(1)));
    assert!(heap.env_get_opt(env, &s("y")).is_none());
}

#[test]
fn test_env_assign() {
    let mut heap = Heap::new();
    let env = env_with_vars(&mut heap, vec![("x", PyValue::Int(1))]);
    heap.env_assign(env, s("x"), PyValue::Int(2));
    assert!(heap.env_get(env, &s("x")).unwrap().py_eq(&PyValue::Int(2)));
}

#[test]
fn test_env_assign_new_var() {
    let mut heap = Heap::new();
    let env = env_with_vars(&mut heap, vec![]);
    heap.env_assign(env, s("new_var"), PyValue::Int(99));
    assert!(heap.env_get(env, &s("new_var")).unwrap().py_eq(&PyValue::Int(99)));
}

#[test]
fn test_env_parent_lookup() {
    let mut heap = Heap::new();
    let parent = env_with_vars(&mut heap, vec![("parent_var", PyValue::Int(100))]);
    let child = heap.env_new(Some(parent));
    assert!(heap.env_get(child, &s("parent_var")).unwrap().py_eq(&PyValue::Int(100)));
}

#[test]
fn test_env_child_overrides_parent() {
    let mut heap = Heap::new();
    let parent = env_with_vars(&mut heap, vec![("x", PyValue::Int(1))]);
    let child = heap.env_new(Some(parent));
    heap.env_set(child, s("x"), PyValue::Int(2));
    assert!(heap.env_get(child, &s("x")).unwrap().py_eq(&PyValue::Int(2)));
    assert!(heap.env_get(parent, &s("x")).unwrap().py_eq(&PyValue::Int(1)));
}

#[test]
fn test_env_assign_searches_parent() {
    let mut heap = Heap::new();
    let parent = env_with_vars(&mut heap, vec![("x", PyValue::Int(1))]);
    let child = heap.env_new(Some(parent));
    heap.env_assign(child, s("x"), PyValue::Int(2));
    assert!(heap.env_get(child, &s("x")).unwrap().py_eq(&PyValue::Int(2)));
    assert!(heap.env_get(parent, &s("x")).unwrap().py_eq(&PyValue::Int(2)));
    assert!(heap.env_vars(child).is_empty());
}

#[test]
fn test_py_err() {
    let result: Result<i32, PyValue> = py_err("ValueError", "test message");
    assert!(result.is_err());
    if let Err(e) = result {
        let (t, m) = exc_parts(&e);
        assert_eq!(t, "ValueError");
        assert_eq!(m, "test message");
    }
}

#[test]
fn test_py_err_val() {
    let err = py_err_val("TypeError", "invalid type");
    assert!(matches!(err, PyValue::Exception(_, _)));
    let (t, m) = exc_parts(&err);
    assert_eq!(t, "TypeError");
    assert_eq!(m, "invalid type");
}

#[test]
fn test_get_class_method() {
    let mut heap = Heap::new();
    let mut methods: Table = Vec::new();
    methods.push((s("greet"), str_val("Hello")));
    let class = heap.class_new(s("Person"), None, methods);
    let method = heap.get_class_method(class, &s("greet"));
    assert!(method.is_some());
}

#[test]
fn test_get_class_method_missing() {
    let mut heap = Heap::new();
    let class = heap.class_new(s("Foo"), None, Vec::new());
    let method = heap.get_class_method(class, &s("missing"));
    assert!(method.is_none());
}

#[test]
fn test_get_class_method_inherited() {
    let mut heap = Heap::new();
    let mut base_methods: Table = Vec::new();
    base_methods.push((s("greet"), str_val("Hello")));
    let base = heap.class_new(s("Base"), None, base_methods);
    let child = heap.class_new(s("Child"), Some(base), Vec::new());
    let method = heap.get_class_method(child, &s("greet"));
    assert!(method.is_some());
}

// Further cases.

#[test]
fn own_method_overrides_base() {
    let mut heap = Heap::new();
    let mut bm: Table = Vec::new();
    bm.push((s("speak"), str_val("base")));
    let base = heap.class_new(s("Base"), None, bm);
    let mut cm: Table = Vec::new();
    cm.push((s("speak"), str_val("child")));
    let child = heap.class_new(s("Child"), Some(base), cm);
    assert!(heap.get_class_method(child, &s("speak")).unwrap().py_eq(&str_val("child")));
    assert!(heap.get_class_method(base, &s("speak")).unwrap().py_eq(&str_val("base")));
}

#[test]
fn isinstance_follows_bases() {
    let mut heap = Heap::new();
    let a = heap.class_new(s("A"), None, Vec::new());
    let b = heap.class_new(s("B"), Some(a), Vec::new());
    assert!(heap.class_descends(b, &s("A")));
    assert!(heap.class_descends(b, &s("B")));
    assert!(!heap.class_descends(a, &s("B")));
}

#[test]
fn name_error_message() {
    let mut heap = Heap::new();
    let env = heap.env_new(None);
    let e = heap.env_get(env, &s("zz")).unwrap_err();
    let (t, m) = exc_parts(&e);
    assert_eq!(t, "NameError");
    assert_eq!(m, "name 'zz' is not defined");
}

#[test]
fn negative_and_extreme_keys() {
    assert_eq!(PyValue::Int(-7).as_key().unwrap(), "-7");
    assert_eq!(PyValue::Int(0).as_key().unwrap(), "0");
    assert_eq!(int_to_string(i64::MIN), "-9223372036854775808");
    assert_eq!(int_to_string(i64::MAX), "9223372036854775807");
    let (t, m) = exc_parts(&PyValue::NoneVal.as_key().unwrap_err());
    assert_eq!(t, "TypeError");
    assert_eq!(m, "unhashable type");
}

#[test]
fn float_equality_follows_ieee() {
    let nan = f64::NAN.to_bits();
    assert!(!float_equal(nan, nan));
    assert!(float_equal(0.0f64.to_bits(), (-0.0f64).to_bits()));
    assert!(float_zero((-0.0f64).to_bits()));
    assert!(!float_zero(f64::MIN_POSITIVE.to_bits()));
    assert!(PyValue::Float((-0.0f64).to_bits()).py_eq(&PyValue::Float(0.0f64.to_bits())));
}

#[test]
fn type_labels() {
    let mut heap = Heap::new();
    let c = heap.class_new(s("Point"), None, Vec::new());
    let i = heap.instance_new(c);
    assert_eq!(PyValue::Int(1).type_label(&heap), "int");
    assert_eq!(PyValue::Float(0).type_label(&heap), "float");
    assert_eq!(PyValue::NoneVal.type_label(&heap), "NoneType");
    assert_eq!(PyValue::Instance(i).type_label(&heap), "Point");
    assert_eq!(PyValue::Class(c).type_label(&heap), "type");
    assert_eq!(PyValue::Builtin(0).type_label(&heap), "function");
}

#[test]
fn copy_is_deep() {
    let v = PyValue::Tuple(vec![str_val("a"), PyValue::Exception(s("E"), Box::new(PyValue::Int(3)))]);
    let w = v.copy();
    match w {
        PyValue::Tuple(items) => {
            assert!(items[0].py_eq(&str_val("a")));
            assert!(matches!(&items[1], PyValue::Exception(t, a) if t == "E" && is_int(a, 3)));
        }
        other => panic!("expected a tuple, got {:?}", other),
    }
}
