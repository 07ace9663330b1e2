use py5::call::{bind_arguments, open_call_scope, Binding};
use py5::heap::Heap;
use py5::table::Table;
use py5::value::PyValue;

fn s(x: &str) -> String {
    x.to_string()
}

fn names(v: &[&str]) -> Vec<String> {
    v.iter().map(|x| x.to_string()).collect()
}

fn table(v: Vec<(&str, i64)>) -> Table {
    v.into_iter().map(|(k, n)| (k.to_string(), PyValue::Int(n))).collect()
}

fn ints(v: &[i64]) -> Vec<PyValue> {
    v.iter().map(|n| PyValue::Int(*n)).collect()
}

fn int_of(v: &PyValue) -> i64 {
    match v {
        PyValue::Int(n) => *n,
        other => panic!("not an int: {:?}", other),
    }
}

fn type_error(r: Result<Binding, PyValue>) -> String {
    match r {
        Err(PyValue::Exception(t, a)) => {
            assert_eq!(t, "TypeError");
            match *a {
                PyValue::Str(m) => m,
                other => panic!("argument {:?}", other),
            }
        }
        Err(other) => panic!("not an exception: {:?}", other),
        Ok(_) => panic!("the call was accepted"),
    }
}

#[test]
fn positional_and_defaults() {
    let b = bind_arguments(&s("f"), &names(&["a", "b"]), &table(vec![("b", 5)]), &None, &None, &ints(&[1]), &Vec::new())
        .unwrap();
    assert_eq!(b.early.len(), 1);
    assert_eq!(b.early[0].0, "a");
    assert_eq!(int_of(&b.early[0].1), 1);
    assert!(b.kw_dict.is_none());
    assert_eq!(b.late.len(), 1);
    assert_eq!(b.late[0].0, "b");
    assert_eq!(int_of(&b.late[0].1), 5);
}

#[test]
fn too_many_positional() {
    let r = bind_arguments(&s("f"), &names(&["a"]), &Vec::new(), &None, &None, &ints(&[1, 2]), &Vec::new());
    assert_eq!(type_error(r), "f() takes 1 positional arguments but 2 were given");
}

#[test]
fn varargs_take_the_rest() {
    let b = bind_arguments(&s("f"), &names(&["a"]), &Vec::new(), &Some(s("rest")), &None, &ints(&[1, 2, 3]), &Vec::new())
        .unwrap();
    assert_eq!(b.early.len(), 2);
    assert_eq!(b.early[1].0, "rest");
    match &b.early[1].1 {
        PyValue::Tuple(t) => {
            assert_eq!(t.len(), 2);
            assert_eq!(int_of(&t[0]), 2);
            assert_eq!(int_of(&t[1]), 3);
        }
        other => panic!("expected a tuple, got {:?}", other),
    }
}

#[test]
fn keyword_for_bound_parameter() {
    let r = bind_arguments(&s("g"), &names(&["a", "b"]), &Vec::new(), &None, &None, &ints(&[1]), &table(vec![("a", 2)]));
    assert_eq!(type_error(r), "g() got multiple values for argument 'a'");
}

#[test]
fn unexpected_keyword() {
    let r = bind_arguments(&s("g"), &names(&["a"]), &Vec::new(), &None, &None, &ints(&[1]), &table(vec![("zz", 2)]));
    assert_eq!(type_error(r), "g() got an unexpected keyword argument 'zz'");
}

#[test]
fn kwargs_collect_the_others() {
    let b = bind_arguments(
        &s("g"),
        &names(&["a"]),
        &Vec::new(),
        &None,
        &Some(s("kw")),
        &Vec::new(),
        &table(vec![("x", 1), ("a", 2), ("y", 3)]),
    )
    .unwrap();
    assert_eq!(b.early.len(), 1);
    assert_eq!(b.early[0].0, "a");
    let (name, rest) = b.kw_dict.unwrap();
    assert_eq!(name, "kw");
    assert_eq!(rest.len(), 2);
    assert_eq!(rest[0].0, "x");
    assert_eq!(rest[1].0, "y");
}

#[test]
fn missing_argument() {
    let r = bind_arguments(&s("h"), &names(&["a", "b"]), &Vec::new(), &None, &None, &ints(&[1]), &Vec::new());
    assert_eq!(type_error(r), "h() missing required argument: 'b'");
}

#[test]
fn scope_of_a_call() {
    let mut heap = Heap::new();
    let g = heap.env_new(None);
    heap.env_set(g, s("glob"), PyValue::Int(9));
    let b = bind_arguments(
        &s("f"),
        &names(&["a", "b"]),
        &table(vec![("b", 5)]),
        &None,
        &Some(s("kw")),
        &ints(&[1]),
        &table(vec![("z", 7)]),
    )
    .unwrap();
    let e = open_call_scope(&mut heap, g, b);
    assert_eq!(int_of(&heap.env_get(e, &s("a")).unwrap()), 1);
    assert_eq!(int_of(&heap.env_get(e, &s("b")).unwrap()), 5);
    assert_eq!(int_of(&heap.env_get(e, &s("glob")).unwrap()), 9);
    match heap.env_get(e, &s("kw")).unwrap() {
        PyValue::Dict(d) => assert_eq!(int_of(&heap.dict_get(d, &s("z")).unwrap()), 7),
        other => panic!("expected a dict, got {:?}", other),
    }
}

#[test]
fn law_binding_fails_exactly_on_the_listed_causes() {
    let p = names(&["a", "b"]);
    let d = table(vec![("b", 5)]);
    let call = |na: &[i64], kw: Vec<(&str, i64)>| bind_arguments(&s("f"), &p, &d, &None, &None, &ints(na), &table(kw));
    assert!(call(&[1], vec![]).is_ok());
    assert!(call(&[], vec![("a", 1)]).is_ok());
    assert!(call(&[1, 2], vec![]).is_ok());
    assert!(call(&[1, 2, 3], vec![]).is_err());
    assert!(call(&[1], vec![("c", 2)]).is_err());
    assert!(call(&[1], vec![("a", 2)]).is_err());
    assert!(call(&[], vec![("b", 2)]).is_err());
}
