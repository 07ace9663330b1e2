use py5::builtins::builtin_call;
use py5::heap::Heap;
use py5::value::PyValue;

fn call(heap: &mut Heap, name: &str, args: Vec<PyValue>) -> Option<Result<PyValue, PyValue>> {
    builtin_call(heap, &name.to_string(), &args)
}

fn message(r: Option<Result<PyValue, PyValue>>) -> (String, String) {
    match r {
        Some(Err(PyValue::Exception(t, a))) => match *a {
            PyValue::Str(m) => (t, m),
            other => panic!("argument {:?}", other),
        },
        other => panic!("expected an exception, got {:?}", other),
    }
}

#[test]
fn builtins_compute_values() {
    let mut heap = Heap::new();
    assert!(matches!(call(&mut heap, "len", vec![PyValue::Str("abc".to_string())]), Some(Ok(PyValue::Int(3)))));
    match call(&mut heap, "range", vec![PyValue::Int(3)]) {
        Some(Ok(PyValue::List(l))) => assert_eq!(heap.list_len(l), 3),
        other => panic!("expected a list, got {:?}", other),
    }
    assert!(matches!(call(&mut heap, "type", vec![PyValue::Int(1)]), Some(Ok(PyValue::Str(s))) if s == "<class 'int'>"));
    let c = heap.class_new("C".to_string(), None, Vec::new());
    let i = heap.instance_new(c);
    assert!(matches!(
        call(&mut heap, "isinstance", vec![PyValue::Instance(i), PyValue::Class(c)]),
        Some(Ok(PyValue::Bool(true)))
    ));
    match call(&mut heap, "ValueError", vec![PyValue::Str("bad".to_string())]) {
        Some(Ok(PyValue::Exception(t, _))) => assert_eq!(t, "ValueError"),
        other => panic!("expected an exception value, got {:?}", other),
    }
}

#[test]
fn builtins_check_their_arguments() {
    let mut heap = Heap::new();
    assert_eq!(message(call(&mut heap, "len", vec![])).1, "len() takes exactly one argument (0 given)");
    assert_eq!(message(call(&mut heap, "range", vec![])).1, "range expected 1 argument, got 0");
    assert_eq!(message(call(&mut heap, "range", vec![PyValue::NoneVal])).1, "range() integer argument expected");
    assert_eq!(message(call(&mut heap, "type", vec![])).1, "type() takes 1 argument");
    assert_eq!(message(call(&mut heap, "isinstance", vec![PyValue::Int(1)])).1, "isinstance expected 2 arguments");
}

#[test]
fn io_builtins_are_left_to_the_caller() {
    let mut heap = Heap::new();
    assert!(call(&mut heap, "print", vec![PyValue::Int(1)]).is_none());
    assert!(call(&mut heap, "open", vec![]).is_none());
    assert!(call(&mut heap, "str", vec![PyValue::Int(1)]).is_none());
}
