use py5::heap::Heap;
use py5::json::Piece;
use py5::show::show;
use py5::table::Table;
use py5::value::PyValue;

fn text(heap: &Heap, v: &PyValue) -> String {
    let mut out = String::new();
    for p in show(heap, v).unwrap() {
        match p {
            Piece::Text(t) => out.push_str(&t),
            Piece::Float(b) => out.push_str(&format!("{}", f64::from_bits(b))),
            Piece::Builtin(b) => out.push_str(&format!("<builtin {}>", b)),
            Piece::File(f) => out.push_str(&format!("<file {}>", f)),
        }
    }
    out
}

#[test]
fn shows_scalars() {
    let heap = Heap::new();
    assert_eq!(text(&heap, &PyValue::NoneVal), "None");
    assert_eq!(text(&heap, &PyValue::Bool(false)), "False");
    assert_eq!(text(&heap, &PyValue::Int(-3)), "-3");
    assert_eq!(text(&heap, &PyValue::Float(1.5f64.to_bits())), "1.5");
    assert_eq!(text(&heap, &PyValue::Str("hi".to_string())), "hi");
}

#[test]
fn shows_containers_with_quoted_strings() {
    let mut heap = Heap::new();
    let l = PyValue::List(heap.list_new(vec![PyValue::Str("a".to_string()), PyValue::Int(2)]));
    assert_eq!(text(&heap, &l), "['a', 2]");
    assert_eq!(text(&heap, &PyValue::Tuple(vec![PyValue::Int(1)])), "(1,)");
    assert_eq!(text(&heap, &PyValue::Tuple(vec![PyValue::Int(1), PyValue::Str("x".to_string())])), "(1, 'x')");
    let mut t: Table = Vec::new();
    t.push(("k".to_string(), PyValue::Str("v".to_string())));
    let d = PyValue::Dict(heap.dict_new(t));
    assert_eq!(text(&heap, &d), "{'k': v}");
}

#[test]
fn shows_objects() {
    let mut heap = Heap::new();
    let c = heap.class_new("Point".to_string(), None, Vec::new());
    let i = heap.instance_new(c);
    assert_eq!(text(&heap, &PyValue::Class(c)), "<class 'Point'>");
    assert_eq!(text(&heap, &PyValue::Instance(i)), "<Point object>");
    let e = PyValue::Exception("ValueError".to_string(), Box::new(PyValue::Str("bad".to_string())));
    assert_eq!(text(&heap, &e), "ValueError(bad)");
    assert_eq!(text(&heap, &PyValue::Module("m".to_string(), 0)), "<module 'm'>");
    assert_eq!(text(&heap, &PyValue::Builtin(4)), "<builtin 4>");
}
