use py5::heap::Heap;
use py5::json::{json_dump, Piece};
use py5::table::Table;
use py5::value::PyValue;

fn render(pieces: Vec<Piece>) -> String {
    let mut out = String::new();
    for p in pieces {
        match p {
            Piece::Text(t) => out.push_str(&t),
            Piece::Float(b) => out.push_str(&f64::from_bits(b).to_string()),
            Piece::Builtin(_) | Piece::File(_) => panic!("not a JSON piece"),
        }
    }
    out
}

fn dumps(heap: &Heap, v: &PyValue) -> Result<String, PyValue> {
    json_dump(heap, v).expect("nesting within bounds").map(render)
}

#[test]
fn dumps_scalars_and_strings() {
    let heap = Heap::new();
    assert_eq!(dumps(&heap, &PyValue::NoneVal).unwrap(), "null");
    assert_eq!(dumps(&heap, &PyValue::Bool(true)).unwrap(), "true");
    assert_eq!(dumps(&heap, &PyValue::Int(-42)).unwrap(), "-42");
    assert_eq!(dumps(&heap, &PyValue::Float(2.5f64.to_bits())).unwrap(), "2.5");
    assert_eq!(dumps(&heap, &PyValue::Str("say \"hi\"".to_string())).unwrap(), "\"say \\\"hi\\\"\"");
}

#[test]
fn dumps_lists_tuples_and_dicts() {
    let mut heap = Heap::new();
    let inner = PyValue::List(heap.list_new(vec![PyValue::Int(1), PyValue::Int(2)]));
    let mut t: Table = Vec::new();
    t.push(("a".to_string(), inner));
    t.push(("b".to_string(), PyValue::Tuple(vec![PyValue::NoneVal, PyValue::Bool(false)])));
    let d = PyValue::Dict(heap.dict_new(t));
    assert_eq!(dumps(&heap, &d).unwrap(), "{\"a\": [1, 2], \"b\": [null, false]}");
    let empty = PyValue::List(heap.list_new(Vec::new()));
    assert_eq!(dumps(&heap, &empty).unwrap(), "[]");
}

#[test]
fn dumps_refuses_other_values() {
    let mut heap = Heap::new();
    let l = PyValue::List(heap.list_new(vec![PyValue::Int(1), PyValue::Function(0)]));
    match dumps(&heap, &l) {
        Err(PyValue::Exception(t, _)) => assert_eq!(t, "TypeError"),
        other => panic!("expected TypeError, got {:?}", other),
    }
}
