use py5::heap::Heap;
use py5::table::{tbl_get, tbl_put, Table};
use py5::value::PyValue;

fn s(x: &str) -> String {
    x.to_string()
}

fn int_of(v: &PyValue) -> i64 {
    match v {
        PyValue::Int(n) => *n,
        other => panic!("not an int: {:?}", other),
    }
}

#[test]
fn list_get_set_push_pop() {
    let mut heap = Heap::new();
    let l = heap.list_new(vec![PyValue::Int(1), PyValue::Int(2)]);
    assert_eq!(heap.list_len(l), 2);
    assert_eq!(int_of(&heap.list_get(l, 1).unwrap()), 2);
    assert!(heap.list_get(l, 2).is_none());
    assert!(heap.list_get(l, -1).is_none());
    assert!(heap.list_set(l, 0, PyValue::Int(10)));
    assert!(!heap.list_set(l, 5, PyValue::Int(0)));
    assert_eq!(int_of(&heap.list_get(l, 0).unwrap()), 10);
    heap.list_push(l, PyValue::Int(3));
    assert_eq!(heap.list_len(l), 3);
    assert_eq!(int_of(&heap.list_pop(l).unwrap()), 3);
    assert_eq!(heap.list_len(l), 2);
    let items = heap.list_items(l);
    assert_eq!(items.len(), 2);
    assert_eq!(int_of(&items[0]), 10);
}

#[test]
fn pop_of_empty_list() {
    let mut heap = Heap::new();
    let l = heap.list_new(vec![]);
    assert!(heap.list_pop(l).is_none());
    assert_eq!(heap.list_len(l), 0);
}

#[test]
fn lists_are_shared_by_handle() {
    let mut heap = Heap::new();
    let l = heap.list_new(vec![]);
    let alias = PyValue::List(l);
    heap.list_push(l, PyValue::Int(7));
    match alias {
        PyValue::List(h) => assert_eq!(heap.list_len(h), 1),
        _ => unreachable!(),
    }
}

#[test]
fn dict_reads_back_what_was_written() {
    let mut heap = Heap::new();
    let d = heap.dict_new(Vec::new());
    heap.dict_set(d, s("a"), PyValue::Int(1));
    heap.dict_set(d, s("b"), PyValue::Int(2));
    heap.dict_set(d, s("a"), PyValue::Int(3));
    assert_eq!(heap.dict_len(d), 2);
    assert_eq!(int_of(&heap.dict_get(d, &s("a")).unwrap()), 3);
    assert_eq!(int_of(&heap.dict_get(d, &s("b")).unwrap()), 2);
    assert!(heap.dict_get(d, &s("c")).is_none());
    let entries = heap.dict_entries(d);
    assert_eq!(entries[0].0, "a");
    assert_eq!(entries[1].0, "b");
}

#[test]
fn table_put_and_get() {
    let mut t: Table = Vec::new();
    tbl_put(&mut t, s("k"), PyValue::Int(1));
    tbl_put(&mut t, s("j"), PyValue::Int(2));
    tbl_put(&mut t, s("k"), PyValue::Int(5));
    assert_eq!(t.len(), 2);
    assert_eq!(int_of(&tbl_get(&t, &s("k")).unwrap()), 5);
    assert_eq!(int_of(&tbl_get(&t, &s("j")).unwrap()), 2);
}

#[test]
fn instance_attributes() {
    let mut heap = Heap::new();
    let c = heap.class_new(s("C"), None, Vec::new());
    let i = heap.instance_new(c);
    assert_eq!(heap.instance_class(i), Some(c));
    assert!(heap.attr_get(i, &s("x")).is_none());
    heap.attr_set(i, s("x"), PyValue::Int(4));
    assert_eq!(int_of(&heap.attr_get(i, &s("x")).unwrap()), 4);
    let j = heap.instance_new(c);
    assert!(heap.attr_get(j, &s("x")).is_none());
}

#[test]
fn out_of_range_handles_change_nothing() {
    let mut heap = Heap::new();
    heap.list_push(3, PyValue::Int(1));
    heap.dict_set(3, s("a"), PyValue::Int(1));
    heap.env_set(3, s("a"), PyValue::Int(1));
    assert_eq!(heap.list_len(3), 0);
    assert!(heap.dict_get(3, &s("a")).is_none());
    assert!(heap.class_name(0).is_none());
    assert!(heap.instance_class(0).is_none());
}

#[test]
fn scope_with_bad_parent_has_none() {
    let mut heap = Heap::new();
    let e = heap.env_new(Some(9));
    heap.env_set(e, s("x"), PyValue::Int(1));
    assert_eq!(int_of(&heap.env_get(e, &s("x")).unwrap()), 1);
    assert!(heap.env_get_opt(e, &s("y")).is_none());
}

#[test]
fn assignment_rebinds_in_the_nearest_scope_that_binds() {
    let mut heap = Heap::new();
    let g = heap.env_new(None);
    heap.env_set(g, s("x"), PyValue::Int(1));
    let f = heap.env_new(Some(g));
    heap.env_set(f, s("x"), PyValue::Int(2));
    let inner = heap.env_new(Some(f));
    heap.env_assign(inner, s("x"), PyValue::Int(3));
    assert_eq!(int_of(&heap.env_get(inner, &s("x")).unwrap()), 3);
    assert_eq!(int_of(&heap.env_get(f, &s("x")).unwrap()), 3);
    assert_eq!(int_of(&heap.env_get(g, &s("x")).unwrap()), 1);
}

#[test]
fn assignment_of_other_names_leaves_them() {
    let mut heap = Heap::new();
    let g = heap.env_new(None);
    heap.env_set(g, s("a"), PyValue::Int(1));
    let f = heap.env_new(Some(g));
    heap.env_assign(f, s("b"), PyValue::Int(2));
    assert_eq!(int_of(&heap.env_get(f, &s("a")).unwrap()), 1);
    assert!(heap.env_get_opt(g, &s("b")).is_none());
}
