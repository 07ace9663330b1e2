use py5::lexer::{lex_source, TokenKind};
use py5::rules::{
    fstring_parts, handler_catches, join_text, json_words, last_component, module_file_candidates, module_search_dirs,
    package_after_load, range_items, resolve_import_name, select_handler, split_text, str_chars, FPart,
};
use py5::value::{py_err_val, PyValue};

fn s(x: &str) -> String {
    x.to_string()
}

fn names(v: &[&str]) -> Vec<String> {
    v.iter().map(|x| x.to_string()).collect()
}

#[test]
fn bare_except_takes_anything() {
    assert!(handler_catches(&Vec::new(), &PyValue::Int(1)));
    assert!(handler_catches(&Vec::new(), &py_err_val("KeyError", "k")));
}

#[test]
fn named_except_takes_its_type_or_exception() {
    let e = py_err_val("KeyError", "k");
    assert!(handler_catches(&names(&["KeyError"]), &e));
    assert!(handler_catches(&names(&["ValueError", "Exception"]), &e));
    assert!(!handler_catches(&names(&["ValueError"]), &e));
    assert!(!handler_catches(&names(&["Exception"]), &PyValue::Int(1)));
}

#[test]
fn first_matching_handler_is_chosen() {
    let hs = vec![
        (names(&["ValueError"]), None, Vec::new()),
        (names(&["KeyError"]), Some(s("e")), Vec::new()),
        (Vec::new(), None, Vec::new()),
    ];
    assert_eq!(select_handler(&hs, &py_err_val("KeyError", "")), Some(1));
    assert_eq!(select_handler(&hs, &py_err_val("NameError", "")), Some(2));
    let only_value_errors = vec![(names(&["ValueError"]), None, Vec::new())];
    assert_eq!(select_handler(&only_value_errors, &py_err_val("NameError", "")), None);
}

#[test]
fn relative_imports() {
    assert_eq!(resolve_import_name(&None, &s("os"), 0), Ok(s("os")));
    assert_eq!(resolve_import_name(&Some(s("a.b.c")), &s("m"), 1), Ok(s("a.b.m")));
    assert_eq!(resolve_import_name(&Some(s("a.b.c")), &s("m"), 2), Ok(s("a.m")));
    assert_eq!(resolve_import_name(&Some(s("a.b.c")), &s(""), 1), Ok(s("a.b")));
    assert_eq!(resolve_import_name(&Some(s("pkg")), &s("m"), 1), Ok(s(".m")));
    assert_eq!(
        resolve_import_name(&Some(s("pkg")), &s("m"), 2),
        Err(s("attempted relative import with no parent package"))
    );
    assert_eq!(resolve_import_name(&None, &s("m"), 1), Err(s("relative import without a package")));
}

#[test]
fn last_components() {
    assert_eq!(last_component(&s("a.b.c")), "c");
    assert_eq!(last_component(&s("os")), "os");
    assert_eq!(last_component(&s("a.")), "");
}

#[test]
fn fstring_splits_text_and_code() {
    let parts = fstring_parts(&s("hello {name}, {x + 1}!"));
    assert_eq!(
        parts,
        vec![
            FPart::Text(s("hello ")),
            FPart::Code(s("name")),
            FPart::Text(s(", ")),
            FPart::Code(s("x + 1")),
            FPart::Text(s("!")),
        ]
    );
    assert_eq!(fstring_parts(&s("a {b")), vec![FPart::Text(s("a ")), FPart::Code(s("b"))]);
    assert_eq!(fstring_parts(&s("")), Vec::<FPart>::new());
    assert_eq!(fstring_parts(&s("x}")), vec![FPart::Text(s("x}"))]);
}

#[test]
fn json_words_become_constants() {
    let mut toks = lex_source("[true, false, null, nothing]").unwrap();
    json_words(&mut toks);
    let kinds: Vec<&TokenKind> = toks.iter().map(|t| &t.kind).collect();
    assert_eq!(kinds[1], &TokenKind::TrueVal);
    assert_eq!(kinds[3], &TokenKind::FalseVal);
    assert_eq!(kinds[5], &TokenKind::NoneVal);
    assert_eq!(kinds[7], &TokenKind::Name(s("nothing")));
}

#[test]
fn range_counts_from_zero() {
    let r = range_items(4);
    assert_eq!(r.len(), 4);
    for (i, v) in r.iter().enumerate() {
        assert!(matches!(v, PyValue::Int(n) if *n == i as i64));
    }
    assert!(range_items(0).is_empty());
    assert!(range_items(-3).is_empty());
}

#[test]
fn split_matches_std() {
    for (text, sep) in [("a,b,,c", ","), ("abc", ""), ("", ","), ("a--b--", "--"), ("aaa", "aa"), ("no sep", ";")] {
        let expected: Vec<String> = text.split(sep).map(|p| p.to_string()).collect();
        assert_eq!(split_text(&s(text), &s(sep)), expected, "splitting {:?} at {:?}", text, sep);
    }
}

#[test]
fn join_matches_std() {
    assert_eq!(join_text(&s(", "), &names(&["a", "b", "c"])), "a, b, c");
    assert_eq!(join_text(&s("-"), &names(&["x"])), "x");
    assert_eq!(join_text(&s("-"), &Vec::new()), "");
}

#[test]
fn string_iterates_by_character() {
    let cs = str_chars(&s("hé!"));
    assert_eq!(cs.len(), 3);
    assert!(matches!(&cs[1], PyValue::Str(c) if c == "é"));
}

#[test]
fn module_search_order() {
    let path = vec![PyValue::Str(s("/lib")), PyValue::Int(3), PyValue::Str(s("site"))];
    assert_eq!(module_search_dirs(&Some(s("pkg")), &path), names(&["pkg", ".", "/lib", "site"]));
    assert_eq!(module_search_dirs(&None, &Vec::new()), names(&["."]));
    assert_eq!(
        module_file_candidates(&names(&[".", "/lib"]), &s("a.b")),
        names(&["./a/b.py", "./a/b/__init__.py", "/lib/a/b.py", "/lib/a/b/__init__.py"])
    );
}

#[test]
fn package_after_loading() {
    assert_eq!(package_after_load(&s("./pkg/__init__.py"), &s("pkg")), "pkg");
    assert_eq!(package_after_load(&s("./pkg/mod.py"), &s("pkg.mod")), "mod");
    assert_eq!(package_after_load(&s("./single.py"), &s("single")), "single");
}

#[test]
fn missing_module_is_an_import_error() {
    match py5::rules::no_module_error(&s("nosuch.mod")) {
        PyValue::Exception(t, a) => {
            assert_eq!(t, "ImportError");
            assert!(matches!(*a, PyValue::Str(ref m) if m == "No module named 'nosuch.mod'"));
        }
        other => panic!("expected an exception, got {:?}", other),
    }
}
