//! Programs run through the evaluator of the library, with the small set of
//! builtins these programs call done here the way the interpreter does them.
use py5::ast::Op;
use py5::heap::Heap;
use py5::json::Piece;
use py5::lexer::lex_source;
use py5::machine::{step, Action, Event, Machine};
use py5::builtins::builtin_call;
use py5::parser::Parser;
use py5::value::{int_to_string, py_err_val, PyValue};

struct Rt {
    heap: Heap,
    globals: usize,
    builtins: Vec<String>,
    sys: Option<PyValue>,
}

fn builtin_names() -> Vec<&'static str> {
    vec!["len", "range", "str", "type", "isinstance", "Exception", "TypeError", "ValueError", "NameError", "IndexError"]
}

fn setup() -> Rt {
    let mut heap = Heap::new();
    let globals = heap.env_new(None);
    let mut builtins = Vec::new();
    for (i, n) in builtin_names().iter().enumerate() {
        builtins.push(n.to_string());
        heap.env_set(globals, n.to_string(), PyValue::Builtin(i));
    }
    Rt { heap, globals, builtins, sys: None }
}

fn as_num(v: &PyValue) -> Result<f64, PyValue> {
    match v {
        PyValue::Int(i) => Ok(*i as f64),
        PyValue::Float(f) => Ok(f64::from_bits(*f)),
        PyValue::Bool(b) => Ok(if *b { 1.0 } else { 0.0 }),
        _ => Err(py_err_val("TypeError", "expected number")),
    }
}

fn fl(x: f64) -> PyValue {
    PyValue::Float(x.to_bits())
}

fn arith(op: Op, l: PyValue, r: PyValue) -> Result<PyValue, PyValue> {
    match op {
        Op::Neg => Ok(fl(-as_num(&l)?)),
        Op::Eq | Op::Ne | Op::Lt | Op::Le | Op::Gt | Op::Ge => {
            let a = as_num(&l)?;
            let b = as_num(&r)?;
            Ok(PyValue::Bool(match op {
                Op::Eq => a == b,
                Op::Ne => a != b,
                Op::Lt => a < b,
                Op::Le => a <= b,
                Op::Gt => a > b,
                _ => a >= b,
            }))
        }
        _ => {
            if let (PyValue::Int(a), PyValue::Int(b)) = (&l, &r) {
                return match op {
                    Op::Div => Ok(fl((*a as f64) / (*b as f64))),
                    _ => Err(py_err_val("TypeError", "unsupported operand")),
                };
            }
            let a = as_num(&l)?;
            let b = as_num(&r)?;
            match op {
                Op::Add => Ok(fl(a + b)),
                Op::Sub => Ok(fl(a - b)),
                Op::Mul => Ok(fl(a * b)),
                Op::Div => {
                    if b == 0.0 {
                        return Err(py_err_val("ZeroDivisionError", "division by zero"));
                    }
                    Ok(fl(a / b))
                }
                _ => Err(py_err_val("TypeError", "unsupported operand")),
            }
        }
    }
}

fn render(v: &PyValue) -> String {
    match v {
        PyValue::NoneVal => "None".to_string(),
        PyValue::Bool(b) => (if *b { "True" } else { "False" }).to_string(),
        PyValue::Int(i) => int_to_string(*i),
        PyValue::Float(f) => format!("{}", f64::from_bits(*f)),
        PyValue::Str(s) => s.clone(),
        _ => "<object>".to_string(),
    }
}

fn call_builtin(rt: &mut Rt, b: usize, a: Vec<PyValue>) -> Result<PyValue, PyValue> {
    let name = rt.builtins[b].clone();
    if let Some(r) = builtin_call(&mut rt.heap, &name, &a) {
        return r;
    }
    match name.as_str() {
        "str" => Ok(PyValue::Str(render(&a[0]))),
        _ => {
            let arg = a.first().map(|v| v.copy()).unwrap_or(PyValue::NoneVal);
            Ok(PyValue::Exception(name, Box::new(arg)))
        }
    }
}

fn load_module(rt: &mut Rt, name: &str) -> Result<PyValue, PyValue> {
    if name != "sys" {
        return Err(py_err_val("ImportError", "no such module"));
    }
    if let Some(m) = &rt.sys {
        return Ok(m.copy());
    }
    let env = rt.heap.env_new(None);
    rt.heap.env_set(env, "version".to_string(), PyValue::Str("3.11.0 (py5 implementation)".to_string()));
    let m = PyValue::Module("sys".to_string(), env);
    rt.sys = Some(m.copy());
    Ok(m)
}

fn drive(rt: &mut Rt, mut m: Machine) -> Result<PyValue, PyValue> {
    let mut ev = Event::Start;
    loop {
        ev = match step(&mut m, &mut rt.heap, ev) {
            Action::Next => Event::Start,
            Action::Arith(op, l, r) => Event::Value(arith(op, l, r)),
            Action::ParseFloat(t) => Event::Value(Ok(fl(t.parse::<f64>().unwrap()))),
            Action::CallBuiltin(b, args, _) => Event::Value(call_builtin(rt, b, args)),
            Action::LoadModule(name, _) => Event::Value(load_module(rt, &name)),
            Action::Render(v) => Event::Value(Ok(PyValue::Str(render(&v)))),
            Action::RenderPieces(ps) => Event::Value(Ok(PyValue::Str(
                ps.into_iter()
                    .map(|p| match p {
                        Piece::Text(t) => t,
                        Piece::Float(f) => format!("{}", f64::from_bits(f)),
                        _ => "<object>".to_string(),
                    })
                    .collect(),
            ))),
            Action::FileOp(_, _, _) => panic!("no files here"),
            Action::Fail(msg) => panic!("{}", msg),
            Action::Done(r) => return r,
        };
    }
}

fn exec_module(src: &str) -> (Rt, Result<(), PyValue>) {
    let mut rt = setup();
    let tokens = lex_source(src).unwrap();
    let mut p = Parser::new(&tokens, "<test>");
    let stmts = p.parse_module().unwrap();
    let g = rt.globals;
    let r = drive(&mut rt, Machine::run_block(stmts, g)).map(|_| ());
    (rt, r)
}

fn get_global(src: &str, name: &str) -> (Rt, PyValue) {
    let (rt, _) = exec_module(src);
    let v = rt.heap.env_get(rt.globals, &name.to_string()).unwrap();
    (rt, v)
}

fn eval_single_expr(src: &str) -> (Rt, Result<PyValue, PyValue>) {
    let mut rt = setup();
    let tokens = lex_source(src).unwrap();
    let mut p = Parser::new(&tokens, "<test>");
    let e = p.parse_expr().unwrap();
    let g = rt.globals;
    let r = drive(&mut rt, Machine::eval(e, g));
    (rt, r)
}

fn expr(src: &str) -> PyValue {
    eval_single_expr(src).1.unwrap()
}

fn as_int(v: PyValue) -> i64 {
    match v {
        PyValue::Int(i) => i,
        other => panic!("expected an int, got {:?}", other),
    }
}

fn text(v: PyValue) -> String {
    match v {
        PyValue::Str(s) => s,
        other => panic!("expected a string, got {:?}", other),
    }
}

fn boolean(v: PyValue) -> bool {
    match v {
        PyValue::Bool(b) => b,
        other => panic!("expected a bool, got {:?}", other),
    }
}

fn exc_type(r: Result<PyValue, PyValue>) -> String {
    match r {
        Err(PyValue::Exception(t, _)) => t,
        other => panic!("expected an exception, got {:?}", other),
    }
}

fn list_ints(rt: &Rt, v: PyValue) -> Vec<i64> {
    match v {
        PyValue::List(l) => rt.heap.list_items(l).into_iter().map(as_int).collect(),
        other => panic!("expected a list, got {:?}", other),
    }
}

#[test]
fn test_arithmetic_int_add() {
    assert_eq!(as_int(expr("1 + 2")), 3);
}

#[test]
fn test_arithmetic_int_sub() {
    assert_eq!(as_int(expr("5 - 3")), 2);
}

#[test]
fn test_arithmetic_int_mul() {
    assert_eq!(as_int(expr("4 * 2")), 8);
}

#[test]
fn test_arithmetic_int_div() {
    assert!(matches!(expr("10 / 2"), PyValue::Float(f) if f64::from_bits(f) == 5.0));
}

#[test]
fn test_arithmetic_int_mod() {
    assert_eq!(as_int(expr("10 % 3")), 1);
}

#[test]
fn test_arithmetic_negative() {
    assert_eq!(as_int(expr("-5")), -5);
}

#[test]
fn test_arithmetic_complex() {
    assert_eq!(as_int(expr("2 + 3 * 4")), 14);
}

fn float_of(v: PyValue) -> f64 {
    match v {
        PyValue::Float(f) => f64::from_bits(f),
        other => panic!("Expected float, got {:?}", other),
    }
}

#[test]
fn test_arithmetic_float_ops() {
    assert!((float_of(expr("3.14 + 1.0")) - 4.14).abs() < 0.001);
    assert!((float_of(expr("5.0 - 2.0")) - 3.0).abs() < 0.001);
    assert!((float_of(expr("2.0 * 3.0")) - 6.0).abs() < 0.001);
    assert!((float_of(expr("6.0 / 2.0")) - 3.0).abs() < 0.001);
}

#[test]
fn test_arithmetic_mixed_int_float() {
    assert_eq!(float_of(expr("5 + 2.5")), 7.5);
}

#[test]
fn test_division_by_zero() {
    assert_eq!(exc_type(eval_single_expr("1 / 0").1), "ZeroDivisionError");
}

#[test]
fn test_comparison_eq() {
    assert!(boolean(expr("1 == 1")));
    assert!(!boolean(expr("1 == 2")));
}

#[test]
fn test_comparison_ne() {
    assert!(boolean(expr("1 != 2")));
    assert!(!boolean(expr("1 != 1")));
}

#[test]
fn test_comparison_lt() {
    assert!(boolean(expr("1 < 2")));
    assert!(!boolean(expr("2 < 1")));
}

#[test]
fn test_comparison_le() {
    assert!(boolean(expr("1 <= 2")));
    assert!(boolean(expr("2 <= 2")));
    assert!(!boolean(expr("3 <= 2")));
}

#[test]
fn test_comparison_gt() {
    assert!(boolean(expr("2 > 1")));
    assert!(!boolean(expr("1 > 2")));
}

#[test]
fn test_comparison_ge() {
    assert!(boolean(expr("2 >= 1")));
    assert!(boolean(expr("2 >= 2")));
    assert!(!boolean(expr("2 >= 3")));
}

#[test]
fn test_logical_and() {
    assert!(boolean(expr("True and True")));
    assert!(!boolean(expr("True and False")));
    assert!(!boolean(expr("False and True")));
}

#[test]
fn test_logical_or() {
    assert!(boolean(expr("False or True")));
    assert!(!boolean(expr("False or False")));
    assert!(boolean(expr("True or False")));
}

#[test]
fn test_logical_not() {
    assert!(!boolean(expr("not True")));
    assert!(boolean(expr("not False")));
    assert!(boolean(expr("not 0")));
    assert!(!boolean(expr("not 1")));
}

#[test]
fn test_assignment() {
    assert!(exec_module("x = 42").1.is_ok());
    assert_eq!(as_int(get_global("x = 42", "x").1), 42);
}

#[test]
fn test_assignment_multiple() {
    assert!(exec_module("x = 1\ny = 2\nz = 3").1.is_ok());
}

#[test]
fn test_augmented_assignment_plus() {
    assert_eq!(as_int(get_global("x = 5\nx += 3", "x").1), 8);
}

#[test]
fn test_augmented_assignment_minus() {
    assert_eq!(as_int(get_global("x = 5\nx -= 3", "x").1), 2);
}

#[test]
fn test_if_statement_true_branch() {
    assert!(exec_module("if True:\n    x = 42").1.is_ok());
    assert_eq!(as_int(get_global("if True:\n    x = 42", "x").1), 42);
}

#[test]
fn test_if_statement_false_branch() {
    assert_eq!(as_int(get_global("if False:\n    x = 42\nelse:\n    x = 99", "x").1), 99);
}

#[test]
fn test_if_elif() {
    let src = "x = 0\nif False:\n    x = 1\nelif True:\n    x = 2\nelse:\n    x = 3";
    assert_eq!(as_int(get_global(src, "x").1), 2);
}

#[test]
fn test_while_loop() {
    assert_eq!(as_int(get_global("x = 0\nwhile x < 5:\n    x += 1", "x").1), 5);
}

#[test]
fn test_while_break() {
    let src = "x = 0\nwhile True:\n    x += 1\n    if x >= 5:\n        break";
    assert_eq!(as_int(get_global(src, "x").1), 5);
}

#[test]
fn test_while_continue() {
    let src = "x = 0\ny = 0\nwhile x < 5:\n    x += 1\n    if x % 2 == 0:\n        continue\n    y += 1";
    assert_eq!(as_int(get_global(src, "y").1), 3);
}

#[test]
fn test_for_loop() {
    assert_eq!(as_int(get_global("total = 0\nfor i in [1, 2, 3, 4, 5]:\n    total += i", "total").1), 15);
}

#[test]
fn test_for_range() {
    assert_eq!(as_int(get_global("total = 0\nfor i in range(5):\n    total += i + 1", "total").1), 15);
}

#[test]
fn test_for_string_iteration() {
    assert_eq!(text(get_global("result = ''\nfor c in 'abc':\n    result += c", "result").1), "abc");
}

#[test]
fn test_function_def() {
    let (rt, foo) = get_global("def foo():\n    return 42", "foo");
    match foo {
        PyValue::Function(f) => assert_eq!(rt.heap.func_name(f), "foo"),
        other => panic!("expected a function, got {:?}", other),
    }
}

#[test]
fn test_function_call() {
    assert_eq!(as_int(get_global("def bar():\n    return 99\nresult = bar()", "result").1), 99);
}

#[test]
fn test_function_with_params() {
    assert_eq!(as_int(get_global("def add(a, b):\n    return a + b\nresult = add(3, 4)", "result").1), 7);
}

#[test]
fn test_function_with_default_param() {
    let src = "def greet(name = 'World'):\n    return name\nresult = greet()";
    assert_eq!(text(get_global(src, "result").1), "World");
}

#[test]
fn test_function_default_override() {
    let src = "def greet(name = 'World'):\n    return name\nresult = greet('Bob')";
    assert_eq!(text(get_global(src, "result").1), "Bob");
}

#[test]
fn test_recursive_factorial() {
    let src = "def fact(n):\n    if n <= 1:\n        return 1\n    return n * fact(n - 1)\nresult = fact(5)";
    assert_eq!(as_int(get_global(src, "result").1), 120);
}

#[test]
fn test_lambda() {
    assert_eq!(as_int(get_global("f = lambda x: x * 2\nresult = f(21)", "result").1), 42);
}

#[test]
fn test_lambda_with_multiple_params() {
    assert_eq!(as_int(get_global("add = lambda a, b: a + b\nresult = add(3, 4)", "result").1), 7);
}

#[test]
fn test_list_literal() {
    assert!(matches!(get_global("x = [1, 2, 3]", "x").1, PyValue::List(_)));
}

#[test]
fn test_list_index() {
    assert_eq!(as_int(get_global("x = [10, 20, 30]\nresult = x[1]", "result").1), 20);
}

#[test]
fn test_list_negative_index() {
    assert!(eval_single_expr("[10, 20, 30][-1]").1.is_err());
}

#[test]
fn test_list_index_out_of_range() {
    assert_eq!(exc_type(eval_single_expr("[1, 2, 3][10]").1), "IndexError");
}

#[test]
fn test_list_append() {
    let (rt, x) = get_global("x = [1, 2]\nx.append(3)", "x");
    match x {
        PyValue::List(l) => assert_eq!(rt.heap.list_len(l), 3),
        other => panic!("Expected list, got {:?}", other),
    }
}

#[test]
fn test_list_pop() {
    assert_eq!(as_int(get_global("x = [1, 2, 3]\nresult = x.pop()", "result").1), 3);
}

#[test]
fn test_dict_literal() {
    assert!(matches!(get_global("d = {'a': 1, 'b': 2}", "d").1, PyValue::Dict(_)));
}

#[test]
fn test_dict_index() {
    assert_eq!(as_int(get_global("d = {'x': 42}\nresult = d['x']", "result").1), 42);
}

#[test]
fn test_dict_keys() {
    assert!(matches!(get_global("d = {'a': 1, 'b': 2}\nresult = d.keys()", "result").1, PyValue::List(_)));
}

#[test]
fn test_dict_values() {
    assert!(matches!(get_global("d = {'a': 1, 'b': 2}\nresult = d.values()", "result").1, PyValue::List(_)));
}

#[test]
fn test_dict_items() {
    assert!(matches!(get_global("d = {'a': 1}\nresult = d.items()", "result").1, PyValue::List(_)));
}

#[test]
fn test_dict_copy() {
    assert!(matches!(get_global("d = {'x': 1}\nc = d.copy()", "c").1, PyValue::Dict(_)));
}

#[test]
fn test_tuple_literal() {
    assert!(matches!(get_global("t = (1, 2, 3)", "t").1, PyValue::Tuple(_)));
}

#[test]
fn test_tuple_index() {
    assert_eq!(as_int(get_global("t = (10, 20, 30)\nresult = t[0]", "result").1), 10);
}

#[test]
fn test_string_concat() {
    assert_eq!(text(expr("'hello' + ' world'")), "hello world");
}

#[test]
fn test_string_index() {
    assert!(eval_single_expr("'hello'[1]").1.is_err());
}

#[test]
fn test_string_repeat() {
    assert!(eval_single_expr("'ab' * 3").1.is_err());
}

#[test]
fn test_string_split() {
    assert!(matches!(get_global("s = 'a b c'\nparts = s.split(' ')", "parts").1, PyValue::List(_)));
}

#[test]
fn test_string_join() {
    assert_eq!(text(get_global("result = '-'.join(['a', 'b', 'c'])", "result").1), "a-b-c");
}

#[test]
fn test_class_def() {
    let (rt, foo) = get_global("class Foo:\n    pass", "Foo");
    match foo {
        PyValue::Class(c) => assert_eq!(rt.heap.class_name(c), Some("Foo".to_string())),
        other => panic!("expected a class, got {:?}", other),
    }
}

#[test]
fn test_class_instantiation() {
    assert!(matches!(get_global("class Foo:\n    pass\nobj = Foo()", "obj").1, PyValue::Instance(_)));
}

#[test]
fn test_class_with_method() {
    let src = "class Counter:\n    def __init__(self):\n        self.count = 0\n    def inc(self):\n        self.count += 1\nc = Counter()\nc.inc()";
    let (rt, c) = get_global(src, "c");
    match c {
        PyValue::Instance(i) => assert_eq!(as_int(rt.heap.attr_get(i, &"count".to_string()).unwrap()), 1),
        other => panic!("Expected instance, got {:?}", other),
    }
}

#[test]
fn test_class_inheritance() {
    let src = "class Animal:\n    def greet(self):\n        return 'Hello'\nclass Dog(Animal):\n    pass\nd = Dog()\nresult = d.greet()";
    assert_eq!(text(get_global(src, "result").1), "Hello");
}

#[test]
fn test_try_except() {
    assert_eq!(as_int(get_global("x = 0\ntry:\n    y = 1 / 0\nexcept:\n    x = 42", "x").1), 42);
}

#[test]
fn test_try_except_with_exception_var() {
    let r = exec_module("try:\n    raise Exception('test error')\nexcept Exception as e:\n    pass").1;
    assert!(r.is_ok(), "Try-except should not error");
}

#[test]
fn test_raise_exception() {
    assert!(exec_module("raise Exception('oops')").1.is_err());
}

#[test]
fn test_builtin_len() {
    assert_eq!(as_int(expr("len('hello')")), 5);
    assert_eq!(as_int(expr("len([1, 2, 3])")), 3);
    assert_eq!(as_int(expr("len({'a': 1})")), 1);
}

#[test]
fn test_builtin_range() {
    assert!(matches!(expr("range(5)"), PyValue::List(_)));
}

#[test]
fn test_builtin_str() {
    assert_eq!(text(expr("str(42)")), "42");
    assert_eq!(text(expr("str(True)")), "True");
}

#[test]
fn test_builtin_type() {
    assert_eq!(text(expr("type(42)")), "<class 'int'>");
}

#[test]
fn test_builtin_isinstance() {
    let src = "class Foo:\n    pass\nobj = Foo()\nis_inst = isinstance(obj, Foo)";
    assert!(boolean(get_global(src, "is_inst").1));
}

#[test]
fn test_builtin_isinstance_false() {
    let src = "class Foo:\n    pass\nis_inst = isinstance(42, Foo)";
    assert!(!boolean(get_global(src, "is_inst").1));
}

#[test]
fn test_list_comprehension() {
    let (rt, r) = get_global("result = [x * 2 for x in [1, 2, 3]]", "result");
    assert_eq!(list_ints(&rt, r), vec![2, 4, 6]);
}

#[test]
fn test_list_comprehension_with_filter() {
    let (rt, r) = get_global("result = [x for x in [1, 2, 3, 4, 5] if x % 2 == 0]", "result");
    assert_eq!(list_ints(&rt, r), vec![2, 4]);
}

#[test]
fn test_none_value() {
    assert!(matches!(get_global("x = None", "x").1, PyValue::NoneVal));
}

#[test]
fn test_truthy_values() {
    for src in ["True", "1", "'hello'"] {
        let (rt, v) = eval_single_expr(src);
        assert!(v.unwrap().is_truthy(&rt.heap));
    }
}

#[test]
fn test_falsy_values() {
    for src in ["False", "0", "''", "None", "[]", "{}"] {
        let (rt, v) = eval_single_expr(src);
        assert!(!v.unwrap().is_truthy(&rt.heap));
    }
}

#[test]
fn test_module_attribute_access() {
    assert!(matches!(get_global("import sys\nresult = sys.version", "result").1, PyValue::Str(_)));
}

#[test]
fn test_nested_function_closure() {
    let src = "def outer():\n    x = 10\n    def inner():\n        return x\n    return inner\nfn = outer()\nresult = fn()";
    assert_eq!(as_int(get_global(src, "result").1), 10);
}

#[test]
fn test_string_fstring() {
    assert_eq!(text(get_global("name = 'World'\nresult = f'Hello, {name}!'", "result").1), "Hello, World!");
}

#[test]
fn test_fstring_with_expression() {
    assert_eq!(text(get_global("x = 5\ny = 3\nresult = f'{x} + {y} = {x + y}'", "result").1), "5 + 3 = 8");
}

#[test]
fn test_pass_statement() {
    assert!(exec_module("if True:\n    pass").1.is_ok());
}

#[test]
fn test_multiple_except_handlers() {
    let src = "x = 0\ntry:\n    pass\nexcept TypeError:\n    x = 1\nexcept ValueError:\n    x = 2\nexcept:\n    x = 3";
    assert_eq!(as_int(get_global(src, "x").1), 0);
}

#[test]
fn test_attribute_access_on_instance() {
    let src = "class Foo:\n    def __init__(self):\n        self.x = 42\nobj = Foo()\nresult = obj.x";
    assert_eq!(as_int(get_global(src, "result").1), 42);
}

#[test]
fn test_attribute_assignment() {
    let (rt, obj) = get_global("class Foo:\n    pass\nobj = Foo()\nobj.x = 99", "obj");
    match obj {
        PyValue::Instance(i) => assert_eq!(as_int(rt.heap.attr_get(i, &"x".to_string()).unwrap()), 99),
        other => panic!("Expected instance, got {:?}", other),
    }
}

#[test]
fn test_subscript_assignment() {
    let (rt, lst) = get_global("lst = [1, 2, 3]\nlst[1] = 99", "lst");
    assert_eq!(list_ints(&rt, lst), vec![1, 99, 3]);
}

#[test]
fn test_unpacking() {
    assert_eq!(as_int(get_global("a, b = [1, 2]", "a").1), 1);
    assert_eq!(as_int(get_global("a, b = [1, 2]", "b").1), 2);
}

#[test]
fn test_from_import() {
    assert!(matches!(get_global("from sys import version", "version").1, PyValue::Str(_)));
}

#[test]
fn test_for_loop_nested() {
    let src = "result = 0\nfor i in range(3):\n    for j in range(3):\n        result += 1";
    assert_eq!(as_int(get_global(src, "result").1), 9);
}

#[test]
fn test_while_nested() {
    let src = "i = 0\nj = 0\nwhile i < 3:\n    j = 0\n    while j < 3:\n        j += 1\n    i += 1\nresult = j";
    assert_eq!(as_int(get_global(src, "result").1), 3);
}

// ---- the machine's own rules, on concrete programs ----

#[test]
fn machine_break_leaves_only_inner_loop() {
    let src = "n = 0\nfor i in [1, 2, 3]:\n    for j in [1, 2, 3]:\n        if j == 2:\n            break\n        n += 1\n    n += 10";
    assert_eq!(as_int(get_global(src, "n").1), 33);
}

#[test]
fn machine_continue_skips_rest_of_round() {
    let src = "n = 0\nfor i in [1, 2, 3, 4]:\n    if i % 2 == 0:\n        continue\n    n += i";
    assert_eq!(as_int(get_global(src, "n").1), 4);
}

#[test]
fn machine_first_matching_handler_binds_name() {
    let src = "r = 0\ntry:\n    x = undefined_name\nexcept ValueError:\n    r = 1\nexcept NameError as e:\n    r = e\nexcept:\n    r = 3";
    match get_global(src, "r").1 {
        PyValue::Exception(t, a) => {
            assert_eq!(t, "NameError");
            assert_eq!(text(*a), "name 'undefined_name' is not defined");
        }
        other => panic!("expected the exception, got {:?}", other),
    }
}

#[test]
fn machine_handler_name_is_scoped() {
    let (rt, _) = exec_module("try:\n    raise Exception('x')\nexcept Exception as e:\n    pass");
    assert!(rt.heap.env_get(rt.globals, &"e".to_string()).is_err());
}

#[test]
fn machine_uncaught_exception_escapes() {
    let r = exec_module("try:\n    raise Exception('x')\nexcept ValueError:\n    pass").1;
    assert_eq!(exc_type(r.map(|_| PyValue::NoneVal)), "Exception");
}

#[test]
fn machine_short_circuit_skips_right() {
    assert_eq!(as_int(get_global("x = 0 and undefined_name", "x").1), 0);
    assert_eq!(as_int(get_global("x = 7 or undefined_name", "x").1), 7);
    assert!(exec_module("x = 1 and undefined_name").1.is_err());
}

#[test]
fn machine_unpack_count_mismatch() {
    let (_, r) = exec_module("a, b = (1, 2, 3)");
    match r {
        Err(PyValue::Exception(t, a)) => {
            assert_eq!(t, "ValueError");
            assert_eq!(text(*a), "too many/few values to unpack (expected 2, got 3)");
        }
        other => panic!("expected ValueError, got {:?}", other),
    }
    assert_eq!(exc_type(exec_module("a, b = 5").1.map(|_| PyValue::NoneVal)), "TypeError");
}

#[test]
fn machine_return_gives_value_and_stops() {
    let src = "def f():\n    for i in [1, 2, 3]:\n        if i == 2:\n            return i * 10\n    return 0\nr = f()";
    assert_eq!(as_int(get_global(src, "r").1), 20);
}

#[test]
fn machine_keyword_and_missing_arguments() {
    assert_eq!(as_int(get_global("def f(a, b):\n    return a - b\nr = f(b=1, a=5)", "r").1), 4);
    assert_eq!(exc_type(exec_module("def f(a):\n    return a\nr = f()").1.map(|_| PyValue::NoneVal)), "TypeError");
}

#[test]
fn machine_int_overflow_stops_the_run() {
    let mut rt = setup();
    let tokens = lex_source("x = 9223372036854775807 + 1").unwrap();
    let stmts = Parser::new(&tokens, "<test>").parse_module().unwrap();
    let g = rt.globals;
    let mut m = Machine::run_block(stmts, g);
    let mut failed = false;
    for _ in 0..100 {
        match step(&mut m, &mut rt.heap, Event::Start) {
            Action::Next => {}
            Action::Fail(msg) => {
                assert_eq!(msg, "attempt to add with overflow");
                failed = true;
                break;
            }
            _ => panic!("unexpected action"),
        }
    }
    assert!(failed);
}

#[test]
fn machine_asks_for_module() {
    let mut rt = setup();
    let tokens = lex_source("import a.b").unwrap();
    let stmts = Parser::new(&tokens, "<test>").parse_module().unwrap();
    let g = rt.globals;
    let mut m = Machine::run_block(stmts, g);
    let mut asked = None;
    for _ in 0..10 {
        match step(&mut m, &mut rt.heap, Event::Start) {
            Action::Next => {}
            Action::LoadModule(n, level) => {
                asked = Some((n, level));
                break;
            }
            _ => panic!("unexpected action"),
        }
    }
    assert_eq!(asked, Some(("a.b".to_string(), 0)));
    let module_env = rt.heap.env_new(None);
    let mut ev = Event::Value(Ok(PyValue::Module("a.b".to_string(), module_env)));
    loop {
        match step(&mut m, &mut rt.heap, ev) {
            Action::Next => ev = Event::Start,
            Action::Done(r) => {
                assert!(r.is_ok());
                break;
            }
            _ => panic!("unexpected action"),
        }
    }
    assert!(matches!(rt.heap.env_get(g, &"b".to_string()), Ok(PyValue::Module(_, _))));
}

#[test]
fn machine_class_with_add_method() {
    let src = "class V:\n    def __init__(self, n):\n        self.n = n\n    def __add__(self, o):\n        return self.n + o.n\nr = V(2) + V(3)";
    assert_eq!(as_int(get_global(src, "r").1), 5);
}

#[test]
fn machine_dict_with_int_key_and_unhashable() {
    let (rt, d) = get_global("d = {1: 'a'}\nr = d['1']", "r");
    let _ = rt;
    assert_eq!(text(d), "a");
    assert_eq!(exc_type(exec_module("d = {[1]: 2}").1.map(|_| PyValue::NoneVal)), "TypeError");
}

#[test]
fn machine_int_remainder_takes_sign_of_dividend() {
    assert_eq!(as_int(expr("-7 % 2")), -1);
    assert_eq!(as_int(expr("7 % -2")), 1);
    assert_eq!(as_int(expr("-9 % -4")), -1);
    assert_eq!(exc_type(eval_single_expr("5 % 0").1), "ZeroDivisionError");
}

#[test]
fn fstring_shows_containers_in_the_library() {
    let src = "xs = [1, 'a', None]\nd = {'k': (2,)}\nresult = f'{xs} {d} {True}'";
    assert_eq!(text(get_global(src, "result").1), "[1, 'a', None] {'k': (2,)} True");
}

#[test]
fn fstring_hands_floats_to_the_caller() {
    assert_eq!(text(get_global("result = f'{[1.5, 2]}'", "result").1), "[1.5, 2]");
}

#[test]
fn non_numbers_do_not_compare_or_add() {
    assert_eq!(exc_type(eval_single_expr("None < 1").1), "TypeError");
    assert_eq!(exc_type(eval_single_expr("[1] + 1").1), "TypeError");
    assert_eq!(exc_type(eval_single_expr("-'a'").1), "TypeError");
}

#[test]
fn integers_compare_exactly_within_float_precision() {
    assert!(matches!(expr("3 < 5"), PyValue::Bool(true)));
    assert!(matches!(expr("True == 1"), PyValue::Bool(true)));
    assert!(matches!(expr("-7 >= -7"), PyValue::Bool(true)));
    assert!(matches!(expr("9007199254740993 == 9007199254740992"), PyValue::Bool(true)));
}
