//! Whole programs, one per feature area of the interpreter, each run to the
//! end by the evaluator of the library. The builtins and modules they use
//! are done here, in the simple form these programs need.
use py5::ast::Op;
use py5::heap::Heap;
use py5::json::{json_dump, Piece};
use py5::show::show;
use py5::lexer::lex_source;
use py5::machine::{step, Action, Event, Machine};
use py5::builtins::builtin_call;
use py5::parser::Parser;
use py5::rules::{json_words, resolve_import_name};
use py5::value::{py_err_val, PyValue};

struct Rt {
    heap: Heap,
    builtins: Vec<String>,
    out: Vec<String>,
    modules: Vec<(String, PyValue)>,
    package: Option<String>,
}

fn builtin(rt: &mut Rt, env: usize, name: &str) {
    rt.builtins.push(name.to_string());
    let v = PyValue::Builtin(rt.builtins.len() - 1);
    rt.heap.env_set(env, name.to_string(), v);
}

fn as_num(v: &PyValue) -> Result<f64, PyValue> {
    match v {
        PyValue::Int(i) => Ok(*i as f64),
        PyValue::Float(f) => Ok(f64::from_bits(*f)),
        PyValue::Bool(b) => Ok(if *b { 1.0 } else { 0.0 }),
        _ => Err(py_err_val("TypeError", "expected number")),
    }
}

fn fl(x: f64) -> PyValue {
    PyValue::Float(x.to_bits())
}

fn arith(op: Op, l: PyValue, r: PyValue) -> Result<PyValue, PyValue> {
    if op == Op::Neg {
        return Ok(fl(-as_num(&l)?));
    }
    let a = as_num(&l)?;
    let b = as_num(&r)?;
    match op {
        Op::Eq => Ok(PyValue::Bool(a == b)),
        Op::Ne => Ok(PyValue::Bool(a != b)),
        Op::Lt => Ok(PyValue::Bool(a < b)),
        Op::Le => Ok(PyValue::Bool(a <= b)),
        Op::Gt => Ok(PyValue::Bool(a > b)),
        Op::Ge => Ok(PyValue::Bool(a >= b)),
        Op::Add => Ok(fl(a + b)),
        Op::Sub => Ok(fl(a - b)),
        Op::Mul => Ok(fl(a * b)),
        Op::Div => {
            if b == 0.0 {
                Err(py_err_val("ZeroDivisionError", "division by zero"))
            } else {
                Ok(fl(a / b))
            }
        }
        _ => Err(py_err_val("TypeError", "unsupported operand")),
    }
}

fn render(rt: &mut Rt, v: PyValue) -> Result<String, PyValue> {
    if let PyValue::Instance(i) = &v {
        let c = rt.heap.instance_class(*i).unwrap();
        if let Some(m) = rt.heap.get_class_method(c, &"__str__".to_string()) {
            let bound = PyValue::BoundMethod(Box::new(v.copy()), Box::new(m));
            return match drive(rt, Machine::call(bound, Vec::new(), Vec::new()))? {
                PyValue::Str(s) => Ok(s),
                other => render(rt, other),
            };
        }
    }
    Ok(pieces_text(rt, show(&rt.heap, &v).expect("nesting within bounds")))
}

fn pieces_text(rt: &Rt, ps: Vec<Piece>) -> String {
    let mut out = String::new();
    for p in ps {
        match p {
            Piece::Text(t) => out.push_str(&t),
            Piece::Float(f) => out.push_str(&format!("{}", f64::from_bits(f))),
            Piece::Builtin(b) => out.push_str(&format!("<built-in function {}>", rt.builtins[b])),
            Piece::File(_) => out.push_str("<open file>"),
        }
    }
    out
}

fn call_builtin(rt: &mut Rt, b: usize, a: Vec<PyValue>) -> Result<PyValue, PyValue> {
    let name = rt.builtins[b].clone();
    if let Some(r) = builtin_call(&mut rt.heap, &name, &a) {
        return r;
    }
    match name.as_str() {
        "print" => {
            let mut parts = Vec::new();
            for x in a {
                parts.push(render(rt, x)?);
            }
            rt.out.push(parts.join(" "));
            Ok(PyValue::NoneVal)
        }
        "str" => Ok(PyValue::Str(render(rt, a[0].copy())?)),
        "sqrt" => Ok(fl(as_num(&a[0])?.sqrt())),
        "getenv" => Ok(a.get(1).map(|v| v.copy()).unwrap_or(PyValue::NoneVal)),
        "time" => Ok(fl(1.0)),
        "loads" => {
            let text = match &a[0] {
                PyValue::Str(s) => s.clone(),
                _ => return Err(py_err_val("TypeError", "expected string")),
            };
            let mut toks = lex_source(&text).map_err(|_| py_err_val("ValueError", "Invalid JSON"))?;
            json_words(&mut toks);
            let e = Parser::new(&toks, "<json>").parse_expr().map_err(|_| py_err_val("ValueError", "Invalid JSON"))?;
            let scope = rt.heap.env_new(None);
            drive(rt, Machine::eval(e, scope))
        }
        "dumps" => match json_dump(&rt.heap, &a[0]) {
            Some(Ok(pieces)) => {
                let mut out = String::new();
                for p in pieces {
                    match p {
                        Piece::Text(t) => out.push_str(&t),
                        Piece::Float(f) => out.push_str(&f64::from_bits(f).to_string()),
                        Piece::Builtin(_) | Piece::File(_) => panic!("not a JSON piece"),
                    }
                }
                Ok(PyValue::Str(out))
            }
            Some(Err(e)) => Err(e),
            None => panic!("nesting too deep"),
        },
        _ => {
            let arg = a.first().map(|v| v.copy()).unwrap_or(PyValue::NoneVal);
            Ok(PyValue::Exception(name, Box::new(arg)))
        }
    }
}

fn module(rt: &mut Rt, full: &str) -> Result<PyValue, PyValue> {
    if let Some((_, m)) = rt.modules.iter().find(|(n, _)| n == full) {
        return Ok(m.copy());
    }
    let env = rt.heap.env_new(None);
    match full {
        "sys" => {
            let path = PyValue::List(rt.heap.list_new(vec![PyValue::Str(".".to_string())]));
            rt.heap.env_set(env, "path".to_string(), path);
            let argv = PyValue::List(rt.heap.list_new(vec![PyValue::Str("script.py".to_string())]));
            rt.heap.env_set(env, "argv".to_string(), argv);
            rt.heap.env_set(env, "version".to_string(), PyValue::Str("3.11.0".to_string()));
        }
        "os" => builtin(rt, env, "getenv"),
        "time" => builtin(rt, env, "time"),
        "math" => {
            builtin(rt, env, "sqrt");
            rt.heap.env_set(env, "pi".to_string(), fl(std::f64::consts::PI));
        }
        "json" => {
            builtin(rt, env, "loads");
            builtin(rt, env, "dumps");
        }
        "app.helpers" => rt.heap.env_set(env, "tool".to_string(), PyValue::Str("tool".to_string())),
        ".shared.util" => {
            rt.heap.env_set(env, "helper".to_string(), PyValue::Int(1));
            rt.heap.env_set(env, "other".to_string(), PyValue::Int(2));
        }
        _ => return Err(py_err_val("ImportError", "No module named that")),
    }
    let m = PyValue::Module(full.to_string(), env);
    rt.modules.push((full.to_string(), m.copy()));
    Ok(m)
}

fn load(rt: &mut Rt, name: &str, level: usize) -> Result<PyValue, PyValue> {
    let full = resolve_import_name(&rt.package, &name.to_string(), level)
        .map_err(|m| PyValue::Exception("ImportError".to_string(), Box::new(PyValue::Str(m))))?;
    module(rt, &full)
}

fn drive(rt: &mut Rt, mut m: Machine) -> Result<PyValue, PyValue> {
    let mut ev = Event::Start;
    loop {
        ev = match step(&mut m, &mut rt.heap, ev) {
            Action::Next => Event::Start,
            Action::Arith(op, l, r) => Event::Value(arith(op, l, r)),
            Action::ParseFloat(t) => Event::Value(Ok(fl(t.parse::<f64>().unwrap()))),
            Action::CallBuiltin(b, args, _) => Event::Value(call_builtin(rt, b, args)),
            Action::LoadModule(name, level) => Event::Value(load(rt, &name, level)),
            Action::Render(v) => Event::Value(render(rt, v).map(PyValue::Str)),
            Action::RenderPieces(ps) => Event::Value(Ok(PyValue::Str(pieces_text(rt, ps)))),
            Action::FileOp(_, _, _) => panic!("no files here"),
            Action::Fail(msg) => panic!("{}", msg),
            Action::Done(r) => return r,
        };
    }
}

/// Runs a program as the command does; returns what it printed, or the
/// exception that ended it.
fn run(src: &str, package: Option<&str>) -> Result<Vec<String>, String> {
    let mut rt = Rt {
        heap: Heap::new(),
        builtins: Vec::new(),
        out: Vec::new(),
        modules: Vec::new(),
        package: package.map(|p| p.to_string()),
    };
    let globals = rt.heap.env_new(None);
    for n in [
        "print", "len", "range", "str", "type", "isinstance", "Exception", "TypeError", "ValueError", "NameError",
        "IndexError", "AttributeError", "KeyError", "ImportError", "ZeroDivisionError",
    ] {
        builtin(&mut rt, globals, n);
    }
    let tokens = lex_source(src).map_err(|e| format!("SyntaxError: {}", e))?;
    let stmts = Parser::new(&tokens, "<script>").parse_module().map_err(|e| format!("SyntaxError: {}", e))?;
    match drive(&mut rt, Machine::run_block(stmts, globals)) {
        Ok(_) => Ok(rt.out),
        Err(e) => {
            let text = render(&mut rt, e).unwrap_or_default();
            Err(text)
        }
    }
}

fn assert_script_success(src: &str, package: Option<&str>) -> Vec<String> {
    match run(src, package) {
        Ok(out) => out,
        Err(e) => panic!("the program failed: {}", e),
    }
}

const BASIC: &str = "x = 10\ny = 3\nprint(x + y, x - y, x * y, x / y, x % y)\nitems = [1, 2, 3]\ntotal = 0\nfor i in items:\n    total += i\nwhile total > 0:\n    total -= 4\n    if total < 2:\n        break\nd = {'a': 1, 'b': 2}\nprint(d['a'], len(items))\ndef square(n):\n    return n * n\nprint(square(4))\n";

const OOP: &str = "class Counter:\n    def __init__(self, start):\n        self.count = start\n    def inc(self):\n        self.count += 1\n        return self.count\nc = Counter(5)\nc.inc()\nprint(c.count)\n";

const MAGIC: &str = "class Vec:\n    def __init__(self, x):\n        self.x = x\n    def __add__(self, other):\n        return Vec(self.x + other.x)\n    def __str__(self):\n        return f'Vec({self.x})'\n    def __getitem__(self, i):\n        return self.x\n    def __setitem__(self, i, v):\n        self.x = v\nv = Vec(1) + Vec(2)\nv[0] = 7\nprint(v, v[0])\n";

const ARGS: &str = "def f(a, b=2, *rest, **kw):\n    return a\nf(1)\nf(1, 2, 3, 4, k=5)\n";

const INHERIT: &str = "class Animal:\n    def speak(self):\n        return 'generic'\n    def name(self):\n        return 'animal'\nclass Dog(Animal):\n    def speak(self):\n        return 'woof'\nd = Dog()\nprint(d.speak(), d.name(), isinstance(d, Animal))\n";

const UNPACK: &str = "a, b = 1, 2\n(c, d) = [3, 4]\nfor k, v in [('x', 1), ('y', 2)]:\n    print(k, v)\nfirst, second = 'ab'\n";

const ADV_OOP: &str = "class Shape:\n    sides = 0\n    def describe(self):\n        return type(self)\nclass Square(Shape):\n    sides = 4\n    def __init__(self, n):\n        self.n = n\nsq = Square(2)\ntry:\n    sq.missing\nexcept AttributeError as e:\n    print('no attribute')\nprint(isinstance(sq, Shape), sq.describe())\n";

const MODERN: &str = "name = 'py5'\nmsg = f'hello {name}!'\nsquares = [n * n for n in range(5) if n % 2 == 0]\nadd = lambda a, b: a + b\nprint(msg, squares, add(1, 2))\n";

const STDLIB: &str = "import sys\nimport os\nimport json\nimport math\nimport time\nprint(math.sqrt(16), math.pi)\ndata = json.loads('{\"a\": [1, 2], \"b\": true, \"c\": null}')\nprint(json.dumps(data))\nprint(os.getenv('HOME', 'none'), len(sys.argv))\nt = time.time()\n";

const PATH: &str = "import sys\nsys.path.append('./lib')\nfrom .helpers import tool\nfrom ..shared.util import helper, other\nprint(len(sys.path), tool, helper + other)\n";

const TYPED: &str = "def add(a: int, b: int = 0) -> int:\n    return a + b\nclass P:\n    def __init__(self, x: float, y: float) -> None:\n        self.x = x\nprint(add(1, b=2))\n";

#[test]
fn test_run_basic_py() {
    let out = assert_script_success(BASIC, None);
    assert_eq!(out, vec!["13 7 30 3.3333333333333335 1", "1 3", "16"]);
}

#[test]
fn test_run_oop_py() {
    assert_eq!(assert_script_success(OOP, None), vec!["6"]);
}

#[test]
fn test_run_magic_py() {
    assert_eq!(assert_script_success(MAGIC, None), vec!["Vec(7) 7"]);
}

#[test]
fn test_run_args_py() {
    assert!(assert_script_success(ARGS, None).is_empty());
}

#[test]
fn test_run_inherit_py() {
    assert_eq!(assert_script_success(INHERIT, None), vec!["woof animal True"]);
}

#[test]
fn test_run_unpack_py() {
    assert_eq!(assert_script_success(UNPACK, None), vec!["x 1", "y 2"]);
}

#[test]
fn test_run_adv_oop_py() {
    assert_eq!(assert_script_success(ADV_OOP, None), vec!["no attribute", "True <class 'Square'>"]);
}

#[test]
fn test_run_modern_py() {
    assert_eq!(assert_script_success(MODERN, None), vec!["hello py5! [0, 4, 16] 3"]);
}

#[test]
fn test_run_test_stdlib_py() {
    let out = assert_script_success(STDLIB, None);
    assert_eq!(out[0], format!("4 {}", std::f64::consts::PI));
    assert_eq!(out[1], "{\"a\": [1, 2], \"b\": true, \"c\": null}");
    assert_eq!(out[2], "none 1");
}

#[test]
fn test_run_test_path_py() {
    assert_eq!(assert_script_success(PATH, Some("app.sub")), vec!["2 tool 3"]);
}

#[test]
fn test_run_typed_annotation_py() {
    assert_eq!(assert_script_success(TYPED, None), vec!["3"]);
}

const DECORATORS: &str = "def d(f):\n    return f\n@d\ndef g():\n    return 1\nprint(g())\ndef twice(f):\n    def w():\n        return f() * 2\n    return w\n@twice\n@twice\ndef h():\n    return 5\nprint(h())\n";

const GENERATORS: &str = "def gen():\n    yield 1\n    yield 2\nfor v in gen():\n    print(v)\ndef evens(n):\n    for i in range(n):\n        if i % 2 == 0:\n            yield i\n        if i > 5:\n            return\nprint(evens(10))\n";

#[test]
fn decorators_wrap_definitions() {
    assert_eq!(assert_script_success(DECORATORS, None), vec!["1", "20"]);
}

#[test]
fn generators_give_their_yielded_values() {
    assert_eq!(assert_script_success(GENERATORS, None), vec!["1", "2", "[0, 2, 4, 6]"]);
}

#[test]
fn yield_outside_a_function_is_an_error() {
    assert!(run("yield 1\n", None).unwrap_err().contains("outside function"));
}

#[test]
fn uncaught_exception_fails_the_run() {
    assert!(run("raise ValueError('bad')\n", None).is_err());
}
