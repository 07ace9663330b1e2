use py5::ast::{Expr, LogicOp, Op, Stmt};
use py5::lexer::lex_source;
use py5::parser::Parser;

fn tokens_to_expr(source: &str) -> Expr {
    let tokens = lex_source(source).unwrap();
    let mut parser = Parser::new(&tokens, "<test>");
    parser.parse_expr().unwrap()
}

fn tokens_to_module(source: &str) -> Vec<Stmt> {
    let tokens = lex_source(source).unwrap();
    let mut parser = Parser::new(&tokens, "<test>");
    parser.parse_module().unwrap()
}

fn module_result(source: &str) -> Result<Vec<Stmt>, String> {
    let tokens = lex_source(source).unwrap();
    let mut parser = Parser::new(&tokens, "<test>");
    parser.parse_module()
}

#[test]
fn test_parse_int() {
    let expr = tokens_to_expr("42");
    assert_eq!(expr, Expr::Int(42));
}

#[test]
fn test_parse_float() {
    let expr = tokens_to_expr("3.14");
    assert_eq!(expr, Expr::Float("3.14".into()));
}

#[test]
fn test_parse_string() {
    let expr = tokens_to_expr("'hello'");
    assert_eq!(expr, Expr::String("hello".into()));
}

#[test]
fn test_parse_bool_true() {
    let expr = tokens_to_expr("True");
    assert_eq!(expr, Expr::Bool(true));
}

#[test]
fn test_parse_bool_false() {
    let expr = tokens_to_expr("False");
    assert_eq!(expr, Expr::Bool(false));
}

#[test]
fn test_parse_none() {
    let expr = tokens_to_expr("None");
    assert_eq!(expr, Expr::NoneVal);
}

#[test]
fn test_parse_name() {
    let expr = tokens_to_expr("x");
    assert_eq!(expr, Expr::Name("x".into()));
}

#[test]
fn test_parse_tuple() {
    let expr = tokens_to_expr("(1, 2, 3)");
    assert_eq!(expr, Expr::Tuple(vec![Expr::Int(1), Expr::Int(2), Expr::Int(3)]));
}

#[test]
fn test_parse_empty_tuple() {
    let expr = tokens_to_expr("()");
    assert_eq!(expr, Expr::Tuple(vec![]));
}

#[test]
fn test_parse_single_element_tuple() {
    let expr = tokens_to_expr("(42,)");
    assert_eq!(expr, Expr::Tuple(vec![Expr::Int(42)]));
}

#[test]
fn test_parse_list() {
    let expr = tokens_to_expr("[1, 2, 3]");
    assert_eq!(expr, Expr::List(vec![Expr::Int(1), Expr::Int(2), Expr::Int(3)]));
}

#[test]
fn test_parse_empty_list() {
    let expr = tokens_to_expr("[]");
    assert_eq!(expr, Expr::List(vec![]));
}

#[test]
fn test_parse_dict() {
    let expr = tokens_to_expr("{'a': 1, 'b': 2}");
    assert!(matches!(expr, Expr::Dict(_)));
}

#[test]
fn test_parse_empty_dict() {
    let expr = tokens_to_expr("{}");
    assert!(matches!(expr, Expr::Dict(_)));
    if let Expr::Dict(pairs) = expr {
        assert!(pairs.is_empty());
    }
}

#[test]
fn test_parse_add() {
    let expr = tokens_to_expr("1 + 2");
    assert_eq!(
        expr,
        Expr::BinOp(
            Op::Add,
            Box::new(Expr::Int(1)),
            Box::new(Expr::Int(2))
        )
    );
}

#[test]
fn test_parse_subtract() {
    let expr = tokens_to_expr("5 - 3");
    assert_eq!(
        expr,
        Expr::BinOp(
            Op::Sub,
            Box::new(Expr::Int(5)),
            Box::new(Expr::Int(3))
        )
    );
}

#[test]
fn test_parse_multiply() {
    let expr = tokens_to_expr("4 * 2");
    assert_eq!(
        expr,
        Expr::BinOp(
            Op::Mul,
            Box::new(Expr::Int(4)),
            Box::new(Expr::Int(2))
        )
    );
}

#[test]
fn test_parse_divide() {
    let expr = tokens_to_expr("10 / 2");
    assert_eq!(
        expr,
        Expr::BinOp(
            Op::Div,
            Box::new(Expr::Int(10)),
            Box::new(Expr::Int(2))
        )
    );
}

#[test]
fn test_parse_modulo() {
    let expr = tokens_to_expr("10 % 3");
    assert_eq!(
        expr,
        Expr::BinOp(
            Op::Mod,
            Box::new(Expr::Int(10)),
            Box::new(Expr::Int(3))
        )
    );
}

#[test]
fn test_parse_unary_neg() {
    let expr = tokens_to_expr("-5");
    assert_eq!(
        expr,
        Expr::UnaryOp(Op::Neg, Box::new(Expr::Int(5)))
    );
}

#[test]
fn test_parse_unary_not() {
    let expr = tokens_to_expr("not True");
    assert_eq!(
        expr,
        Expr::UnaryOp(Op::Not, Box::new(Expr::Bool(true)))
    );
}

#[test]
fn test_parse_comparison_eq() {
    let expr = tokens_to_expr("1 == 2");
    assert_eq!(
        expr,
        Expr::Compare(
            Op::Eq,
            Box::new(Expr::Int(1)),
            Box::new(Expr::Int(2))
        )
    );
}

#[test]
fn test_parse_comparison_ne() {
    let expr = tokens_to_expr("1 != 2");
    assert_eq!(
        expr,
        Expr::Compare(
            Op::Ne,
            Box::new(Expr::Int(1)),
            Box::new(Expr::Int(2))
        )
    );
}

#[test]
fn test_parse_comparison_lt() {
    let expr = tokens_to_expr("1 < 2");
    assert_eq!(
        expr,
        Expr::Compare(
            Op::Lt,
            Box::new(Expr::Int(1)),
            Box::new(Expr::Int(2))
        )
    );
}

#[test]
fn test_parse_comparison_le() {
    let expr = tokens_to_expr("1 <= 2");
    assert_eq!(
        expr,
        Expr::Compare(
            Op::Le,
            Box::new(Expr::Int(1)),
            Box::new(Expr::Int(2))
        )
    );
}

#[test]
fn test_parse_comparison_gt() {
    let expr = tokens_to_expr("2 > 1");
    assert_eq!(
        expr,
        Expr::Compare(
            Op::Gt,
            Box::new(Expr::Int(2)),
            Box::new(Expr::Int(1))
        )
    );
}

#[test]
fn test_parse_comparison_ge() {
    let expr = tokens_to_expr("2 >= 1");
    assert_eq!(
        expr,
        Expr::Compare(
            Op::Ge,
            Box::new(Expr::Int(2)),
            Box::new(Expr::Int(1))
        )
    );
}

#[test]
fn test_parse_logical_and() {
    let expr = tokens_to_expr("True and False");
    assert_eq!(
        expr,
        Expr::Logical(
            LogicOp::And,
            Box::new(Expr::Bool(true)),
            Box::new(Expr::Bool(false))
        )
    );
}

#[test]
fn test_parse_logical_or() {
    let expr = tokens_to_expr("True or False");
    assert_eq!(
        expr,
        Expr::Logical(
            LogicOp::Or,
            Box::new(Expr::Bool(true)),
            Box::new(Expr::Bool(false))
        )
    );
}

#[test]
fn test_parse_precedence_mul_over_add() {
    let expr = tokens_to_expr("1 + 2 * 3");
    assert_eq!(
        expr,
        Expr::BinOp(
            Op::Add,
            Box::new(Expr::Int(1)),
            Box::new(Expr::BinOp(
                Op::Mul,
                Box::new(Expr::Int(2)),
                Box::new(Expr::Int(3))
            ))
        )
    );
}

#[test]
fn test_parse_lambda() {
    let expr = tokens_to_expr("lambda x: x + 1");
    assert_eq!(
        expr,
        Expr::Lambda(
            vec!["x".into()],
            Box::new(Expr::BinOp(
                Op::Add,
                Box::new(Expr::Name("x".into())),
                Box::new(Expr::Int(1))
            ))
        )
    );
}

#[test]
fn test_parse_lambda_multi_param() {
    let expr = tokens_to_expr("lambda x, y: x + y");
    assert_eq!(
        expr,
        Expr::Lambda(
            vec!["x".into(), "y".into()],
            Box::new(Expr::BinOp(
                Op::Add,
                Box::new(Expr::Name("x".into())),
                Box::new(Expr::Name("y".into()))
            ))
        )
    );
}

#[test]
fn test_parse_function_call() {
    let expr = tokens_to_expr("foo()");
    assert!(matches!(expr, Expr::Call(_, _, _)));
}

#[test]
fn test_parse_function_call_with_args() {
    let expr = tokens_to_expr("foo(1, 2, 3)");
    if let Expr::Call(func, args, _) = expr {
        assert_eq!(func.as_ref(), &Expr::Name("foo".into()));
        assert_eq!(args.len(), 3);
    } else {
        panic!("Expected Call expression");
    }
}

#[test]
fn test_parse_attribute_access() {
    let expr = tokens_to_expr("obj.attr");
    assert_eq!(
        expr,
        Expr::Attribute(Box::new(Expr::Name("obj".into())), "attr".into())
    );
}

#[test]
fn test_parse_subscript() {
    let expr = tokens_to_expr("arr[0]");
    if let Expr::Subscript(obj, idx) = expr {
        assert_eq!(obj.as_ref(), &Expr::Name("arr".into()));
        assert_eq!(idx.as_ref(), &Expr::Int(0));
    } else {
        panic!("Expected Subscript expression");
    }
}

#[test]
fn test_parse_list_comprehension() {
    let expr = tokens_to_expr("[x for x in items]");
    assert!(matches!(expr, Expr::ListComp(_, _, _, _)));
}

#[test]
fn test_parse_list_comprehension_with_filter() {
    let expr = tokens_to_expr("[x for x in items if x > 0]");
    assert!(matches!(expr, Expr::ListComp(_, _, _, Some(_))));
}

#[test]
fn test_parse_assignment() {
    let stmts = tokens_to_module("x = 5");
    assert_eq!(stmts.len(), 1);
    assert!(matches!(stmts[0], Stmt::Assign(_, _)));
}

#[test]
fn test_parse_if_statement() {
    let stmts = tokens_to_module("if x:\n    pass");
    assert_eq!(stmts.len(), 1);
    assert!(matches!(&stmts[0], Stmt::If(_, _, _)));
}

#[test]
fn test_parse_while_statement() {
    let stmts = tokens_to_module("while True:\n    pass");
    assert_eq!(stmts.len(), 1);
    assert!(matches!(&stmts[0], Stmt::While(_, _)));
}

#[test]
fn test_parse_for_statement() {
    let stmts = tokens_to_module("for x in items:\n    pass");
    assert_eq!(stmts.len(), 1);
    assert!(matches!(&stmts[0], Stmt::For(_, _, _)));
}

#[test]
fn test_parse_function_def() {
    let stmts = tokens_to_module("def foo():\n    pass");
    assert_eq!(stmts.len(), 1);
    assert!(matches!(&stmts[0], Stmt::FunctionDef(_, _, _, _, _)));
}

#[test]
fn test_parse_function_def_with_params() {
    let stmts = tokens_to_module("def foo(x, y):\n    pass");
    if let Stmt::FunctionDef(name, params, _, _, _) = &stmts[0] {
        assert_eq!(name, "foo");
        assert_eq!(params.len(), 2);
    } else {
        panic!("Expected FunctionDef");
    }
}

#[test]
fn test_parse_function_def_with_return_type() {
    let stmts = tokens_to_module("def foo() -> int:\n    pass");
    if let Stmt::FunctionDef(name, _, _, _, _) = &stmts[0] {
        assert_eq!(name, "foo");
    } else {
        panic!("Expected FunctionDef");
    }
}

#[test]
fn test_parse_class_def() {
    let stmts = tokens_to_module("class Foo:\n    pass");
    assert_eq!(stmts.len(), 1);
    assert!(matches!(&stmts[0], Stmt::ClassDef(_, _, _)));
}

#[test]
fn test_parse_class_def_with_base() {
    let stmts = tokens_to_module("class Foo(Bar):\n    pass");
    if let Stmt::ClassDef(name, base, _) = &stmts[0] {
        assert_eq!(name, "Foo");
        assert!(base.is_some());
    } else {
        panic!("Expected ClassDef");
    }
}

#[test]
fn test_parse_return() {
    let stmts = tokens_to_module("return 42");
    assert_eq!(stmts.len(), 1);
    assert!(matches!(&stmts[0], Stmt::Return(_)));
}

#[test]
fn test_parse_return_none() {
    let stmts = tokens_to_module("return");
    assert_eq!(stmts.len(), 1);
    assert!(matches!(&stmts[0], Stmt::Return(None)));
}

#[test]
fn test_parse_break() {
    let stmts = tokens_to_module("break");
    assert_eq!(stmts.len(), 1);
    assert!(matches!(&stmts[0], Stmt::Break));
}

#[test]
fn test_parse_continue() {
    let stmts = tokens_to_module("continue");
    assert_eq!(stmts.len(), 1);
    assert!(matches!(&stmts[0], Stmt::Continue));
}

#[test]
fn test_parse_pass() {
    let stmts = tokens_to_module("pass");
    assert_eq!(stmts.len(), 1);
    assert!(matches!(&stmts[0], Stmt::Pass));
}

#[test]
fn test_parse_try_except() {
    let stmts = tokens_to_module("try:\n    pass\nexcept:\n    pass");
    assert_eq!(stmts.len(), 1);
    assert!(matches!(&stmts[0], Stmt::Try(_, _)));
}

#[test]
fn test_parse_raise() {
    let stmts = tokens_to_module("raise Exception('error')");
    assert_eq!(stmts.len(), 1);
    assert!(matches!(&stmts[0], Stmt::Raise(_)));
}

#[test]
fn test_parse_import() {
    let stmts = tokens_to_module("import os");
    assert_eq!(stmts.len(), 1);
    assert!(matches!(&stmts[0], Stmt::Import(_)));
}

#[test]
fn test_parse_from_import() {
    let stmts = tokens_to_module("from os import path");
    assert_eq!(stmts.len(), 1);
    assert!(matches!(&stmts[0], Stmt::FromImport(_, _, _)));
}

#[test]
fn test_parse_augmented_assignment_plus() {
    let stmts = tokens_to_module("x += 1");
    assert_eq!(stmts.len(), 1);
    assert!(matches!(&stmts[0], Stmt::Assign(Expr::Name(_), _)));
}

#[test]
fn test_parse_augmented_assignment_minus() {
    let stmts = tokens_to_module("x -= 1");
    assert_eq!(stmts.len(), 1);
    assert!(matches!(&stmts[0], Stmt::Assign(Expr::Name(_), _)));
}

#[test]
fn test_parse_multiple_statements() {
    let stmts = tokens_to_module("x = 1\ny = 2\nz = 3");
    assert_eq!(stmts.len(), 3);
}

#[test]
fn test_parse_expression_statement() {
    let stmts = tokens_to_module("foo()");
    assert_eq!(stmts.len(), 1);
    assert!(matches!(&stmts[0], Stmt::Expr(_)));
}

#[test]
fn test_parse_nested_call() {
    let expr = tokens_to_expr("foo(bar(x))");
    if let Expr::Call(_, args, _) = expr {
        if let Expr::Call(_, _, _) = args[0] {
            // OK
        } else {
            panic!("Expected nested call");
        }
    } else {
        panic!("Expected Call expression");
    }
}

#[test]
fn test_parse_chained_attribute() {
    let expr = tokens_to_expr("a.b.c");
    let expected = Expr::Attribute(
        Box::new(Expr::Attribute(Box::new(Expr::Name("a".into())), "b".into())),
        "c".into(),
    );
    assert_eq!(expr, expected);
}

#[test]
fn test_parse_chained_comparison() {
    let expr = tokens_to_expr("1 < 2 < 3");
    if let Expr::Compare(op, _left, _right) = expr {
        assert_eq!(op, Op::Lt);
    } else {
        panic!("Expected Compare expression, got {:?}", expr);
    }
}


// Further cases.

#[test]
fn float_literal_keeps_its_value() {
    match tokens_to_expr("3.14") {
        Expr::Float(t) => assert_eq!(t.parse::<f64>().unwrap(), 3.14),
        other => panic!("expected a float, got {:?}", other),
    }
}

#[test]
fn augmented_assignment_desugars() {
    let stmts = tokens_to_module("x += 1");
    assert_eq!(
        stmts[0],
        Stmt::Assign(
            Expr::Name("x".into()),
            Expr::BinOp(Op::Add, Box::new(Expr::Name("x".into())), Box::new(Expr::Int(1)))
        )
    );
}

#[test]
fn bare_expression_list_is_a_tuple() {
    let stmts = tokens_to_module("a, b = 1, 2");
    assert_eq!(
        stmts[0],
        Stmt::Assign(
            Expr::Tuple(vec![Expr::Name("a".into()), Expr::Name("b".into())]),
            Expr::Tuple(vec![Expr::Int(1), Expr::Int(2)])
        )
    );
}

#[test]
fn if_elif_else_nests() {
    let stmts = tokens_to_module("if a:\n    x = 1\nelif b:\n    x = 2\nelse:\n    x = 3\n");
    assert_eq!(stmts.len(), 1);
    match &stmts[0] {
        Stmt::If(_, body, orelse) => {
            assert_eq!(body.len(), 1);
            assert_eq!(orelse.len(), 1);
            assert!(matches!(&orelse[0], Stmt::If(_, _, e) if e.len() == 1));
        }
        other => panic!("expected if, got {:?}", other),
    }
}

#[test]
fn def_with_defaults_and_star_params() {
    let stmts = tokens_to_module("def f(a, b=2, *rest, **kw):\n    return a\n");
    match &stmts[0] {
        Stmt::FunctionDef(name, params, vararg, kwarg, body) => {
            assert_eq!(name, "f");
            assert_eq!(params.len(), 2);
            assert_eq!(params[0], ("a".to_string(), None));
            assert_eq!(params[1], ("b".to_string(), Some(Expr::Int(2))));
            assert_eq!(vararg.as_deref(), Some("rest"));
            assert_eq!(kwarg.as_deref(), Some("kw"));
            assert_eq!(body.len(), 1);
        }
        other => panic!("expected def, got {:?}", other),
    }
}

#[test]
fn try_handlers_record_names_and_binding() {
    let src = "try:\n    pass\nexcept (KeyError, IndexError) as e:\n    pass\nexcept ValueError:\n    pass\n";
    let stmts = tokens_to_module(src);
    match &stmts[0] {
        Stmt::Try(_, handlers) => {
            assert_eq!(handlers.len(), 2);
            assert_eq!(handlers[0].0, vec!["KeyError".to_string(), "IndexError".to_string()]);
            assert_eq!(handlers[0].1.as_deref(), Some("e"));
            assert_eq!(handlers[1].0, vec!["ValueError".to_string()]);
            assert_eq!(handlers[1].1, None);
        }
        other => panic!("expected try, got {:?}", other),
    }
}

#[test]
fn try_without_except_is_an_error() {
    let r = module_result("try:\n    pass\nx = 1\n");
    assert!(r.is_err());
}

#[test]
fn relative_from_import_counts_dots() {
    let stmts = tokens_to_module("from ..pkg.mod import a, b\n");
    assert_eq!(
        stmts[0],
        Stmt::FromImport("pkg.mod".into(), vec!["a".into(), "b".into()], 2)
    );
}

#[test]
fn dotted_import() {
    let stmts = tokens_to_module("import a.b.c\n");
    assert_eq!(stmts[0], Stmt::Import("a.b.c".into()));
}

#[test]
fn keyword_arguments_in_calls() {
    let e = tokens_to_expr("f(1, x=2)");
    assert_eq!(
        e,
        Expr::Call(Box::new(Expr::Name("f".into())), vec![Expr::Int(1)], vec![("x".into(), Expr::Int(2))])
    );
}

#[test]
fn syntax_error_names_the_place() {
    let tokens = lex_source("x = )").unwrap();
    let mut parser = Parser::new(&tokens, "<test>");
    let r = parser.parse_module();
    let msg = r.unwrap_err();
    assert!(msg.contains("<test>"), "message: {}", msg);
}

#[test]
fn annotated_parameters_are_skipped() {
    let stmts = tokens_to_module("def f(x: int, y: str = 'a') -> int:\n    return x\n");
    match &stmts[0] {
        Stmt::FunctionDef(_, params, _, _, _) => {
            assert_eq!(params[0].0, "x");
            assert_eq!(params[1], ("y".to_string(), Some(Expr::String("a".into()))));
        }
        other => panic!("expected def, got {:?}", other),
    }
}

#[test]
fn logical_operators_bind_looser_than_comparison() {
    let e = tokens_to_expr("a < b and not c");
    assert_eq!(
        e,
        Expr::Logical(
            LogicOp::And,
            Box::new(Expr::Compare(Op::Lt, Box::new(Expr::Name("a".into())), Box::new(Expr::Name("b".into())))),
            Box::new(Expr::UnaryOp(Op::Not, Box::new(Expr::Name("c".into()))))
        )
    );
}

#[test]
fn decorated_definitions_nest() {
    let stmts = tokens_to_module("@a\n@b\ndef f():\n    return 1\n");
    assert_eq!(stmts.len(), 1);
    match &stmts[0] {
        Stmt::Decorated(Expr::Name(a), inner) => {
            assert_eq!(a, "a");
            match &**inner {
                Stmt::Decorated(Expr::Name(b), def) => {
                    assert_eq!(b, "b");
                    assert!(matches!(&**def, Stmt::FunctionDef(n, _, _, _, _) if n == "f"));
                }
                other => panic!("expected a decorator, got {:?}", other),
            }
        }
        other => panic!("expected a decorator, got {:?}", other),
    }
    assert!(module_result("@a\nx = 1\n").is_err());
}

#[test]
fn yield_statements() {
    let stmts = tokens_to_module("def g():\n    yield 1, 2\n    yield\n");
    match &stmts[0] {
        Stmt::FunctionDef(_, _, _, _, body) => {
            assert!(matches!(&body[0], Stmt::Yield(Some(Expr::Tuple(t))) if t.len() == 2));
            assert!(matches!(&body[1], Stmt::Yield(None)));
        }
        other => panic!("expected a def, got {:?}", other),
    }
}
