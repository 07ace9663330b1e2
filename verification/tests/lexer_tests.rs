use py5::lexer::{lex_checked, lex_source, TokenKind};

fn check_token_kinds(source: &str, expected: &[TokenKind]) {
    let tokens = lex_source(source).unwrap();
    let without_eof: Vec<&TokenKind> = tokens
        .iter()
        .map(|t| &t.kind)
        .filter(|k| !matches!(k, TokenKind::Eof))
        .collect();
    for (i, ek) in expected.iter().enumerate() {
        assert!(
            without_eof
                .iter()
                .any(|k| core::mem::discriminant(*k) == core::mem::discriminant(ek)),
            "Expected {:?} not found in tokens (at index {}): {:?}",
            ek,
            i,
            without_eof
        );
    }
}

fn check_token_at(source: &str, pos: usize, expected: &TokenKind) {
    let tokens = lex_source(source).unwrap();
    let filtered: Vec<&TokenKind> = tokens
        .iter()
        .filter(|t| !matches!(t.kind, TokenKind::Newline | TokenKind::Indent | TokenKind::Dedent))
        .map(|t| &t.kind)
        .collect();
    assert!(pos < filtered.len(), "Position {} out of range (len {})", pos, filtered.len());
    assert_eq!(
        filtered[pos], expected,
        "Token at position {}: expected {:?}, got {:?}",
        pos, expected, filtered[pos]
    );
}

#[test]
fn test_keywords() {
    let src = "def class if elif else while for in return break continue pass try except raise as and or not None True False lambda import from";
    check_token_kinds(
        src,
        &[
            TokenKind::Def,
            TokenKind::Class,
            TokenKind::If,
            TokenKind::Elif,
            TokenKind::Else,
            TokenKind::While,
            TokenKind::For,
            TokenKind::In,
            TokenKind::Return,
            TokenKind::Break,
            TokenKind::Continue,
            TokenKind::Pass,
            TokenKind::Try,
            TokenKind::Except,
            TokenKind::Raise,
            TokenKind::As,
            TokenKind::And,
            TokenKind::Or,
            TokenKind::Not,
            TokenKind::NoneVal,
            TokenKind::TrueVal,
            TokenKind::FalseVal,
            TokenKind::Lambda,
            TokenKind::Import,
            TokenKind::From,
        ],
    );
}

#[test]
fn test_numbers() {
    let src = "42 -17 3.14 -2.5";
    let tokens = lex_source(src).unwrap();
    assert!(!tokens.is_empty());
    check_token_at(src, 0, &TokenKind::Int(42));
    check_token_at(src, 1, &TokenKind::Minus);
    check_token_at(src, 2, &TokenKind::Int(17));
    check_token_at(src, 3, &TokenKind::Float("3.14".into()));
    let tokens = lex_source(src).unwrap();
    match &tokens[3].kind {
        TokenKind::Float(t) => assert_eq!(t.parse::<f64>().unwrap(), 3.14),
        other => panic!("expected a float, got {:?}", other),
    }
}

#[test]
fn test_string() {
    let src = "'hello'";
    check_token_at(src, 0, &TokenKind::String("hello".into()));
}

#[test]
fn test_escape_sequences() {
    let src = "'line\\nhere'";
    check_token_at(src, 0, &TokenKind::String("line\nhere".into()));
}

#[test]
fn test_fstring() {
    let src = "f'hello {name}'";
    check_token_at(src, 0, &TokenKind::FString("hello {name}".into()));
}

#[test]
fn test_operators() {
    let src = "+ - * / % = == != < > <= >=";
    check_token_at(src, 0, &TokenKind::Plus);
    check_token_at(src, 1, &TokenKind::Minus);
    check_token_at(src, 2, &TokenKind::Star);
    check_token_at(src, 3, &TokenKind::Slash);
    check_token_at(src, 4, &TokenKind::Percent);
    check_token_at(src, 5, &TokenKind::Equal);
    check_token_at(src, 6, &TokenKind::Eqeq);
    check_token_at(src, 7, &TokenKind::Ne);
    check_token_at(src, 8, &TokenKind::Lt);
    check_token_at(src, 9, &TokenKind::Gt);
    check_token_at(src, 10, &TokenKind::Le);
    check_token_at(src, 11, &TokenKind::Ge);
}

#[test]
fn test_delimiters() {
    let src = "( ) [ ] { } , : .";
    check_token_at(src, 0, &TokenKind::Lparen);
    check_token_at(src, 1, &TokenKind::Rparen);
    check_token_at(src, 2, &TokenKind::Lbracket);
    check_token_at(src, 3, &TokenKind::Rbracket);
    check_token_at(src, 4, &TokenKind::Lbrace);
    check_token_at(src, 5, &TokenKind::Rbrace);
    check_token_at(src, 6, &TokenKind::Comma);
    check_token_at(src, 7, &TokenKind::Colon);
    check_token_at(src, 8, &TokenKind::Dot);
}

#[test]
fn test_names() {
    let src = "x foo bar123 _private";
    check_token_at(src, 0, &TokenKind::Name("x".into()));
    check_token_at(src, 1, &TokenKind::Name("foo".into()));
    check_token_at(src, 2, &TokenKind::Name("bar123".into()));
    check_token_at(src, 3, &TokenKind::Name("_private".into()));
}

#[test]
fn test_simple_assignment() {
    let src = "x = 5";
    check_token_at(src, 0, &TokenKind::Name("x".into()));
    check_token_at(src, 1, &TokenKind::Equal);
    check_token_at(src, 2, &TokenKind::Int(5));
}

#[test]
fn test_arrow() {
    let src = "def foo() -> int:\n    pass";
    let tokens = lex_source(src).unwrap();
    assert!(tokens.iter().any(|t| matches!(t.kind, TokenKind::Rarrow)));
}

#[test]
fn test_indentation_block() {
    let src = "if True:\n    x = 1\n    y = 2";
    let tokens = lex_source(src).unwrap();
    let has_indent = tokens.iter().any(|t| matches!(t.kind, TokenKind::Indent));
    let has_dedent = tokens.iter().any(|t| matches!(t.kind, TokenKind::Dedent));
    assert!(has_indent, "Should have Indent token");
    assert!(has_dedent, "Should have Dedent token");
}

#[test]
fn test_empty_line_no_indent() {
    let src = "x = 1\n\ny = 2";
    let tokens = lex_source(src).unwrap();
    let filtered: Vec<_> = tokens
        .iter()
        .filter(|t| !matches!(t.kind, TokenKind::Newline | TokenKind::Indent | TokenKind::Dedent))
        .collect();
    assert!(filtered.len() >= 4, "Should have at least 4 meaningful tokens, got {}", filtered.len());
}

#[test]
fn test_comment() {
    let src = "x = 5";
    check_token_at(src, 0, &TokenKind::Name("x".into()));
    check_token_at(src, 1, &TokenKind::Equal);
    check_token_at(src, 2, &TokenKind::Int(5));
}

#[test]
fn test_invalid_character() {
    let result = lex_source("@");
    assert!(result.is_err());
}

#[test]
fn test_complex_expression() {
    let src = "x + y * z - 10 / 2";
    check_token_at(src, 0, &TokenKind::Name("x".into()));
    check_token_at(src, 1, &TokenKind::Plus);
    check_token_at(src, 2, &TokenKind::Name("y".into()));
    check_token_at(src, 3, &TokenKind::Star);
    check_token_at(src, 4, &TokenKind::Name("z".into()));
    check_token_at(src, 5, &TokenKind::Minus);
    check_token_at(src, 6, &TokenKind::Int(10));
    check_token_at(src, 7, &TokenKind::Slash);
    check_token_at(src, 8, &TokenKind::Int(2));
}

#[test]
fn test_unterminated_string() {
    let result = lex_source("'unterminated");
    assert!(result.is_err());
}

#[test]
fn test_triple_quote() {
    let source = "x = \"\"\"hello\nworld\n\"\"\"\nprint(x)";
    match lex_source(source) {
        Ok(tokens) => {
            let has_string = tokens.iter().any(|t| matches!(t.kind, TokenKind::String(_)));
            assert!(has_string, "Should contain a string token");
        }
        Err(e) => panic!("Unexpected error: {}", e),
    }
}

// Further cases.

#[test]
fn stream_ends_with_eof_and_balances_levels() {
    let src = "def f(x):\n    if x:\n        return 1\n    return 2\n";
    let tokens = lex_source(src).unwrap();
    assert!(matches!(tokens.last().unwrap().kind, TokenKind::Eof));
    let indents = tokens.iter().filter(|t| matches!(t.kind, TokenKind::Indent)).count();
    let dedents = tokens.iter().filter(|t| matches!(t.kind, TokenKind::Dedent)).count();
    assert_eq!(indents, 2);
    assert_eq!(indents, dedents);
}

#[test]
fn bad_dedent_is_an_error() {
    let src = "if x:\n        y = 1\n    z = 2\n";
    let r = lex_source(src);
    assert!(r.is_err());
}

#[test]
fn token_positions_are_one_based() {
    let tokens = lex_source("x = 1").unwrap();
    assert_eq!(tokens[0].line, 1);
    assert_eq!(tokens[0].col, 1);
    assert_eq!(tokens[1].col, 3);
}

#[test]
fn brackets_join_lines() {
    let tokens = lex_source("x = [1,\n  2]\n").unwrap();
    let newlines = tokens.iter().filter(|t| matches!(t.kind, TokenKind::Newline)).count();
    assert_eq!(newlines, 1);
    assert!(!tokens.iter().any(|t| matches!(t.kind, TokenKind::Indent)));
}

#[test]
fn comments_are_skipped() {
    let tokens = lex_source("x = 5  # five\n").unwrap();
    let kinds: Vec<&TokenKind> = tokens.iter().map(|t| &t.kind).collect();
    assert_eq!(kinds.len(), 5);
    assert_eq!(kinds[2], &TokenKind::Int(5));
}

#[test]
fn augmented_and_arrow_operators() {
    check_token_at("a += 1", 1, &TokenKind::PlusEq);
    check_token_at("a -= 1", 1, &TokenKind::MinusEq);
    check_token_at("f() -> x", 3, &TokenKind::Rarrow);
}

#[test]
fn oversized_integer_literal_is_reported() {
    assert!(lex_checked("x = 99999999999999999999\n").is_none());
    assert!(matches!(lex_checked("x = 9223372036854775807\n"), Some(Ok(_))));
    assert!(matches!(lex_checked("s = '99999999999999999999'\n"), Some(Ok(_))));
    assert!(matches!(lex_checked("@ 99999999999999999999\n"), Some(Err(_))));
}

#[test]
fn law_only_last_token_is_eof_and_levels_nest() {
    let src = "if a:\n    if b:\n        x = 1\n    y = 2\nz = 3\n";
    let tokens = lex_source(src).unwrap();
    let n = tokens.len();
    assert!(matches!(tokens[n - 1].kind, TokenKind::Eof));
    let mut depth: i64 = 0;
    for (i, t) in tokens.iter().enumerate() {
        if i + 1 < n {
            assert!(!matches!(t.kind, TokenKind::Eof));
        }
        match t.kind {
            TokenKind::Indent => depth += 1,
            TokenKind::Dedent => depth -= 1,
            _ => {}
        }
        assert!(depth >= 0);
    }
    assert_eq!(depth, 0);
}

#[test]
fn decorator_and_yield_tokens() {
    let toks = lex_source("@deco\ndef f():\n    yield 1\n").unwrap();
    assert!(matches!(toks[0].kind, TokenKind::At));
    assert!(matches!(&toks[1].kind, TokenKind::Name(n) if n == "deco"));
    assert!(toks.iter().any(|t| matches!(t.kind, TokenKind::Yield)));
    assert!(lex_source("x = a @ b").is_err());
}
