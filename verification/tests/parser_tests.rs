use calvin_rs::expr::{Definition, Expr, Literal, Pattern, Spanned};
use calvin_rs::parser::lexer::{keyword_or_ident, Token};
use calvin_rs::parser::{parse_expr, parse_module, parse_type, ParseError};
use calvin_rs::types::MonoType;

// ---- expressions ----

#[test]
fn test_parse_int_literal() {
    let result = parse_expr("42");
    assert!(result.is_ok());
    if let Expr::Lit(Literal::Int(42)) = &result.unwrap().node {
    } else {
        panic!("Expected Int(42)");
    }
}

#[test]
fn test_parse_bool_literal() {
    let result = parse_expr("true");
    assert!(result.is_ok());
    if let Expr::Lit(Literal::Bool(true)) = &result.unwrap().node {
    } else {
        panic!("Expected Bool(true)");
    }
}

#[test]
fn test_parse_string_literal() {
    let result = parse_expr("\"hello\"");
    assert!(result.is_ok());
    if let Expr::Lit(Literal::String(s)) = &result.unwrap().node {
        assert_eq!(s, "hello");
    } else {
        panic!("Expected String");
    }
}

#[test]
fn test_parse_variable() {
    let result = parse_expr("x");
    assert!(result.is_ok());
    if let Expr::Var(name) = &result.unwrap().node {
        assert_eq!(name, "x");
    } else {
        panic!("Expected Var");
    }
}

#[test]
fn test_parse_binary_op() {
    let result = parse_expr("1 + 2");
    assert!(result.is_ok());
    if let Expr::BinOp(op, _, _) = &result.unwrap().node {
        assert_eq!(op, "+");
    } else {
        panic!("Expected BinOp");
    }
}

#[test]
fn test_parse_lambda() {
    let result = parse_expr("\\x -> x");
    assert!(result.is_ok());
    if let Expr::Lambda(params, _) = &result.unwrap().node {
        assert_eq!(params, &["x"]);
    } else {
        panic!("Expected Lambda");
    }
}

#[test]
fn test_parse_let() {
    let result = parse_expr("let x = 42 in x");
    assert!(result.is_ok());
    if let Expr::Let(name, _, _) = &result.unwrap().node {
        assert_eq!(name, "x");
    } else {
        panic!("Expected Let");
    }
}

#[test]
fn test_parse_if() {
    let result = parse_expr("if true then 1 else 2");
    assert!(result.is_ok());
    if let Expr::If(_, _, _) = &result.unwrap().node {
    } else {
        panic!("Expected If");
    }
}

#[test]
fn test_parse_record() {
    let result = parse_expr("{x = 1, y = 2}");
    assert!(result.is_ok());
    if let Expr::MkRecord(fields) = &result.unwrap().node {
        assert!(fields.contains_key("x"));
        assert!(fields.contains_key("y"));
    } else {
        panic!("Expected MkRecord");
    }
}

#[test]
fn test_parse_array() {
    let result = parse_expr("[1, 2, 3]");
    assert!(result.is_ok());
    if let Expr::MkArray(elems) = &result.unwrap().node {
        assert_eq!(elems.len(), 3);
    } else {
        panic!("Expected MkArray");
    }
}

#[test]
fn test_parse_type_int() {
    let result = parse_type("int");
    assert!(result.is_ok());
    assert_eq!(result.unwrap(), MonoType::Int);
}

#[test]
fn test_parse_type_func() {
    let result = parse_type("int -> bool");
    assert!(result.is_ok());
    assert_eq!(
        result.unwrap(),
        MonoType::Func(vec![MonoType::Int], Box::new(MonoType::Bool))
    );
}

fn shown(src: &str) -> String {
    parse_expr(src).unwrap().node.to_string()
}

#[test]
fn operators_group_by_precedence_and_to_the_left() {
    assert_eq!(shown("1 + 2 * 3"), "(1 + (2 * 3))");
    assert_eq!(shown("1 - 2 - 3"), "((1 - 2) - 3)");
    assert_eq!(shown("a || b && c"), "(a || (b && c))");
    assert_eq!(shown("1 + 2 < 4 && true"), "(((1 + 2) < 4) && true)");
    assert_eq!(shown("!x"), "(!x)");
    assert_eq!(shown("- 5"), "(-5)");
    assert_eq!(shown("(1 + 2) * 3"), "((1 + 2) * 3)");
    assert_eq!(shown("10 % 3"), "(10 % 3)");
}

#[test]
fn applications_projections_and_annotations() {
    assert_eq!(shown("f(1, 2)"), "f(1, 2)");
    assert_eq!(shown("f()"), "f");
    assert_eq!(shown("f(1)(2)"), "f(1)(2)");
    assert_eq!(shown("r.x.y"), "r.x.y");
    assert_eq!(shown("(\\x -> x + 1)(41)"), "\\x -> (x + 1)(41)");
    assert_eq!(shown("{x = 42, y = 0}.x"), "{x = 42, y = 0}.x");
    assert_eq!(shown("x :: int"), "x :: int");
}

#[test]
fn spans_of_parsed_nodes() {
    let e = parse_expr("  foo + 1").unwrap();
    // A binary node takes the span of its left operand.
    assert_eq!((e.span.start, e.span.end), (2, 5));
    if let Expr::BinOp(_, l, r) = &e.node {
        assert_eq!((l.span.start, l.span.end), (2, 5));
        assert_eq!((r.span.start, r.span.end), (8, 9));
    } else {
        panic!("Expected BinOp");
    }
    let l = parse_expr("let x = 1 in x").unwrap();
    assert_eq!((l.span.start, l.span.end), (0, 14));
}

#[test]
fn literal_forms() {
    let cases: Vec<(&str, Literal)> = vec![
        ("()", Literal::Unit),
        ("'a'", Literal::Char('a')),
        ("'\\n'", Literal::Char('\n')),
        ("7L", Literal::Long(7)),
        ("7s", Literal::Short(7)),
        ("200b", Literal::Byte(200)),
        ("12q", Literal::Int128(12)),
        ("1.5", Literal::Double("1.5".to_string())),
        ("2.25f", Literal::Float("2.25".to_string())),
        ("\"a\\tb\"", Literal::String("a\tb".to_string())),
    ];
    for (src, want) in cases {
        match parse_expr(src).unwrap().node {
            Expr::Lit(l) => assert_eq!(l, want, "{}", src),
            other => panic!("{}: not a literal: {:?}", src, other),
        }
    }
    // Out of range for an `int`: no literal, and nothing else reads.
    assert_eq!(parse_expr("99999999999").unwrap_err(), ParseError { position: 0 });
    // Out of range for a byte.
    assert!(parse_expr("300b").is_err());
}

#[test]
fn match_and_variants() {
    let e = parse_expr("match 1 { 1 -> true, _ -> false }").unwrap();
    if let Expr::Match(_, arms) = &e.node {
        assert_eq!(arms.len(), 2);
        assert!(matches!(arms[0].pattern, Pattern::Lit(Literal::Int(1))));
        assert!(matches!(arms[1].pattern, Pattern::Wildcard));
        assert!(arms[0].guard.is_none());
    } else {
        panic!("Expected Match");
    }
    let p = parse_expr("match v { |Some x| -> x, (a, b) @ t -> a, [y] -> y, {k = z} -> z }").unwrap();
    if let Expr::Match(_, arms) = &p.node {
        assert_eq!(arms.len(), 4);
        assert!(matches!(&arms[0].pattern, Pattern::Variant(c, _) if c == "Some"));
        assert!(matches!(&arms[1].pattern, Pattern::As(_, n) if n == "t"));
        assert!(matches!(&arms[2].pattern, Pattern::Array(ps) if ps.len() == 1));
        assert!(matches!(&arms[3].pattern, Pattern::Record(fs) if fs.contains_key("k")));
    } else {
        panic!("Expected Match");
    }
    let v = parse_expr("|None|").unwrap();
    if let Expr::MkVariant(c, inner) = &v.node {
        assert_eq!(c, "None");
        assert!(matches!(inner.node, Expr::Lit(Literal::Unit)));
        assert_eq!((inner.span.start, inner.span.end), (0, 0));
    } else {
        panic!("Expected MkVariant");
    }
}

#[test]
fn record_keeps_last_value_of_a_repeated_field() {
    let e = parse_expr("{x = 1, x = 2}").unwrap();
    if let Expr::MkRecord(fields) = &e.node {
        assert_eq!(fields.len(), 1);
        assert!(matches!(fields.get("x").unwrap().node, Expr::Lit(Literal::Int(2))));
    } else {
        panic!("Expected MkRecord");
    }
}

#[test]
fn what_does_not_parse() {
    assert!(parse_expr("").is_err());
    assert!(parse_expr("let").is_err());
    assert!(parse_expr(")").is_err());
    // What follows the expression is left unread.
    assert!(matches!(parse_expr("x )").unwrap().node, Expr::Var(_)));
}

// ---- types ----

#[test]
fn type_forms() {
    assert_eq!(parse_type("[int]").unwrap(), MonoType::Array(Box::new(MonoType::Int)));
    assert_eq!(parse_type("[byte; 16]").unwrap(), MonoType::FixedArray(Box::new(MonoType::Byte), 16));
    assert_eq!(parse_type("a").unwrap(), MonoType::TVar("a".to_string()));
    assert_eq!(parse_type("(int128)").unwrap(), MonoType::Int128);
    assert_eq!(
        parse_type("int -> int -> bool").unwrap(),
        MonoType::Func(
            vec![MonoType::Int],
            Box::new(MonoType::Func(vec![MonoType::Int], Box::new(MonoType::Bool)))
        )
    );
    assert_eq!(parse_type("{x: int, y: str}").unwrap().to_string(), "{x: int, y: str}");
    assert!(parse_type("->").is_err());
}

// ---- modules ----

#[test]
fn modules() {
    let m = parse_module("m", "let x = 1\nlet f a b = a + b\ntype Id = int\nimport std.list\n").unwrap();
    assert_eq!(m.name, "m");
    assert_eq!(m.definitions.len(), 4);
    assert!(matches!(&m.definitions[0], Definition::Value(n, _) if n == "x"));
    assert!(matches!(&m.definitions[1], Definition::Function(n, ps, _) if n == "f" && ps.len() == 2));
    assert!(matches!(&m.definitions[2], Definition::TypeAlias(n, MonoType::Int) if n == "Id"));
    assert!(matches!(&m.definitions[3], Definition::Import(p) if p == "std.list"));

    assert_eq!(parse_module("e", "").unwrap().definitions.len(), 0);
    // The definitions must reach the end of the input.
    assert_eq!(parse_module("m", "let x = 1 ?").unwrap_err(), ParseError { position: 10 });
    assert_eq!(parse_module("m", "nothing").unwrap_err().to_string(), "parse error at position 0");
}

// ---- tokens ----

#[test]
fn words_and_tokens() {
    assert_eq!(keyword_or_ident("let"), Token::Let);
    assert_eq!(keyword_or_ident("true"), Token::BoolLit(true));
    assert_eq!(keyword_or_ident("unpack"), Token::Unpack);
    assert_eq!(keyword_or_ident("Maybe"), Token::UpperIdent("Maybe".to_string()));
    assert_eq!(keyword_or_ident("maybe"), Token::Ident("maybe".to_string()));
    assert_eq!(keyword_or_ident(""), Token::Ident(String::new()));
    assert_eq!(Token::LongLit(-3).to_string(), "-3L");
    assert_eq!(Token::ByteLit(7).to_string(), "7b");
    assert_eq!(Token::FloatLit("1.5".to_string()).to_string(), "1.5f");
    assert_eq!(Token::StringLit("s".to_string()).to_string(), "\"s\"");
    assert_eq!(Token::CharLit('c').to_string(), "'c'");
    assert_eq!(Token::LBrace.to_string(), "{");
    assert_eq!(Token::Backslash.to_string(), "\\");
    assert_eq!(Token::Eof.to_string(), "<EOF>");
}

// ---- display of syntax ----

#[test]
fn test_literal_display() {
    assert_eq!(Literal::Int(42).to_string(), "42");
    assert_eq!(Literal::Bool(true).to_string(), "true");
    assert_eq!(Literal::String("hello".to_string()).to_string(), "\"hello\"");
}

#[test]
fn test_literal_types() {
    assert_eq!(Literal::Int(42).ty(), MonoType::Int);
    assert_eq!(Literal::Bool(true).ty(), MonoType::Bool);
    assert_eq!(Literal::Double("3.14".to_string()).ty(), MonoType::Double);
}

#[test]
fn test_expr_display() {
    let expr = Expr::BinOp(
        "+".to_string(),
        Box::new(Spanned::dummy(Expr::Lit(Literal::Int(1)))),
        Box::new(Spanned::dummy(Expr::Lit(Literal::Int(2)))),
    );
    assert_eq!(expr.to_string(), "(1 + 2)");
}

#[test]
fn test_lambda_display() {
    let expr = Expr::Lambda(
        vec!["x".to_string(), "y".to_string()],
        Box::new(Spanned::dummy(Expr::BinOp(
            "+".to_string(),
            Box::new(Spanned::dummy(Expr::Var("x".to_string()))),
            Box::new(Spanned::dummy(Expr::Var("y".to_string()))),
        ))),
    );
    assert_eq!(expr.to_string(), "\\x y -> (x + y)");
}
