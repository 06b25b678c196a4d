use ui_automata::expression::{check_expr_syntax, line_at, parse_expression, tokenize, BinOp, Node, Token};

fn toks(s: &str) -> Vec<Token> {
    tokenize(&s.chars().collect()).unwrap()
}

#[test]
fn tokenize_operators_and_literals() {
    let t = toks("a.b >= 'x' && (1.5 != 2) || -c % 3");
    assert!(matches!(&t[0], Token::Ident(s) if s == "a"));
    assert!(matches!(t[1], Token::Dot));
    assert!(matches!(&t[2], Token::Ident(s) if s == "b"));
    assert!(matches!(t[3], Token::GtEq));
    assert!(matches!(&t[4], Token::Str(s) if s == "x"));
    assert!(matches!(t[5], Token::AmpAmp));
    assert!(matches!(t[6], Token::LParen));
    assert!(matches!(&t[7], Token::Number(s) if s == "1.5"));
    assert!(matches!(t[8], Token::BangEq));
    assert!(matches!(t[10], Token::RParen));
    assert!(matches!(t[11], Token::PipePipe));
    assert!(matches!(t[12], Token::Minus));
    assert!(matches!(t[14], Token::Percent));
    assert_eq!(t.len(), 16);
}

#[test]
fn tokenize_string_escapes() {
    let t = toks(r"'it\'s\n\t\\'");
    assert!(matches!(&t[0], Token::Str(s) if s == "it's\n\t\\"));
}

#[test]
fn tokenize_errors() {
    let err = |s: &str| tokenize(&s.chars().collect()).err().unwrap();
    assert_eq!(err("'abc"), "unterminated string literal (missing closing `'`)");
    assert_eq!(err(r"'abc\"), "unterminated escape sequence in string literal");
    assert_eq!(err(r"'\q'"), "unknown escape sequence `\\q` in string literal");
    assert_eq!(err("a = b"), "unexpected `=` — did you mean `==`?");
    assert_eq!(err("!a"), "unexpected `!` — did you mean `!=`?");
    assert_eq!(err("a & b"), "unexpected `&` — did you mean `&&`?");
    assert_eq!(err("a | b"), "unexpected `|` — did you mean `||`?");
    assert_eq!(err("a # b"), "unexpected character `#`");
}

#[test]
fn parse_postfix_order() {
    let n = parse_expression("1 + 2 * 3").unwrap();
    assert_eq!(n.len(), 5);
    assert!(matches!(&n[0], Node::Num(s) if s == "1"));
    assert!(matches!(&n[1], Node::Num(s) if s == "2"));
    assert!(matches!(&n[2], Node::Num(s) if s == "3"));
    assert!(matches!(n[3], Node::Bin(BinOp::Mul)));
    assert!(matches!(n[4], Node::Bin(BinOp::Add)));
}

#[test]
fn parse_variables_and_calls() {
    let n = parse_expression("max(output.a, x) - -param.b").unwrap();
    assert!(matches!(&n[0], Node::Var { ns, key } if ns == "output" && key == "a"));
    assert!(matches!(&n[1], Node::Var { ns, key } if ns == "local" && key == "x"));
    assert!(matches!(&n[2], Node::Call { name, argc: 2 } if name == "max"));
    assert!(matches!(&n[3], Node::Var { ns, key } if ns == "param" && key == "b"));
    assert!(matches!(n[4], Node::Neg));
    assert!(matches!(n[5], Node::Bin(BinOp::Sub)));
}

#[test]
fn parse_and_binds_tighter_than_or() {
    let n = parse_expression("a || b && c").unwrap();
    assert!(matches!(n[3], Node::Bin(BinOp::And)));
    assert!(matches!(n[4], Node::Bin(BinOp::Or)));
}

#[test]
fn syntax_check_accepts_valid() {
    assert!(check_expr_syntax("output_count('items') > 0").is_ok());
    assert!(check_expr_syntax("split_lines(output.raw, -1)").is_ok());
    assert!(check_expr_syntax("(1 + 2) * 3 == 9 && 'a' != 'b'").is_ok());
    assert!(check_expr_syntax("f()").is_ok());
}

#[test]
fn syntax_check_reports_errors() {
    assert_eq!(
        check_expr_syntax("(1 + 2"),
        Err("expected `)` to close grouping".to_string())
    );
    assert_eq!(
        check_expr_syntax("f(1, 2"),
        Err("expected `)` to close function call".to_string())
    );
    assert_eq!(
        check_expr_syntax("output."),
        Err("expected identifier after `output.`".to_string())
    );
    assert_eq!(
        check_expr_syntax("param + 1"),
        Err("`param` must be followed by `.key`".to_string())
    );
    assert_eq!(
        check_expr_syntax("1 +"),
        Err("unexpected end of expression".to_string())
    );
    assert_eq!(
        check_expr_syntax(")"),
        Err("unexpected token `RParen` in expression".to_string())
    );
    assert_eq!(
        check_expr_syntax("a b"),
        Err("unexpected token after expression: `Ident(\"b\")`".to_string())
    );
}

#[test]
fn line_at_counts_from_either_end() {
    let text = "first\nsecond\r\nthird\n";
    assert_eq!(line_at(text, 0), "first");
    assert_eq!(line_at(text, 1), "second");
    assert_eq!(line_at(text, 5), "");
    assert_eq!(line_at(text, -1), "third");
    assert_eq!(line_at(text, -3), "first");
    assert_eq!(line_at(text, -10), "first");
    assert_eq!(line_at("", 0), "");
    assert_eq!(line_at("", -1), "");
}
