use seekr::scrape::{
    parse_expr, parse_expr_aux, parse_factor, parse_parens, parse_term, parse_term_aux, parse_value,
    Env, Expr, Oper, ParseError, ParseErrorKind, TypeCheck, TypeMismatch, TypeRepr, Value,
    MAX_DEPTH,
};

fn num(i: i64) -> Box<Expr> {
    Box::new(Expr::Value(Value::Number(i)))
}

fn boolean(b: bool) -> Box<Expr> {
    Box::new(Expr::Value(Value::Bool(b)))
}

fn binop(op: Oper, a: Box<Expr>, b: Box<Expr>) -> Box<Expr> {
    Box::new(Expr::Binop(op, a, b))
}

fn expr(i: &str) -> Result<(&str, Expr), ParseError> {
    parse_expr(Env::new(), i)
}

fn err(kind: ParseErrorKind, position: usize) -> ParseError {
    ParseError { kind, position }
}

#[test]
fn test_parse_value() {
    assert_eq!(parse_value("true"), Ok(("", Value::Bool(true))));
    assert_eq!(parse_value("false"), Ok(("", Value::Bool(false))));
    for i in -1000..1000 {
        assert_eq!(
            parse_value(format!("{}", i).as_str()),
            Ok(("", Value::Number(i)))
        );
    }
}

#[test]
fn test_parse_expr() {
    assert_eq!(
        expr("1*3+-2"),
        Ok(("", Expr::Binop(Oper::Add, binop(Oper::Mul, num(1), num(3)), num(-2))))
    );
    assert_eq!(
        expr("1*3+2"),
        Ok(("", Expr::Binop(Oper::Add, binop(Oper::Mul, num(1), num(3)), num(2))))
    );
    assert_eq!(
        expr("1*3+(2)"),
        Ok(("", Expr::Binop(Oper::Add, binop(Oper::Mul, num(1), num(3)), num(2))))
    );
    assert_eq!(expr("true"), Ok(("", Expr::Value(Value::Bool(true)))));
    assert_eq!(expr("false"), Ok(("", Expr::Value(Value::Bool(false)))));
    for i in -1000..1000 {
        assert_eq!(
            expr(format!("{}", i).as_str()),
            Ok(("", Expr::Value(Value::Number(i))))
        );
    }
    assert_eq!(
        expr("1+2+5"),
        Ok(("", Expr::Binop(Oper::Add, binop(Oper::Add, num(1), num(2)), num(5))))
    );
    assert_eq!(
        expr("1*2*5"),
        Ok(("", Expr::Binop(Oper::Mul, binop(Oper::Mul, num(1), num(2)), num(5))))
    );
    assert_eq!(
        expr("1*2*5-2"),
        Ok((
            "",
            Expr::Binop(
                Oper::Sub,
                binop(Oper::Mul, binop(Oper::Mul, num(1), num(2)), num(5)),
                num(2)
            )
        ))
    );
    assert_eq!(
        expr("1*2*5-2+1"),
        Ok((
            "",
            Expr::Binop(
                Oper::Add,
                binop(
                    Oper::Sub,
                    binop(Oper::Mul, binop(Oper::Mul, num(1), num(2)), num(5)),
                    num(2)
                ),
                num(1)
            )
        ))
    );
    assert_eq!(
        expr("(1+2)*3"),
        Ok(("", Expr::Binop(Oper::Mul, binop(Oper::Add, num(1), num(2)), num(3))))
    );
    assert_eq!(
        expr("(1+2+3)*3"),
        Ok((
            "",
            Expr::Binop(
                Oper::Mul,
                binop(Oper::Add, binop(Oper::Add, num(1), num(2)), num(3)),
                num(3)
            )
        ))
    );
    assert_eq!(
        expr("let foo=2 in 3"),
        Ok(("", Expr::Let("foo".to_string(), num(2), num(3))))
    );
    assert_eq!(
        expr("let foo=2 in foo"),
        Ok(("", Expr::Let("foo".to_string(), num(2), num(2))))
    );
    assert_eq!(
        expr("let foo=2 in foo+3"),
        Ok((
            "",
            Expr::Let("foo".to_string(), num(2), binop(Oper::Add, num(2), num(3)))
        ))
    );
    assert_eq!(
        expr("let foo=2 in let foo = foo+3 in foo-1"),
        Ok((
            "",
            Expr::Let(
                "foo".to_string(),
                num(2),
                Box::new(Expr::Let(
                    "foo".to_string(),
                    binop(Oper::Add, num(2), num(3)),
                    binop(Oper::Sub, binop(Oper::Add, num(2), num(3)), num(1))
                ))
            )
        ))
    );
    assert_eq!(
        expr("if true then 1 else 2"),
        Ok(("", Expr::If(boolean(true), num(1), num(2))))
    );
    assert_eq!(
        expr("let foo = if true then 1 else 2 in foo"),
        Ok((
            "",
            Expr::Let(
                "foo".to_string(),
                Box::new(Expr::If(boolean(true), num(1), num(2))),
                Box::new(Expr::If(boolean(true), num(1), num(2))),
            )
        ))
    );
    assert_eq!(
        expr("1+2*3"),
        Ok(("", Expr::Binop(Oper::Add, num(1), binop(Oper::Mul, num(2), num(3)))))
    );

    let t = vec![
        "hello",
        "world",
        "        let generated_string: String = string_strategy.generate(&mut rng);",
        r#"! #$%&'()*+,-./0123456789:;<=>?@ABCDEFGHIJKLMNOPQRSTUVWXYZ[ ]^_`abcdefghijklmnopqrstuvwxyz{|}~"#,
    ];
    for t1 in t {
        assert_eq!(
            expr(&format!(r#""{}""#, t1)),
            Ok(("", Expr::Value(Value::Str(t1.to_string()))))
        );
    }
    assert_eq!(
        expr(r#""Hello World""#),
        Ok(("", Expr::Value(Value::Str("Hello World".to_string()))))
    );
    assert_eq!(
        expr(r#""+2*3""#),
        Ok(("", Expr::Value(Value::Str("+2*3".to_string()))))
    );
    assert_eq!(
        expr(r#""\"""#),
        Ok(("", Expr::Value(Value::Str(r#"""#.to_string()))))
    );
    assert_eq!(
        expr(r#""+2*3""#),
        Ok(("", Expr::Value(Value::Str("+2*3".to_string()))))
    );
    assert_eq!(
        expr(r#""! #$%&'()*+,-./0123456789:;<=>?@ABCDEFGHIJKLMNOPQRSTUVWXYZ[\\]^_`abcdefghijklmnopqrstuvwxyz{|}~""#),
        Ok((
            "",
            Expr::Value(Value::Str(
                r#"! #$%&'()*+,-./0123456789:;<=>?@ABCDEFGHIJKLMNOPQRSTUVWXYZ[\]^_`abcdefghijklmnopqrstuvwxyz{|}~"#
                    .to_string()
            ))
        ))
    );
}

#[test]
fn test_typecheck() {
    let (_, res) = expr("1+2+5").unwrap();
    assert_eq!(res.typecheck(), Ok(()));

    let (_, res) = expr(r#""hello world""#).unwrap();
    assert_eq!(res.typecheck(), Ok(()));

    let (_, res) = expr(r#""hello world"+1"#).unwrap();
    assert_eq!(
        res.typecheck(),
        Err(TypeMismatch::Operands { op: Oper::Add, left: TypeRepr::Str, right: TypeRepr::Number })
    );

    let (_, res) = expr(r#"if "hello world" then 1 else 2"#).unwrap();
    assert_eq!(res.typecheck(), Err(TypeMismatch::Condition { found: TypeRepr::Str }));

    let (_, res) = expr(r#"if false then 1 else 2"#).unwrap();
    assert_eq!(res.typecheck(), Ok(()));

    let (_, res) = expr(r#"if false then false else 2"#).unwrap();
    assert_eq!(
        res.typecheck(),
        Err(TypeMismatch::Branches { then_type: TypeRepr::Bool, else_type: TypeRepr::Number })
    );
}

#[test]
fn decimal_text_of_extremes_parses_back() {
    for i in [i64::MIN, i64::MIN + 1, -1, 0, 7, 10, 1234567890, i64::MAX] {
        let text = format!("{}", i);
        assert_eq!(parse_value(&text), Ok(("", Value::Number(i))));
        assert_eq!(expr(&text), Ok(("", Expr::Value(Value::Number(i)))));
    }
}

#[test]
fn leading_zeros_are_read() {
    assert_eq!(parse_value("007"), Ok(("", Value::Number(7))));
    assert_eq!(parse_value("-0"), Ok(("", Value::Number(0))));
}

#[test]
fn number_out_of_range_is_overflow() {
    assert_eq!(
        parse_value("9223372036854775808"),
        Err(err(ParseErrorKind::IntegerOverflow, 0))
    );
    assert_eq!(
        parse_value("-9223372036854775809"),
        Err(err(ParseErrorKind::IntegerOverflow, 0))
    );
    assert_eq!(
        parse_value("100000000000000000000000000000"),
        Err(err(ParseErrorKind::IntegerOverflow, 0))
    );
    assert_eq!(expr("1+99999999999999999999"), Ok(("+99999999999999999999", Expr::Value(Value::Number(1)))));
    assert_eq!(expr("(99999999999999999999)"), Err(err(ParseErrorKind::IntegerOverflow, 1)));
}

#[test]
fn minus_without_digits_is_syntax_error() {
    assert_eq!(parse_value("-x"), Err(err(ParseErrorKind::Syntax, 1)));
    assert_eq!(parse_value("x"), Err(err(ParseErrorKind::Syntax, 0)));
    assert_eq!(parse_value(""), Err(err(ParseErrorKind::Syntax, 0)));
}

#[test]
fn literal_leaves_the_rest() {
    assert_eq!(parse_value("trueish"), Ok(("ish", Value::Bool(true))));
    assert_eq!(parse_value("12ab"), Ok(("ab", Value::Number(12))));
    assert_eq!(parse_value(r#""a"b"#), Ok(("b", Value::Str("a".to_string()))));
}

#[test]
fn string_escapes() {
    assert_eq!(
        parse_value(r#""a\nb\\c\"d""#),
        Ok(("", Value::Str("a\nb\\c\"d".to_string())))
    );
    assert_eq!(parse_value(r#""\n""#), Ok(("", Value::Str("\n".to_string()))));
}

#[test]
fn invalid_escape() {
    assert_eq!(parse_value(r#""ab\qc""#), Err(err(ParseErrorKind::InvalidEscape, 3)));
    assert_eq!(parse_value("\"ab\\"), Err(err(ParseErrorKind::InvalidEscape, 3)));
}

#[test]
fn malformed_strings() {
    assert_eq!(parse_value(r#""""#), Err(err(ParseErrorKind::Syntax, 1)));
    assert_eq!(parse_value(r#""abc"#), Err(err(ParseErrorKind::Syntax, 4)));
    assert_eq!(parse_value("\"ab\tc\""), Err(err(ParseErrorKind::Syntax, 3)));
    assert_eq!(parse_value("\"é\""), Err(err(ParseErrorKind::Syntax, 1)));
}

#[test]
fn unbound_identifier() {
    assert_eq!(expr("foo"), Err(err(ParseErrorKind::UnboundIdentifier, 0)));
    assert_eq!(expr("let x = 1 in y"), Err(err(ParseErrorKind::UnboundIdentifier, 13)));
    assert_eq!(expr("let x = x in 1"), Err(err(ParseErrorKind::UnboundIdentifier, 8)));
}

#[test]
fn binding_does_not_leak_to_siblings() {
    assert_eq!(
        expr("if true then let x = 1 in x else x"),
        Err(err(ParseErrorKind::UnboundIdentifier, 33))
    );
    assert_eq!(
        expr("(let x = 1 in x)+x"),
        Ok(("+x", Expr::Let("x".to_string(), num(1), num(1))))
    );
}

#[test]
fn syntax_errors() {
    assert_eq!(expr(")"), Err(err(ParseErrorKind::Syntax, 0)));
    assert_eq!(expr("(1+2"), Err(err(ParseErrorKind::Syntax, 4)));
    assert_eq!(expr("let = 1 in 2"), Err(err(ParseErrorKind::Syntax, 4)));
    assert_eq!(expr("let x 1 in 2"), Err(err(ParseErrorKind::Syntax, 6)));
    assert_eq!(expr("let x = 1 2"), Err(err(ParseErrorKind::Syntax, 10)));
    assert_eq!(expr("if true 1 else 2"), Err(err(ParseErrorKind::Syntax, 8)));
    assert_eq!(expr("if true then 1 2"), Err(err(ParseErrorKind::Syntax, 15)));
    assert_eq!(expr(""), Err(err(ParseErrorKind::Syntax, 0)));
}

#[test]
fn whitespace_is_not_skipped_around_operators() {
    assert_eq!(expr("1 + 2"), Ok((" + 2", Expr::Value(Value::Number(1)))));
    assert_eq!(expr(" 1"), Err(err(ParseErrorKind::Syntax, 1)));
    assert_eq!(expr("1+"), Ok(("+", Expr::Value(Value::Number(1)))));
    assert_eq!(expr("2*(3"), Ok(("*(3", Expr::Value(Value::Number(2)))));
}

#[test]
fn identifier_may_follow_whitespace() {
    assert_eq!(
        expr("let x = 4 in 1+ x"),
        Ok(("", Expr::Let("x".to_string(), num(4), binop(Oper::Add, num(1), num(4)))))
    );
}

#[test]
fn keyword_needs_following_whitespace() {
    assert_eq!(expr("letx"), Err(err(ParseErrorKind::UnboundIdentifier, 0)));
    let mut env = Env::new();
    env.insert("iffy".to_string(), Expr::Value(Value::Number(3)));
    assert_eq!(parse_expr(env, "iffy"), Ok(("", Expr::Value(Value::Number(3)))));
}

#[test]
fn subtraction_and_division_fold_left() {
    assert_eq!(
        expr("1-2-3"),
        Ok(("", Expr::Binop(Oper::Sub, binop(Oper::Sub, num(1), num(2)), num(3))))
    );
    assert_eq!(
        expr("8/4/2"),
        Ok(("", Expr::Binop(Oper::Div, binop(Oper::Div, num(8), num(4)), num(2))))
    );
}

#[test]
fn parse_parens_example() {
    assert_eq!(
        parse_parens(Env::new(), "(4+20)"),
        Ok(("", Expr::Binop(Oper::Add, num(4), num(20))))
    );
    assert_eq!(parse_parens(Env::new(), "4+20"), Err(err(ParseErrorKind::Syntax, 0)));
}

#[test]
fn parse_factor_and_term() {
    assert_eq!(parse_factor(Env::new(), "3*4"), Ok(("*4", Expr::Value(Value::Number(3)))));
    assert_eq!(
        parse_term(Env::new(), "3*4+1"),
        Ok(("+1", Expr::Binop(Oper::Mul, num(3), num(4))))
    );
    let mut env = Env::new();
    env.insert("a".to_string(), Expr::Value(Value::Bool(true)));
    assert_eq!(parse_factor(env, "  a!"), Ok(("!", Expr::Value(Value::Bool(true)))));
}

#[test]
fn aux_parsers_fold_onto_the_given_expression() {
    assert_eq!(
        parse_term_aux(Env::new(), "*2/3+1", Expr::Value(Value::Number(6))),
        Ok(("+1", Expr::Binop(Oper::Div, binop(Oper::Mul, num(6), num(2)), num(3))))
    );
    assert_eq!(
        parse_expr_aux(Env::new(), "+2*3-1", Expr::Value(Value::Number(6))),
        Ok((
            "",
            Expr::Binop(Oper::Sub, binop(Oper::Add, num(6), binop(Oper::Mul, num(2), num(3))), num(1))
        ))
    );
    assert_eq!(
        parse_expr_aux(Env::new(), "+x", Expr::Value(Value::Number(6))),
        Ok(("+x", Expr::Value(Value::Number(6))))
    );
}

#[test]
fn env_later_binding_hides_earlier() {
    let mut env = Env::new();
    assert!(env.get("a").is_none());
    env.insert("a".to_string(), Expr::Value(Value::Number(1)));
    env.insert("b".to_string(), Expr::Value(Value::Number(2)));
    env.insert("a".to_string(), Expr::Value(Value::Number(3)));
    assert_eq!(env.get("a"), Some(&Expr::Value(Value::Number(3))));
    assert_eq!(env.get("b"), Some(&Expr::Value(Value::Number(2))));
    assert_eq!(parse_expr(env, "a*b"), Ok(("", Expr::Binop(Oper::Mul, num(3), num(2)))));
}

#[test]
fn get_type_is_the_same_on_every_call() {
    let (_, e) = expr("let x = 1 in if true then \"s\" else 2").unwrap();
    let first = e.get_type();
    let second = e.get_type();
    assert_eq!(first, TypeRepr::Str);
    assert_eq!(first, second);
}

#[test]
fn get_type_by_node() {
    assert_eq!(Value::Number(3).get_type(), TypeRepr::Number);
    assert_eq!(Value::Bool(true).get_type(), TypeRepr::Bool);
    assert_eq!(Value::Str("a".to_string()).get_type(), TypeRepr::Str);
    assert_eq!(Oper::Add.get_type(), TypeRepr::Number);
    assert_eq!(Oper::Eq.get_type(), TypeRepr::Bool);
    assert_eq!(Oper::Div.get_types_to_check(), (TypeRepr::Number, TypeRepr::Number));
    assert_eq!(Oper::Neq.get_types_to_check(), (TypeRepr::Bool, TypeRepr::Bool));
    let (_, e) = expr("true+1").unwrap();
    assert_eq!(e.get_type(), TypeRepr::Number);
    let comparison = Expr::Binop(Oper::Eq, num(1), num(2));
    assert_eq!(comparison.get_type(), TypeRepr::Bool);
    assert_eq!(
        comparison.typecheck(),
        Err(TypeMismatch::Operands { op: Oper::Eq, left: TypeRepr::Number, right: TypeRepr::Number })
    );
    assert_eq!(Expr::Binop(Oper::Neq, boolean(true), boolean(false)).typecheck(), Ok(()));
}

#[test]
fn typecheck_let_checks_the_body_only() {
    let (_, e) = expr("let x = true+1 in 2").unwrap();
    assert_eq!(e.typecheck(), Ok(()));
    let (_, e) = expr("let x = 1 in true*2").unwrap();
    assert_eq!(
        e.typecheck(),
        Err(TypeMismatch::Operands { op: Oper::Mul, left: TypeRepr::Bool, right: TypeRepr::Number })
    );
}

#[test]
fn typecheck_is_shallow() {
    let (_, e) = expr("(true+1)+2").unwrap();
    assert_eq!(e.typecheck(), Ok(()));
}

#[test]
fn clone_is_equal() {
    let (_, e) = expr("let s = \"x\" in if true then s else s").unwrap();
    assert_eq!(e.clone(), e);
}

#[test]
fn nesting_up_to_the_cap_parses() {
    let depth = MAX_DEPTH - 1;
    let text = format!("{}1{}", "(".repeat(depth), ")".repeat(depth));
    assert_eq!(expr(&text), Ok(("", Expr::Value(Value::Number(1)))));
}

#[test]
fn nesting_past_the_cap_is_too_deep() {
    let depth = MAX_DEPTH;
    let text = format!("{}1{}", "(".repeat(depth), ")".repeat(depth));
    assert_eq!(expr(&text), Err(err(ParseErrorKind::TooDeep, depth)));
}

#[test]
fn long_operator_chain_parses() {
    let text = format!("1{}", "+1".repeat(2000));
    let (rest, e) = expr(&text).unwrap();
    assert_eq!(rest, "");
    assert_eq!(e.get_type(), TypeRepr::Number);
    assert_eq!(e.typecheck(), Ok(()));
}

#[test]
fn if_with_matching_branches_checks() {
    let (_, e) = expr("if true then 1 else 2").unwrap();
    assert_eq!(e.typecheck(), Ok(()));
}

#[test]
fn oper_from_str() {
    assert_eq!("+".parse::<Oper>(), Ok(Oper::Add));
    assert_eq!("-".parse::<Oper>(), Ok(Oper::Sub));
    assert_eq!("*".parse::<Oper>(), Ok(Oper::Mul));
    assert_eq!("/".parse::<Oper>(), Ok(Oper::Div));
    assert_eq!("==".parse::<Oper>(), Err("Invalid Operator"));
    assert_eq!("++".parse::<Oper>(), Err("Invalid Operator"));
    assert_eq!("".parse::<Oper>(), Err("Invalid Operator"));
    assert_eq!(Oper::from_symbol("/"), Some(Oper::Div));
}
