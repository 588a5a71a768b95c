use monkey::ast::{Expr, Ident, InfixOperator, Let, PrefixOperator, Program, Stmt};
use monkey::lexer::Lexer;
use monkey::parser::{parse, ParseError, Parser};
use monkey::token::Token;

#[test]
fn test_let_statement() {
    let input = r#"
        let x = 10;
        let y = 100;
        let foo = 838383;"#;

    let l = Lexer::new(input);
    let mut parser = Parser::new(l);

    let program = parser.parse_program();

    assert_eq!(false, program.is_err(), "Error occurred while parsing, got error: {:?}", program.err().unwrap());

    let program = program.unwrap();
    assert_eq!(program.statements.len(), 3);

    let expected_idents = ["x", "y", "foo"];
    for (idx, stmt) in program.statements.iter().enumerate() {
        assert!(matches!(stmt, Stmt::Let(let_stmt) if let_stmt.ident.name == expected_idents[idx]));
    }
}

#[test]
fn test_return_statement() {
    let input = r#"
        return 5;
return 10;
return 993322;
"#;

    let l = Lexer::new(input);
    let mut p = Parser::new(l);

    let program = p.parse_program();

    assert_eq!(false, program.is_err());

    let program = program.unwrap();
    assert_eq!(3, program.statements.len());

    for (_, stmt) in program.statements.iter().enumerate() {
        assert!(matches!(stmt, Stmt::Return(_)))
    }
}

#[test]
fn test_identifier_expressions() {
    let input = r#"foobar; gmail;"#;

    let l = Lexer::new(input);
    let mut p = Parser::new(l);

    let program = p.parse_program();

    assert_eq!(false, program.is_err(), "Error occurred while parsing, got error: {:?}", program.err().unwrap());

    let program = program.unwrap();

    let expected_idents = ["foobar", "gmail"];
    assert_eq!(expected_idents.len(), program.statements.len());

    for (idx, statement) in program.statements.iter().enumerate() {
        assert!(matches!(statement, Stmt::Expr(expr) if
                                                    matches!(&expr, Expr::Ident(ident) if
                                                                *ident.name == expected_idents[idx].to_string())));
    }
}

#[test]
fn test_integer_literal_expressions() {
    let input = r#"10; 11;"#;

    let l = Lexer::new(input);
    let mut p = Parser::new(l);

    let program = p.parse_program();

    assert_eq!(false, program.is_err(), "Error occurred while parsing, got error: {:?}", program.err().unwrap());

    let program = program.unwrap();

    let expected_ints: [i64; 2] = [10, 11];
    assert_eq!(expected_ints.len(), program.statements.len());

    for (idx, statement) in program.statements.iter().enumerate() {
        assert!(matches!(statement, Stmt::Expr(expr) if
                                                    matches!(&expr, Expr::IntLiteral(number) if
                                                                *number == expected_ints[idx])));
    }
}

struct PrefixParseTestCase<'a> {
    input: &'a str,
    operator: PrefixOperator,
    literal_value: i64,
}

#[test]
fn test_parse_prefix_expressions() {
    let mut test_cases: Vec<PrefixParseTestCase> = Vec::new();

    test_cases.push(PrefixParseTestCase { input: "!5", operator: PrefixOperator::Not, literal_value: 5 });
    test_cases.push(PrefixParseTestCase { input: "-5", operator: PrefixOperator::Negate, literal_value: 5 });

    for test_case in test_cases {
        let l = Lexer::new(test_case.input);
        let mut p = Parser::new(l);

        let program = p.parse_program();

        assert_eq!(false, program.is_err(), "Error occurred while parsing, got error: {:?}", program.err().unwrap());

        let program = program.unwrap();

        assert_eq!(1, program.statements.len());

        assert!(
            matches!(program.statements[0].clone(), Stmt::Expr(expr)
                if matches!(&expr, Expr::PrefixExpr { expr: prefix_expr, operator: oper }
                    if matches!(oper, Some(operator)
                        if *operator == test_case.operator)
                    && matches!(**(prefix_expr), Expr::IntLiteral(literal_value)
                        if (literal_value == test_case.literal_value))
                )
            )
        );
    }
}

struct InfixParseTestCase<'a> {
    input: &'a str,
    left_value: i64,
    operator: InfixOperator,
    right_value: i64,
}

#[test]
fn test_parse_infix_expsressions() {
    let mut test_cases: Vec<InfixParseTestCase> = Vec::new();
    test_cases.push(InfixParseTestCase { input: "5 + 5", left_value: 5, operator: InfixOperator::Add, right_value: 5 });
    test_cases.push(InfixParseTestCase { input: "5 - 5", left_value: 5, operator: InfixOperator::Sub, right_value: 5 });
    test_cases.push(InfixParseTestCase { input: "5 * 5", left_value: 5, operator: InfixOperator::Mul, right_value: 5 });
    test_cases.push(InfixParseTestCase { input: "5 / 5", left_value: 5, operator: InfixOperator::Div, right_value: 5 });
    test_cases.push(InfixParseTestCase { input: "5 == 5", left_value: 5, operator: InfixOperator::Equals, right_value: 5 });
    test_cases.push(InfixParseTestCase { input: "5 != 5", left_value: 5, operator: InfixOperator::NotEquals, right_value: 5 });
    test_cases.push(InfixParseTestCase { input: "5 < 5", left_value: 5, operator: InfixOperator::LessThan, right_value: 5 });
    test_cases.push(InfixParseTestCase { input: "5 > 5", left_value: 5, operator: InfixOperator::GreaterThan, right_value: 5 });

    for test_case in test_cases {
        let lexer = Lexer::new(test_case.input);
        let mut parser = Parser::new(lexer);

        let program = parser.parse_program().unwrap();

        assert_eq!(1, program.statements.len());

        println!("{:?}", test_case.input);
        println!("{:?}", &program);

        let stmt = program.statements[0].clone();
        assert!(matches!(stmt, Stmt::Expr(expr) if
            matches!(&expr, Expr::InfixExpr { left: left_expr, operator: oper, right: right_expr }
                if matches!(**left_expr, Expr::IntLiteral(left_value)
                    if left_value == test_case.left_value)
                && matches!(**right_expr, Expr::IntLiteral(right_value)
                    if right_value == test_case.right_value)
                && *oper == test_case.operator
            )
        ));
        println!("{:?}", &"Passed");
    }
}

fn lit(v: i64) -> Box<Expr> {
    Box::new(Expr::IntLiteral(v))
}

fn ident(name: &str) -> Expr {
    Expr::Ident(Ident { name: String::from(name) })
}

fn infix(operator: InfixOperator, left: Box<Expr>, right: Box<Expr>) -> Box<Expr> {
    Box::new(Expr::InfixExpr { left, right, operator })
}

fn single_expression(input: &str) -> Expr {
    let program = parse(input).unwrap();
    assert_eq!(program.statements.len(), 1);
    match program.statements[0].clone() {
        Stmt::Expr(e) => e,
        other => panic!("expected an expression statement, got {:?}", other),
    }
}

#[test]
fn product_binds_tighter_than_sum() {
    let expected = infix(InfixOperator::Add, lit(1), infix(InfixOperator::Mul, lit(2), lit(3)));
    assert_eq!(single_expression("1 + 2 * 3"), *expected);
}

#[test]
fn subtraction_associates_to_the_left() {
    let expected = infix(InfixOperator::Sub, infix(InfixOperator::Sub, lit(1), lit(2)), lit(3));
    assert_eq!(single_expression("1 - 2 - 3"), *expected);
}

#[test]
fn prefix_binds_tighter_than_infix() {
    let negated = Box::new(Expr::PrefixExpr {
        expr: Box::new(ident("a")),
        operator: Some(PrefixOperator::Negate),
    });
    let expected = infix(InfixOperator::Mul, negated, Box::new(ident("b")));
    assert_eq!(single_expression("-a * b"), *expected);
}

#[test]
fn comparison_and_equality_levels() {
    // a + b < c == !d  is  ((a + b) < c) == (!d)
    let sum = infix(InfixOperator::Add, Box::new(ident("a")), Box::new(ident("b")));
    let less = infix(InfixOperator::LessThan, sum, Box::new(ident("c")));
    let not_d = Box::new(Expr::PrefixExpr { expr: Box::new(ident("d")), operator: Some(PrefixOperator::Not) });
    let expected = infix(InfixOperator::Equals, less, not_d);
    assert_eq!(single_expression("a + b < c == !d"), *expected);
    // 8 / 4 / 2 groups to the left
    let expected = infix(InfixOperator::Div, infix(InfixOperator::Div, lit(8), lit(4)), lit(2));
    assert_eq!(single_expression("8 / 4 / 2"), *expected);
    // --5 nests
    let inner = Box::new(Expr::PrefixExpr { expr: lit(5), operator: Some(PrefixOperator::Negate) });
    let expected = Expr::PrefixExpr { expr: inner, operator: Some(PrefixOperator::Negate) };
    assert_eq!(single_expression("--5"), expected);
}

#[test]
fn let_statements_keep_names_in_order() {
    let program = parse("let x = 10; let y = 100; let foo = 838383;").unwrap();
    let expected = vec![
        Stmt::Let(Let { ident: Ident { name: String::from("x") }, expr: Some(Expr::IntLiteral(10)) }),
        Stmt::Let(Let { ident: Ident { name: String::from("y") }, expr: Some(Expr::IntLiteral(100)) }),
        Stmt::Let(Let { ident: Ident { name: String::from("foo") }, expr: Some(Expr::IntLiteral(838383)) }),
    ];
    assert_eq!(program.statements, expected);
}

#[test]
fn return_statements_are_counted() {
    let program = parse("return 5; return 10; return 993322;").unwrap();
    assert_eq!(
        program.statements,
        vec![
            Stmt::Return(Some(Expr::IntLiteral(5))),
            Stmt::Return(Some(Expr::IntLiteral(10))),
            Stmt::Return(Some(Expr::IntLiteral(993322))),
        ]
    );
    let program = parse("return;").unwrap();
    assert_eq!(program.statements, vec![Stmt::Return(None)]);
}

#[test]
fn let_with_integer_name_is_an_error() {
    let r = parse("let 5 = 10;");
    assert_eq!(r, Err(ParseError::ExpectedIdent(Token::Int(5))));
}

#[test]
fn parsing_twice_gives_equal_programs() {
    let input = "let a = 1 + 2 * -b; a != 3; return a;";
    let first = Parser::new(Lexer::new(input)).parse_program();
    let second = Parser::new(Lexer::new(input)).parse_program();
    assert!(first.is_ok());
    assert_eq!(first, second);
    let bad = "let = 2;";
    assert_eq!(parse(bad), parse(bad));
    assert!(parse(bad).is_err());
}

#[test]
fn empty_input_is_an_empty_program() {
    assert_eq!(parse(""), Ok(Program { statements: vec![] }));
    assert_eq!(parse("  \n "), Ok(Program { statements: vec![] }));
}

#[test]
fn each_error_kind() {
    assert_eq!(
        parse("let x 5;"),
        Err(ParseError::UnexpectedToken { expected: Token::Assign, got: Token::Int(5) })
    );
    assert_eq!(parse(";"), Err(ParseError::NoPrefixParse(Token::Semicolon)));
    assert_eq!(parse("1 +"), Err(ParseError::NoPrefixParse(Token::Eof)));
    assert_eq!(parse("f(x)"), Err(ParseError::NoInfixParse(Token::LParen)));
    assert_eq!(parse("1 + 99999999999999999999"), Err(ParseError::IntegerOverflow));
    assert_eq!(parse("let x = 9223372036854775808;"), Err(ParseError::IntegerOverflow));
    assert_eq!(parse("x @"), Err(ParseError::NoPrefixParse(Token::Illegal)));
}

#[test]
fn largest_integer_parses() {
    let program = parse("9223372036854775807").unwrap();
    assert_eq!(program.statements, vec![Stmt::Expr(Expr::IntLiteral(i64::MAX))]);
}

#[test]
fn semicolons_are_optional_between_statements() {
    let program = parse("x y").unwrap();
    assert_eq!(program.statements, vec![Stmt::Expr(ident("x")), Stmt::Expr(ident("y"))]);
}

#[test]
fn nesting_is_bounded() {
    let deepest = format!("{}5", "-".repeat(255));
    let program = parse(&deepest).unwrap();
    assert_eq!(program.statements.len(), 1);
    let too_deep = format!("{}5", "-".repeat(256));
    assert_eq!(parse(&too_deep), Err(ParseError::NestingTooDeep));
    let far_too_deep = format!("{}x", "!".repeat(100000));
    assert_eq!(parse(&far_too_deep), Err(ParseError::NestingTooDeep));
}
