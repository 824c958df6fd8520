use firelang::ast::{Behaviour, BinaryOp, Block, Expression, KeyWord, Literal, Statement};
use firelang::lexer::Lexer;
use firelang::parser::{precedence_of, ParseError, ParseErrorKind, Parser, MAX_DEPTH};

fn parser(src: &str) -> Parser {
    Parser::new(Lexer::new(src))
}

fn expr(src: &str) -> Result<Expression, ParseError> {
    parser(src).parse_expr()
}

fn num(v: i32) -> Expression {
    Expression::Literal(Literal::Int(v))
}

fn ident(name: &str) -> Expression {
    Expression::Ident(name.to_string())
}

fn binary(lhs: Expression, op: BinaryOp, rhs: Expression) -> Expression {
    Expression::Binary { lhs: Box::new(lhs), op, rhs: Box::new(rhs) }
}

fn kind_of<T: std::fmt::Debug>(r: Result<T, ParseError>) -> ParseErrorKind {
    r.unwrap_err().kind
}

#[test]
fn multiplication_binds_tighter_than_addition() {
    assert_eq!(
        expr("1 + 2 * 3"),
        Ok(binary(num(1), BinaryOp::Add, binary(num(2), BinaryOp::Mul, num(3))))
    );
    assert_eq!(
        expr("1 * 2 + 3"),
        Ok(binary(binary(num(1), BinaryOp::Mul, num(2)), BinaryOp::Add, num(3)))
    );
}

#[test]
fn equal_precedence_chains_to_the_left() {
    assert_eq!(
        expr("1 * (2 + 2) * 1"),
        Ok(binary(
            binary(num(1), BinaryOp::Mul, binary(num(2), BinaryOp::Add, num(2))),
            BinaryOp::Mul,
            num(1)
        ))
    );
    assert_eq!(
        expr("1 - 2 - 3"),
        Ok(binary(binary(num(1), BinaryOp::Sub, num(2)), BinaryOp::Sub, num(3)))
    );
}

#[test]
fn looser_operator_after_a_tighter_chain() {
    assert_eq!(
        expr("1 + 2 * 3 + 4"),
        Ok(binary(
            binary(num(1), BinaryOp::Add, binary(num(2), BinaryOp::Mul, num(3))),
            BinaryOp::Add,
            num(4)
        ))
    );
    assert_eq!(
        expr("a = b + c * d"),
        Ok(binary(
            ident("a"),
            BinaryOp::Assign,
            binary(ident("b"), BinaryOp::Add, binary(ident("c"), BinaryOp::Mul, ident("d")))
        ))
    );
}

#[test]
fn compound_operators_are_assembled() {
    let cases = [
        ("a += b", BinaryOp::AddEq),
        ("a -= b", BinaryOp::SubEq),
        ("a *= b", BinaryOp::MulEq),
        ("a /= b", BinaryOp::DivEq),
        ("a %= b", BinaryOp::ModEq),
        ("a && b", BinaryOp::LogicalAnd),
        ("a &= b", BinaryOp::AndEq),
        ("a & b", BinaryOp::And),
        ("a || b", BinaryOp::LogicalOr),
        ("a |= b", BinaryOp::OrEq),
        ("a | b", BinaryOp::Or),
        ("a ^= b", BinaryOp::XorEq),
        ("a ^ b", BinaryOp::Xor),
        ("a ~ b", BinaryOp::Not),
        ("a != b", BinaryOp::Ne),
        ("a ! b", BinaryOp::LogicalNot),
        ("a << b", BinaryOp::Lsh),
        ("a <<= b", BinaryOp::LshEq),
        ("a <= b", BinaryOp::Lte),
        ("a < b", BinaryOp::Lt),
        ("a >> b", BinaryOp::Rsh),
        ("a >>= b", BinaryOp::RshEq),
        ("a >= b", BinaryOp::Gte),
        ("a > b", BinaryOp::Gt),
        ("a = b", BinaryOp::Assign),
        ("a :: b", BinaryOp::Scope),
        ("a + b", BinaryOp::Add),
        ("a - b", BinaryOp::Sub),
        ("a * b", BinaryOp::Mul),
        ("a / b", BinaryOp::Div),
        ("a % b", BinaryOp::Mod),
    ];
    for (src, op) in cases {
        assert_eq!(expr(src), Ok(binary(ident("a"), op, ident("b"))), "{}", src);
    }
}

#[test]
fn operators_are_assembled_across_whitespace() {
    assert_eq!(expr("a < = b"), Ok(binary(ident("a"), BinaryOp::Lte, ident("b"))));
}

#[test]
fn binding_operators_end_an_expression() {
    let mut p = parser("a -> b");
    assert_eq!(p.parse_expr(), Ok(ident("a")));
    assert_eq!(p.position(), 1);
    let mut p = parser("a : b");
    assert_eq!(p.parse_expr(), Ok(ident("a")));
    assert_eq!(p.position(), 1);
}

#[test]
fn operator_is_not_taken_when_it_ends_the_expression() {
    let mut p = parser("1 + 2 ; 3");
    assert_eq!(p.parse_expr(), Ok(binary(num(1), BinaryOp::Add, num(2))));
    assert_eq!(p.position(), 5);
}

#[test]
fn double_equal_is_two_assignments() {
    assert_eq!(kind_of(expr("a == b")), ParseErrorKind::ExpectedOperand);
}

#[test]
fn missing_operand() {
    let err = expr("1 +").unwrap_err();
    assert_eq!(err, ParseError { kind: ParseErrorKind::ExpectedOperand, line: 1, column: 3 });
    assert_eq!(kind_of(expr("1 + * 2")), ParseErrorKind::ExpectedOperand);
}

#[test]
fn primary_expressions() {
    assert_eq!(expr("42"), Ok(num(42)));
    assert_eq!(expr("x"), Ok(ident("x")));
    assert_eq!(expr("(x)"), Ok(ident("x")));
    assert_eq!(expr("((7))"), Ok(num(7)));
    assert_eq!(expr("true"), Ok(Expression::Literal(Literal::Boolean(true))));
    assert_eq!(expr("false"), Ok(Expression::Literal(Literal::Boolean(false))));
    assert_eq!(expr("\"hi\""), Ok(Expression::Literal(Literal::Str("hi".to_string()))));
    assert_eq!(expr("'c'"), Ok(Expression::Literal(Literal::Char("c".to_string()))));
}

#[test]
fn malformed_literal_is_a_value() {
    assert_eq!(
        expr("1. + 2"),
        Ok(binary(
            Expression::Literal(Literal::Unexpected("dangling float number".to_string())),
            BinaryOp::Add,
            num(2)
        ))
    );
}

#[test]
fn unexpected_token_in_primary_position() {
    let mut p = parser("  ; x");
    assert_eq!(
        p.parse_primary(),
        Err(ParseError { kind: ParseErrorKind::ExpectedPrimary, line: 1, column: 0 })
    );
    assert_eq!(p.position(), 0);
    assert_eq!(kind_of(expr("")), ParseErrorKind::ExpectedPrimary);
    assert_eq!(kind_of(expr("#")), ParseErrorKind::ExpectedPrimary);
}

#[test]
fn unclosed_parenthesis() {
    assert_eq!(
        expr("(1 + 2"),
        Err(ParseError { kind: ParseErrorKind::UnclosedParen, line: 1, column: 6 })
    );
    assert_eq!(kind_of(expr("(1 2)")), ParseErrorKind::UnclosedParen);
}

#[test]
fn calls() {
    assert_eq!(
        expr("f()"),
        Ok(Expression::FuncCall { ident: "f".to_string(), args: vec![] })
    );
    assert_eq!(
        expr("f(1, x + 2, g(3))"),
        Ok(Expression::FuncCall {
            ident: "f".to_string(),
            args: vec![
                num(1),
                binary(ident("x"), BinaryOp::Add, num(2)),
                Expression::FuncCall { ident: "g".to_string(), args: vec![num(3)] },
            ],
        })
    );
    assert_eq!(
        expr("f(1) * 2"),
        Ok(binary(
            Expression::FuncCall { ident: "f".to_string(), args: vec![num(1)] },
            BinaryOp::Mul,
            num(2)
        ))
    );
}

#[test]
fn malformed_calls() {
    assert_eq!(kind_of(expr("f(1 2)")), ParseErrorKind::ExpectedComma);
    assert_eq!(kind_of(expr("f(1,)")), ParseErrorKind::InvalidArgument);
    assert_eq!(kind_of(expr("f(,)")), ParseErrorKind::InvalidArgument);
    assert_eq!(kind_of(expr("f(1")), ParseErrorKind::ExpectedComma);
    assert_eq!(kind_of(expr("f(")), ParseErrorKind::InvalidArgument);
}

#[test]
fn keyword_in_the_place_of_an_identifier() {
    assert_eq!(
        kind_of(expr("if")),
        ParseErrorKind::KeywordAsIdentifier(KeyWord::IF)
    );
    assert_eq!(
        kind_of(expr("1 + let")),
        ParseErrorKind::KeywordAsIdentifier(KeyWord::LET)
    );
    assert_eq!(
        kind_of(parser("let fn = 1;").parse()),
        ParseErrorKind::KeywordAsIdentifier(KeyWord::FN)
    );
    assert_eq!(
        kind_of(parser("let x: return = 1;").parse()),
        ParseErrorKind::KeywordAsIdentifier(KeyWord::RETURN)
    );
}

#[test]
fn comments_are_passed_over() {
    assert_eq!(
        expr("1 /* one */ + // plus\n 2"),
        Ok(binary(num(1), BinaryOp::Add, num(2)))
    );
}

#[test]
fn variable_declaration() {
    assert_eq!(
        parser("let mut x: i32 = 5;").parse(),
        Ok(Statement::VariableDecl {
            ident: "x".to_string(),
            ty: "i32".to_string(),
            mutable: true,
            behaviour: Behaviour::Copy,
            value: num(5),
        })
    );
    assert_eq!(
        parser("let y = 1 + 2;").parse(),
        Ok(Statement::VariableDecl {
            ident: "y".to_string(),
            ty: String::new(),
            mutable: false,
            behaviour: Behaviour::Copy,
            value: binary(num(1), BinaryOp::Add, num(2)),
        })
    );
}

#[test]
fn variable_bound_by_reference_or_by_move() {
    assert_eq!(
        parser("let a -> b;").parse(),
        Ok(Statement::VariableDecl {
            ident: "a".to_string(),
            ty: String::new(),
            mutable: false,
            behaviour: Behaviour::Ref,
            value: ident("b"),
        })
    );
    assert_eq!(
        parser("let a: T <- b;").parse(),
        Ok(Statement::VariableDecl {
            ident: "a".to_string(),
            ty: "T".to_string(),
            mutable: false,
            behaviour: Behaviour::Move,
            value: ident("b"),
        })
    );
}

#[test]
fn let_without_initializer_is_an_error() {
    assert_eq!(
        parser("let x;").parse(),
        Err(ParseError { kind: ParseErrorKind::MissingInitializer, line: 1, column: 5 })
    );
    assert_eq!(kind_of(parser("let mut x: i32;").parse()), ParseErrorKind::MissingInitializer);
    assert_eq!(kind_of(parser("let x").parse()), ParseErrorKind::MissingInitializer);
}

#[test]
fn malformed_variable_declarations() {
    assert_eq!(kind_of(parser("let 5 = 1;").parse()), ParseErrorKind::ExpectedVariableName);
    assert_eq!(kind_of(parser("let x: 5 = 1;").parse()), ParseErrorKind::ExpectedTypeName);
    assert_eq!(kind_of(parser("let x += 1;").parse()), ParseErrorKind::InvalidBinding);
    assert_eq!(kind_of(parser("let x = ;").parse()), ParseErrorKind::InvalidValue);
    assert_eq!(kind_of(parser("let x = 1").parse()), ParseErrorKind::MissingSemicolon);
    assert_eq!(kind_of(parser("let x = 1 }").parse()), ParseErrorKind::MissingSemicolon);
}

#[test]
fn statements_come_in_source_order_and_end_with_eof() {
    let mut p = parser("let a = 1;\nlet b = 2;\nreturn a + b;\n");
    assert!(p.has_content());
    assert_eq!(
        p.parse(),
        Ok(Statement::VariableDecl {
            ident: "a".to_string(),
            ty: String::new(),
            mutable: false,
            behaviour: Behaviour::Copy,
            value: num(1),
        })
    );
    assert_eq!(
        p.parse(),
        Ok(Statement::VariableDecl {
            ident: "b".to_string(),
            ty: String::new(),
            mutable: false,
            behaviour: Behaviour::Copy,
            value: num(2),
        })
    );
    assert_eq!(
        p.parse(),
        Ok(Statement::Return(binary(ident("a"), BinaryOp::Add, ident("b"))))
    );
    assert!(!p.has_content());
    assert_eq!(p.parse(), Ok(Statement::Eof));
    assert_eq!(p.parse(), Ok(Statement::Eof));
}

#[test]
fn empty_source_is_eof() {
    let mut p = parser("  // nothing\n");
    assert!(!p.has_content());
    let before = p.position();
    assert_eq!(p.parse(), Ok(Statement::Eof));
    assert_eq!(p.position(), before);
}

#[test]
fn return_statement_takes_its_terminator() {
    let mut p = parser("return 1; return 2");
    assert_eq!(p.parse(), Ok(Statement::Return(num(1))));
    assert_eq!(p.parse(), Ok(Statement::Return(num(2))));
    assert_eq!(p.parse(), Ok(Statement::Eof));
    assert_eq!(
        parser("return ;").parse(),
        Err(ParseError { kind: ParseErrorKind::ExpectedReturnValue, line: 1, column: 6 })
    );
}

#[test]
fn blocks() {
    assert_eq!(parser("{}").parse(), Ok(Statement::Block(Block { block: vec![] })));
    assert_eq!(
        parser("{ let a = 1; { return a; } }").parse(),
        Ok(Statement::Block(Block {
            block: vec![
                Statement::VariableDecl {
                    ident: "a".to_string(),
                    ty: String::new(),
                    mutable: false,
                    behaviour: Behaviour::Copy,
                    value: num(1),
                },
                Statement::Block(Block { block: vec![Statement::Return(ident("a"))] }),
            ],
        }))
    );
}

#[test]
fn block_takes_no_terminator() {
    let mut p = parser("{} let a = 1;");
    assert_eq!(p.parse(), Ok(Statement::Block(Block { block: vec![] })));
    assert!(matches!(p.parse(), Ok(Statement::VariableDecl { .. })));
    assert_eq!(p.parse(), Ok(Statement::Eof));
}

#[test]
fn unclosed_block() {
    assert_eq!(kind_of(parser("{ let a = 1;").parse()), ParseErrorKind::UnclosedBlock);
    assert_eq!(kind_of(parser("{").parse()), ParseErrorKind::UnclosedBlock);
    assert_eq!(kind_of(parser("{ + }").parse()), ParseErrorKind::ExpectedStatement);
}

#[test]
fn function_declaration() {
    let mut p = parser("fn add(a = i32, b -> i32 c <- T) { return a + b; }\nlet z = 0;");
    assert_eq!(
        p.parse(),
        Ok(Statement::FuncDecl {
            ident: "add".to_string(),
            params: vec![
                ("a".to_string(), Behaviour::Copy, "i32".to_string()),
                ("b".to_string(), Behaviour::Ref, "i32".to_string()),
                ("c".to_string(), Behaviour::Move, "T".to_string()),
            ],
            body: Block {
                block: vec![Statement::Return(binary(ident("a"), BinaryOp::Add, ident("b")))],
            },
        })
    );
    assert!(matches!(p.parse(), Ok(Statement::VariableDecl { .. })));
    assert_eq!(p.parse(), Ok(Statement::Eof));
}

#[test]
fn function_declarations_follow_each_other() {
    let mut p = parser("fn f() {} fn g() {}");
    assert!(matches!(p.parse(), Ok(Statement::FuncDecl { .. })));
    assert_eq!(p.position(), 9);
    assert!(matches!(p.parse(), Ok(Statement::FuncDecl { .. })));
    assert_eq!(p.parse(), Ok(Statement::Eof));
}

#[test]
fn function_without_parameters() {
    assert_eq!(
        parser("fn f() {}").parse(),
        Ok(Statement::FuncDecl {
            ident: "f".to_string(),
            params: vec![],
            body: Block { block: vec![] },
        })
    );
}

#[test]
fn malformed_function_declarations() {
    assert_eq!(kind_of(parser("fn (a = i32) {}").parse()), ParseErrorKind::ExpectedIdentifier);
    assert_eq!(kind_of(parser("fn f {}").parse()), ParseErrorKind::ExpectedParamList);
    assert_eq!(kind_of(parser("fn f(a i32) {}").parse()), ParseErrorKind::ExpectedParamBinding);
    assert_eq!(kind_of(parser("fn f(a + i32) {}").parse()), ParseErrorKind::ExpectedParamBinding);
    assert_eq!(kind_of(parser("fn f(a = 5) {}").parse()), ParseErrorKind::ExpectedIdentifier);
    assert_eq!(kind_of(parser("fn f(a = i32").parse()), ParseErrorKind::ExpectedIdentifier);
    assert_eq!(kind_of(parser("fn f() return").parse()), ParseErrorKind::ExpectedFunctionBody);
    assert_eq!(kind_of(parser("fn f() { let x; }").parse()), ParseErrorKind::ExpectedFunctionBody);
    assert_eq!(kind_of(parser("fn f() { ").parse()), ParseErrorKind::ExpectedFunctionBody);
}

#[test]
fn leading_token_that_begins_no_statement() {
    let mut p = parser("x = 1;");
    assert_eq!(
        p.parse(),
        Err(ParseError { kind: ParseErrorKind::ExpectedStatement, line: 1, column: 0 })
    );
    assert_eq!(p.position(), 0);
    assert_eq!(kind_of(parser("if x {}").parse()), ParseErrorKind::ExpectedStatement);
    assert_eq!(kind_of(parser("\"fn\" f() {}").parse()), ParseErrorKind::ExpectedStatement);
}

#[test]
fn error_position_is_that_of_the_lexer() {
    let err = parser("let x =\n  ;").parse().unwrap_err();
    assert_eq!(err, ParseError { kind: ParseErrorKind::InvalidValue, line: 1, column: 7 });
    let err = parser("let x = 1\n  +\n").parse().unwrap_err();
    assert_eq!(err, ParseError { kind: ParseErrorKind::InvalidValue, line: 2, column: 3 });
}

#[test]
fn nesting_is_limited() {
    let deep = MAX_DEPTH + 1;
    let src = format!("{}1{}", "(".repeat(deep), ")".repeat(deep));
    assert_eq!(kind_of(expr(&src)), ParseErrorKind::NestingTooDeep);
    let src = format!("{}1{}", "(".repeat(MAX_DEPTH), ")".repeat(MAX_DEPTH));
    assert_eq!(expr(&src), Ok(num(1)));
    let src = format!("{}{}", "{".repeat(deep), "}".repeat(deep));
    assert_eq!(kind_of(parser(&src).parse()), ParseErrorKind::NestingTooDeep);
    let src = format!("let x = {}1{};", "f(".repeat(deep), ")".repeat(deep));
    assert_eq!(kind_of(parser(&src).parse()), ParseErrorKind::NestingTooDeep);
}

#[test]
fn precedence_table() {
    assert_eq!(precedence_of(BinaryOp::OrEq), 0);
    assert_eq!(precedence_of(BinaryOp::LshEq), 1);
    assert_eq!(precedence_of(BinaryOp::AddEq), 2);
    assert_eq!(precedence_of(BinaryOp::MulEq), 3);
    assert_eq!(precedence_of(BinaryOp::Assign), 4);
    assert_eq!(precedence_of(BinaryOp::LogicalOr), 5);
    assert_eq!(precedence_of(BinaryOp::LogicalAnd), 6);
    assert_eq!(precedence_of(BinaryOp::LogicalNot), 6);
    assert_eq!(precedence_of(BinaryOp::Lt), 7);
    assert_eq!(precedence_of(BinaryOp::Eq), 8);
    assert_eq!(precedence_of(BinaryOp::Or), 9);
    assert_eq!(precedence_of(BinaryOp::Xor), 10);
    assert_eq!(precedence_of(BinaryOp::And), 11);
    assert_eq!(precedence_of(BinaryOp::Lsh), 12);
    assert_eq!(precedence_of(BinaryOp::Add), 13);
    assert_eq!(precedence_of(BinaryOp::Mul), 14);
    assert_eq!(precedence_of(BinaryOp::Scope), 15);
    assert_eq!(precedence_of(BinaryOp::Ref), -1);
    assert_eq!(precedence_of(BinaryOp::Move), -1);
    assert_eq!(precedence_of(BinaryOp::Is), -1);
}

#[test]
fn parse_parts_from_behind_their_keyword() {
    assert_eq!(parser("1 + 2").parse_return(), Ok(Statement::Return(binary(num(1), BinaryOp::Add, num(2)))));
    assert!(matches!(parser("x = 1;").parse_var_decl(), Ok(Statement::VariableDecl { .. })));
    assert!(matches!(parser("f() {}").parse_func_decl(), Ok(Statement::FuncDecl { .. })));
    assert_eq!(
        parser("return 1; }").parse_block(),
        Ok(Statement::Block(Block { block: vec![Statement::Return(num(1))] }))
    );
    assert!(matches!(parser("let a = 1;").parse_stmt(), Ok(Statement::VariableDecl { .. })));
}

#[test]
fn parsing_ends_on_odd_sources() {
    let sources = [
        "", " ", "(", ")", "{", "}", "{{{", "}}}", "((((", "f(", "f(a,", "let", "let mut", "fn",
        "fn f", "fn f(", "fn f(a", "fn f(a =", "fn f(a = b", "fn f(a = b)", "fn f() {",
        "return", "return return", "'", "\"", "r\"", "r\"(", "/*", "//", "0x", "1.", "1e",
        "\\", "#", "\0", "let x = 'a", "let x = \"\\", "{ return 1 }", "{ let x = 1; } }",
        "a + + b", "let x = 1 + ;", "let x: = 1;", "fn f(,) {}", "fn f(a = b,) {}",
        "let é = 1;", "let x = f(1)(2);", "return 1 2 3", "\u{2028}let x = 1;\u{3000}",
    ];
    for src in sources {
        let mut p = parser(src);
        let mut steps = 0;
        loop {
            steps += 1;
            assert!(steps <= src.len() + 2, "{:?}", src);
            match p.parse() {
                Ok(Statement::Eof) => break,
                Ok(_) => {}
                Err(e) => {
                    assert!(e.line >= 1, "{:?}", src);
                    break;
                }
            }
        }
        assert!(p.position() <= src.chars().count(), "{:?}", src);
    }
}
