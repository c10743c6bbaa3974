use boop::ast::{ASTNode, BinaryOperator, Expression, ParseError, UnaryOperator};
use boop::lexer::get_tokens;
use boop::parser::Parser;
use boop::token::{Token, TokenType};

fn parse(source: &str) -> Result<ASTNode, ParseError> {
    Parser::new(get_tokens(source)).parse_program()
}

fn statements(source: &str) -> Vec<ASTNode> {
    match parse(source) {
        Ok(ASTNode::Program(statements)) => statements,
        other => panic!("not a program: {:?}", other),
    }
}

fn expression(source: &str) -> Expression {
    let mut parser = Parser::new(get_tokens(source));
    parser.parse_expression().unwrap()
}

fn integer(value: i64) -> Box<Expression> {
    Box::new(Expression::IntegerLiteral(value))
}

fn var(name: &str) -> Expression {
    Expression::Variable(String::from(name))
}

fn binary(left: Expression, operator: BinaryOperator, right: Expression) -> Expression {
    Expression::BinaryOperation { left: Box::new(left), operator, right: Box::new(right) }
}

#[test]
fn function_with_conditional_and_return() {
    let program =
        statements("func fib uses x\n if x lt 3 then return 1 end\n return fib(x-1)\nend");
    let expected = vec![ASTNode::Function {
        name: String::from("fib"),
        params: vec![String::from("x")],
        body: vec![
            ASTNode::IfStatement {
                condition: binary(var("x"), BinaryOperator::Lt, Expression::IntegerLiteral(3)),
                then_branch: vec![ASTNode::ReturnStatement(Expression::IntegerLiteral(1))],
                elif_branches: vec![],
                else_branch: None,
            },
            ASTNode::ReturnStatement(Expression::FunctionCall {
                name: String::from("fib"),
                params: vec![binary(
                    var("x"),
                    BinaryOperator::Subtract,
                    Expression::IntegerLiteral(1),
                )],
            }),
        ],
    }];
    assert_eq!(program, expected);
}

#[test]
fn operator_cannot_begin_a_statement() {
    let error = parse("x is 1\n\n+ 2\n").unwrap_err();
    assert_eq!(error.line_number, 3);
    assert_eq!(error.found, TokenType::Add);
    assert_eq!(error.expected, "expected a statement");
}

#[test]
fn multiplication_binds_tighter_than_addition() {
    let parsed = expression("1 + 2 * 3");
    let expected = Expression::BinaryOperation {
        left: integer(1),
        operator: BinaryOperator::Add,
        right: Box::new(Expression::BinaryOperation {
            left: integer(2),
            operator: BinaryOperator::Multiply,
            right: integer(3),
        }),
    };
    assert_eq!(parsed, expected);
}

#[test]
fn subtraction_groups_to_the_left() {
    let parsed = expression("10 - 4 - 3");
    let expected = binary(
        binary(
            Expression::IntegerLiteral(10),
            BinaryOperator::Subtract,
            Expression::IntegerLiteral(4),
        ),
        BinaryOperator::Subtract,
        Expression::IntegerLiteral(3),
    );
    assert_eq!(parsed, expected);
}

#[test]
fn power_groups_to_the_right() {
    let parsed = expression("2 ^ 3 ^ 2");
    let expected = binary(
        Expression::IntegerLiteral(2),
        BinaryOperator::Power,
        binary(
            Expression::IntegerLiteral(3),
            BinaryOperator::Power,
            Expression::IntegerLiteral(2),
        ),
    );
    assert_eq!(parsed, expected);
}

#[test]
fn precedence_ladder() {
    // or < and < comparison < additive < multiplicative < power
    let parsed = expression("a or b and c eq d + e * f ^ g");
    let expected = binary(
        var("a"),
        BinaryOperator::Or,
        binary(
            var("b"),
            BinaryOperator::And,
            binary(
                var("c"),
                BinaryOperator::Eq,
                binary(
                    var("d"),
                    BinaryOperator::Add,
                    binary(
                        var("e"),
                        BinaryOperator::Multiply,
                        binary(var("f"), BinaryOperator::Power, var("g")),
                    ),
                ),
            ),
        ),
    );
    assert_eq!(parsed, expected);
}

#[test]
fn parentheses_reset_precedence() {
    let parsed = expression("(1 + 2) * 3");
    let expected = binary(
        binary(
            Expression::IntegerLiteral(1),
            BinaryOperator::Add,
            Expression::IntegerLiteral(2),
        ),
        BinaryOperator::Multiply,
        Expression::IntegerLiteral(3),
    );
    assert_eq!(parsed, expected);
}

#[test]
fn not_binds_tighter_than_any_infix_operator() {
    let parsed = expression("not a and not not b");
    let not = |operand: Expression| Expression::UnaryOperation {
        operator: UnaryOperator::Not,
        operand: Box::new(operand),
    };
    let expected = binary(not(var("a")), BinaryOperator::And, not(not(var("b"))));
    assert_eq!(parsed, expected);
}

#[test]
fn literals_of_every_kind() {
    assert_eq!(expression("42"), Expression::IntegerLiteral(42));
    assert_eq!(expression("\"hi there\""), Expression::StringLiteral(String::from("hi there")));
    assert_eq!(expression("true"), Expression::BooleanLiteral(true));
    assert_eq!(expression("FALSE"), Expression::BooleanLiteral(false));
    match expression("2.5") {
        Expression::FloatLiteral(text) => assert_eq!(text.parse::<f64>().unwrap(), 2.5),
        other => panic!("not a float: {:?}", other),
    }
}

#[test]
fn expression_stops_before_what_cannot_extend_it() {
    let mut parser = Parser::new(get_tokens("a + b then c"));
    let parsed = parser.parse_expression().unwrap();
    assert_eq!(parsed, binary(var("a"), BinaryOperator::Add, var("b")));
    // the cursor is left on `then`: a statement cannot begin there
    let error = parser.parse_statement().unwrap_err();
    assert_eq!(error.found, TokenType::Then);
}

#[test]
fn call_with_arguments() {
    let program = statements("print(1, x, f(), g(2 * y))");
    let expected = vec![ASTNode::ExpressionStatement(Expression::FunctionCall {
        name: String::from("print"),
        params: vec![
            Expression::IntegerLiteral(1),
            var("x"),
            Expression::FunctionCall { name: String::from("f"), params: vec![] },
            Expression::FunctionCall {
                name: String::from("g"),
                params: vec![binary(
                    Expression::IntegerLiteral(2),
                    BinaryOperator::Multiply,
                    var("y"),
                )],
            },
        ],
    })];
    assert_eq!(program, expected);
}

#[test]
fn variable_declarations_and_blank_lines() {
    let program = statements("\n\nx is 40\n\n\ny is \"hello world\"\n");
    let expected = vec![
        ASTNode::VariableDeclaration {
            name: String::from("x"),
            value: Expression::IntegerLiteral(40),
        },
        ASTNode::VariableDeclaration {
            name: String::from("y"),
            value: Expression::StringLiteral(String::from("hello world")),
        },
    ];
    assert_eq!(program, expected);
}

#[test]
fn conditional_with_every_branch() {
    let source = "if a then\n x is 1\nelif b then\n x is 2\nelif c then\nelse\n x is 3\nend";
    let declare = |value: i64| ASTNode::VariableDeclaration {
        name: String::from("x"),
        value: Expression::IntegerLiteral(value),
    };
    let expected = vec![ASTNode::IfStatement {
        condition: var("a"),
        then_branch: vec![declare(1)],
        elif_branches: vec![(var("b"), vec![declare(2)]), (var("c"), vec![])],
        else_branch: Some(vec![declare(3)]),
    }];
    assert_eq!(statements(source), expected);
}

#[test]
fn loops_with_break_and_continue() {
    let source = "for i, 10\n continue\nend\nuntil x gt 3\n x is x + 1\n break\nend";
    let expected = vec![
        ASTNode::ForLoop {
            control: vec![var("i"), Expression::IntegerLiteral(10)],
            body: vec![ASTNode::Continue],
        },
        ASTNode::UntilLoop {
            condition: binary(var("x"), BinaryOperator::Gt, Expression::IntegerLiteral(3)),
            body: vec![
                ASTNode::VariableDeclaration {
                    name: String::from("x"),
                    value: binary(var("x"), BinaryOperator::Add, Expression::IntegerLiteral(1)),
                },
                ASTNode::Break,
            ],
        },
    ];
    assert_eq!(statements(source), expected);
}

#[test]
fn function_with_several_parameters() {
    let program = statements("func add uses x, y, z\n return x + y + z\nend");
    match &program[0] {
        ASTNode::Function { name, params, body } => {
            assert_eq!(name, "add");
            assert_eq!(params, &vec![String::from("x"), String::from("y"), String::from("z")]);
            assert_eq!(body.len(), 1);
        }
        other => panic!("not a function: {:?}", other),
    }
}

#[test]
fn empty_input_is_an_empty_program() {
    assert_eq!(parse(""), Ok(ASTNode::Program(vec![])));
    assert_eq!(parse("\n\n  \n"), Ok(ASTNode::Program(vec![])));
    assert_eq!(Parser::new(vec![]).parse_program(), Ok(ASTNode::Program(vec![])));
}

#[test]
fn tokens_need_not_close_with_the_end_marker() {
    let tokens = vec![
        Token::new(TokenType::Identifier(String::from("x")), 1),
        Token::new(TokenType::Is, 1),
        Token::new(TokenType::Integer(7), 1),
    ];
    let expected = ASTNode::Program(vec![ASTNode::VariableDeclaration {
        name: String::from("x"),
        value: Expression::IntegerLiteral(7),
    }]);
    assert_eq!(Parser::new(tokens).parse_program(), Ok(expected));
}

fn error_of(source: &str) -> (i32, String, TokenType) {
    let error = parse(source).unwrap_err();
    (error.line_number, error.expected, error.found)
}

#[test]
fn identifier_needs_a_parenthesis_or_is() {
    // the error stands on the name: its line, and the name as what was found
    assert_eq!(
        error_of("x\ny is 2"),
        (
            1,
            String::from("invalid variable declaration syntax"),
            TokenType::Identifier(String::from("x"))
        )
    );
    assert_eq!(
        error_of("a is 1\nx y"),
        (
            2,
            String::from("invalid variable declaration syntax"),
            TokenType::Identifier(String::from("x"))
        )
    );
    // a name on one line and what follows it on another: the line of the name
    let tokens = vec![
        Token::new(TokenType::Identifier(String::from("x")), 1),
        Token::new(TokenType::Integer(5), 2),
    ];
    let mut parser = Parser::new(tokens);
    let error = parser.parse_statement().unwrap_err();
    assert_eq!(error.line_number, 1);
    assert_eq!(error.found, TokenType::Identifier(String::from("x")));
    // nothing has moved
    assert_eq!(parser.peek(), Some(&TokenType::Identifier(String::from("x"))));
}

#[test]
fn end_marker_is_checked_where_it_stands() {
    let mut parser = Parser::new(get_tokens("x"));
    assert!(!parser.check(&TokenType::Eof));
    assert!(parser.advance());
    assert!(parser.check(&TokenType::Eof));
    assert!(parser.at_end());
    let empty = Parser::new(vec![]);
    assert!(!empty.check(&TokenType::Eof));
    assert!(empty.at_end());
}

#[test]
fn cursor_only_moves_forward_and_stays_within() {
    for source in ["x is 1\ny is (2", "func f uses a\n return a\nend", "+", "", "x"] {
        let tokens = get_tokens(source);
        let count = tokens.len();
        let mut parser = Parser::new(tokens);
        let _ = parser.parse_program();
        // what is left to look at is within the tokens
        assert!(parser.peek_until(&TokenType::Eof).len() <= count);
        assert!(parser.peek().is_some() || parser.at_end());
    }
}

#[test]
fn missing_end_is_reported_at_the_end_of_input() {
    assert_eq!(
        error_of("func f uses x\n return x\n"),
        (3, String::from("expected an end keyword"), TokenType::Eof)
    );
    assert_eq!(
        error_of("until x\n x is 1"),
        (2, String::from("expected an end keyword"), TokenType::Eof)
    );
    assert_eq!(
        error_of("for x\n"),
        (2, String::from("expected an end keyword"), TokenType::Eof)
    );
}

#[test]
fn missing_then_is_reported() {
    assert_eq!(
        error_of("if x lt 3\n return 1\nend"),
        (1, String::from("expected a then keyword"), TokenType::Newline)
    );
    assert_eq!(
        error_of("if a then\nelif b\nend"),
        (2, String::from("expected a then keyword"), TokenType::Newline)
    );
}

#[test]
fn missing_uses_and_names_are_reported() {
    assert_eq!(
        error_of("func f x"),
        (1, String::from("expected a uses keyword"), TokenType::Identifier(String::from("x")))
    );
    assert_eq!(error_of("func 3"), (1, String::from("function name expected"), TokenType::Integer(3)));
    assert_eq!(
        error_of("func f uses\nend"),
        (1, String::from("expected a parameter name"), TokenType::Newline)
    );
    assert_eq!(
        error_of("func f uses x,\nend"),
        (1, String::from("expected a parameter name"), TokenType::Newline)
    );
}

#[test]
fn missing_expression_is_reported() {
    assert_eq!(error_of("return\n"), (1, String::from("expected an expression"), TokenType::Newline));
    assert_eq!(error_of("x is"), (1, String::from("expected an expression"), TokenType::Eof));
    assert_eq!(error_of("x is 1 +"), (1, String::from("expected an expression"), TokenType::Eof));
    assert_eq!(
        error_of("\nx is -1"),
        (2, String::from("expected an expression"), TokenType::Subtract)
    );
}

#[test]
fn missing_closing_parenthesis_is_reported() {
    assert_eq!(
        error_of("x is (1 + 2\n"),
        (1, String::from("expected a closing parenthesis"), TokenType::Newline)
    );
    assert_eq!(
        error_of("f(1, 2"),
        (1, String::from("expected a closing parenthesis"), TokenType::Eof)
    );
}

#[test]
fn stray_block_keywords_cannot_begin_a_statement() {
    assert_eq!(error_of("end"), (1, String::from("expected a statement"), TokenType::End));
    assert_eq!(error_of("x is 1\nelse"), (2, String::from("expected a statement"), TokenType::Else));
    assert_eq!(
        error_of("func f uses x\nelse\nend"),
        (2, String::from("expected a statement"), TokenType::Else)
    );
    assert_eq!(
        error_of("if a then\nelse\nelif b then\nend"),
        (3, String::from("expected a statement"), TokenType::ElseIf)
    );
    assert_eq!(error_of("do"), (1, String::from("expected a statement"), TokenType::Do));
    assert_eq!(error_of("note"), (1, String::from("expected a statement"), TokenType::Note));
}

#[test]
fn first_error_ends_the_parse() {
    // two faulty lines: only the first is reported
    assert_eq!(
        error_of("x is\ny is\n"),
        (1, String::from("expected an expression"), TokenType::Newline)
    );
}

#[test]
fn statements_may_share_a_line() {
    let program = statements("if x lt 3 then return 1 end return 2");
    assert_eq!(program.len(), 2);
    assert_eq!(program[1], ASTNode::ReturnStatement(Expression::IntegerLiteral(2)));
}

#[test]
fn cursor_primitives() {
    let mut parser = Parser::new(get_tokens("x is 1\ny"));
    assert_eq!(parser.peek(), Some(&TokenType::Identifier(String::from("x"))));
    assert_eq!(parser.peek_n(0), Some(&TokenType::Identifier(String::from("x"))));
    assert_eq!(parser.peek_n(1), Some(&TokenType::Is));
    assert_eq!(parser.peek_n(2), Some(&TokenType::Integer(1)));
    assert_eq!(parser.peek_n(5), Some(&TokenType::Eof));
    assert_eq!(parser.peek_n(6), None);
    assert_eq!(parser.peek_n(usize::MAX), None);
    assert!(parser.check(&TokenType::Identifier(String::new())));
    assert!(!parser.check(&TokenType::Is));
    assert!(!parser.at_end());
    assert_eq!(parser.get_line_number(), 1);

    // a failed consume reports and moves nothing
    let error = parser.consume(&TokenType::Is, "expected an is keyword").unwrap_err();
    assert_eq!(error.line_number, 1);
    assert_eq!(error.expected, "expected an is keyword");
    assert_eq!(error.found, TokenType::Identifier(String::from("x")));
    assert_eq!(parser.peek(), Some(&TokenType::Identifier(String::from("x"))));

    // a consume that matches gives the token and moves on
    let token = parser.consume(&TokenType::Identifier(String::new()), "expected a name").unwrap();
    assert_eq!(token, Token::new(TokenType::Identifier(String::from("x")), 1));
    assert_eq!(parser.peek(), Some(&TokenType::Is));

    assert!(parser.advance());
    assert!(parser.advance());
    assert!(parser.advance());
    assert_eq!(parser.get_line_number(), 2);
    assert!(parser.advance());
    assert!(parser.at_end());
    assert!(!parser.advance());
    assert!(parser.at_end());
    assert_eq!(parser.get_line_number(), 2);
}

#[test]
fn primitives_past_the_last_token() {
    let mut parser = Parser::new(vec![Token::new(TokenType::Break, 7)]);
    assert!(parser.advance());
    assert_eq!(parser.peek(), None);
    assert_eq!(parser.peek_n(0), None);
    assert!(parser.at_end());
    // past the last token nothing matches, the end marker included
    assert!(!parser.check(&TokenType::Eof));
    assert!(!parser.check(&TokenType::Break));
    assert_eq!(parser.get_line_number(), 7);
    assert!(!parser.advance());
    let error = parser.consume(&TokenType::End, "expected an end keyword").unwrap_err();
    assert_eq!((error.line_number, error.found), (7, TokenType::Eof));
    assert_eq!(Parser::new(vec![]).get_line_number(), 1);
}

#[test]
fn looking_ahead_to_a_kind() {
    let parser = Parser::new(get_tokens("a + b\nc"));
    let found = parser.peek_until(&TokenType::Newline);
    let expected = [
        Token::new(TokenType::Identifier(String::from("a")), 1),
        Token::new(TokenType::Add, 1),
        Token::new(TokenType::Identifier(String::from("b")), 1),
    ];
    assert_eq!(found, expected.iter().collect::<Vec<&Token>>());
    // nothing has moved
    assert_eq!(parser.peek(), Some(&TokenType::Identifier(String::from("a"))));
    // a kind that is not there: everything up to the end
    assert_eq!(parser.peek_until(&TokenType::Comma).len(), 6);
    // a kind that stands at the cursor: nothing
    assert!(parser.peek_until(&TokenType::Identifier(String::new())).is_empty());
}

#[test]
fn operators_from_tokens() {
    assert_eq!(BinaryOperator::from_token(&TokenType::Neq), Some(BinaryOperator::Neq));
    assert_eq!(BinaryOperator::from_token(&TokenType::Not), None);
    assert_eq!(BinaryOperator::from_token(&TokenType::Is), None);
    assert_eq!(BinaryOperator::Or.precedence(), 1);
    assert_eq!(BinaryOperator::And.precedence(), 2);
    assert_eq!(BinaryOperator::Gte.precedence(), 3);
    assert_eq!(BinaryOperator::Subtract.precedence(), 4);
    assert_eq!(BinaryOperator::Divide.precedence(), 5);
    assert_eq!(BinaryOperator::Power.precedence(), 6);
    assert_eq!(BinaryOperator::Add.right_floor(), 5);
    assert_eq!(BinaryOperator::Power.right_floor(), 6);
}

#[test]
fn three_operands_group_by_precedence() {
    let samples = [
        ("a + b * c", false),
        ("a * b + c", true),
        ("a - b - c", true),
        ("a ^ b ^ c", false),
        ("a lt b and c", true),
        ("a or b eq c", false),
        ("a / b ^ c", false),
        ("f(x) + (a or b) * not c", false),
        ("(a + b) * g(1, 2) - \"s\"", true),
        ("not (a) and f() and 2.5", true),
        ("(1) ^ (2 + 3) ^ h(4)", false),
    ];
    for (source, groups_left) in samples {
        match expression(source) {
            Expression::BinaryOperation { left, right, .. } => {
                let left_is_infix = matches!(*left, Expression::BinaryOperation { .. });
                let right_is_infix = matches!(*right, Expression::BinaryOperation { .. });
                assert_eq!((left_is_infix, right_is_infix), (groups_left, !groups_left), "{}", source);
            }
            other => panic!("not an infix expression: {:?}", other),
        }
    }
}

#[test]
fn written_form_reads_back() {
    // every operand in parentheses, a line break after every statement
    let source = "func f uses a , b x is ( a ) + ( ( b ) * ( 2 ) ) \n \
                  if not ( a ) then return g ( ) \n \
                  elif ( a ) lt ( b ) then else break \n end \n \
                  for a , ( b ) ^ ( 2 ) h ( a , 1 ) \n end \n \
                  until true continue \n end \n end \n";
    let expected = vec![ASTNode::Function {
        name: String::from("f"),
        params: vec![String::from("a"), String::from("b")],
        body: vec![
            ASTNode::VariableDeclaration {
                name: String::from("x"),
                value: binary(
                    var("a"),
                    BinaryOperator::Add,
                    binary(var("b"), BinaryOperator::Multiply, Expression::IntegerLiteral(2)),
                ),
            },
            ASTNode::IfStatement {
                condition: Expression::UnaryOperation {
                    operator: UnaryOperator::Not,
                    operand: Box::new(var("a")),
                },
                then_branch: vec![ASTNode::ReturnStatement(Expression::FunctionCall {
                    name: String::from("g"),
                    params: vec![],
                })],
                elif_branches: vec![(binary(var("a"), BinaryOperator::Lt, var("b")), vec![])],
                else_branch: Some(vec![ASTNode::Break]),
            },
            ASTNode::ForLoop {
                control: vec![
                    var("a"),
                    binary(var("b"), BinaryOperator::Power, Expression::IntegerLiteral(2)),
                ],
                body: vec![ASTNode::ExpressionStatement(Expression::FunctionCall {
                    name: String::from("h"),
                    params: vec![var("a"), Expression::IntegerLiteral(1)],
                })],
            },
            ASTNode::UntilLoop {
                condition: Expression::BooleanLiteral(true),
                body: vec![ASTNode::Continue],
            },
        ],
    }];
    assert_eq!(statements(source), expected);
}
