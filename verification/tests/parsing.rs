use pylang::parser::{
    Expression, Identifier, Literal, Operator, ParseError, Parser, Program, Statement,
};
use pylang::tokenizer::{clean_tokens, tokenize, Token};

fn parse_source(src: &str) -> Result<Program, ParseError> {
    let tokens = clean_tokens(tokenize(src));
    let mut parser = Parser::new(&tokens);
    parser.parse()
}

fn int_lit(v: i64) -> Statement {
    Statement::ExpressionStatement(Expression::Literal(Literal::Int(v)))
}

fn ident(name: &str) -> Statement {
    Statement::ExpressionStatement(Expression::Identifier(Identifier {
        name: name.to_string(),
    }))
}

fn binary(left: Statement, op: Operator, right: Statement) -> Statement {
    Statement::ExpressionStatement(Expression::BinaryExpression(
        Box::new(left),
        op,
        Box::new(right),
    ))
}

fn assign(name: &str, value: Statement) -> Statement {
    Statement::ExpressionStatement(Expression::AssignmentExpression(
        Identifier {
            name: name.to_string(),
        },
        Box::new(value),
    ))
}

// Multiplication binds tighter than addition.
#[test]
fn precedence_of_multiplication_over_addition() {
    let program = parse_source("1 + 2 * 3").unwrap();
    let expected = binary(
        int_lit(1),
        Operator::Add,
        binary(int_lit(2), Operator::Multiply, int_lit(3)),
    );
    assert_eq!(program.body, vec![expected]);
}

// Parenthesization overrides precedence.
#[test]
fn parentheses_override_precedence() {
    let program = parse_source("(1 + 2) * 3").unwrap();
    let expected = binary(
        binary(int_lit(1), Operator::Add, int_lit(2)),
        Operator::Multiply,
        int_lit(3),
    );
    assert_eq!(program.body, vec![expected]);
}

// Binary operators associate to the left.
#[test]
fn subtraction_is_left_associative() {
    let program = parse_source("8 - 3 - 2").unwrap();
    let expected = binary(
        binary(int_lit(8), Operator::Subtract, int_lit(3)),
        Operator::Subtract,
        int_lit(2),
    );
    assert_eq!(program.body, vec![expected]);
}

#[test]
fn exponent_in_multiplicative_level_is_left_associative() {
    let program = parse_source("2 ** 3 * 4").unwrap();
    let expected = binary(
        binary(int_lit(2), Operator::Exponent, int_lit(3)),
        Operator::Multiply,
        int_lit(4),
    );
    assert_eq!(program.body, vec![expected]);
}

#[test]
fn comparison_and_logical_levels() {
    let program = parse_source("a < b and c >= d").unwrap();
    let expected = binary(
        binary(ident("a"), Operator::LessThan, ident("b")),
        Operator::And,
        binary(ident("c"), Operator::GreaterThanOrEqual, ident("d")),
    );
    assert_eq!(program.body, vec![expected]);
}

#[test]
fn equality_operator_parses_at_logical_level() {
    let program = parse_source("a == b").unwrap();
    let expected = binary(ident("a"), Operator::Equality, ident("b"));
    assert_eq!(program.body, vec![expected]);
}

// An identifier followed by `(` is a function call.
#[test]
fn function_call_with_two_arguments() {
    let program = parse_source("foo(1, 2)").unwrap();
    let expected = Statement::ExpressionStatement(Expression::FunctionCallExpression(
        Identifier {
            name: "foo".to_string(),
        },
        vec![int_lit(1), int_lit(2)],
    ));
    assert_eq!(program.body, vec![expected]);
}

// An empty argument list is a call, not an error.
#[test]
fn function_call_with_no_arguments() {
    let program = parse_source("foo()").unwrap();
    let expected = Statement::ExpressionStatement(Expression::FunctionCallExpression(
        Identifier {
            name: "foo".to_string(),
        },
        vec![],
    ));
    assert_eq!(program.body, vec![expected]);
}

#[test]
fn call_arguments_may_be_expressions() {
    let program = parse_source("f(1 + 2, g())").unwrap();
    let expected = Statement::ExpressionStatement(Expression::FunctionCallExpression(
        Identifier {
            name: "f".to_string(),
        },
        vec![
            binary(int_lit(1), Operator::Add, int_lit(2)),
            Statement::ExpressionStatement(Expression::FunctionCallExpression(
                Identifier {
                    name: "g".to_string(),
                },
                vec![],
            )),
        ],
    ));
    assert_eq!(program.body, vec![expected]);
}

// `=` after an identifier makes an assignment; without it the identifier
// stands alone.
#[test]
fn assignment_versus_bare_identifier() {
    let program = parse_source("x = 5").unwrap();
    assert_eq!(program.body, vec![assign("x", int_lit(5))]);

    let bare = parse_source("x").unwrap();
    assert_eq!(bare.body, vec![ident("x")]);
}

#[test]
fn assignment_of_string_and_float_literals() {
    let program = parse_source("s = 'hi'").unwrap();
    assert_eq!(
        program.body,
        vec![assign(
            "s",
            Statement::ExpressionStatement(Expression::Literal(Literal::Str("hi".to_string()))),
        )]
    );
    let program = parse_source("x = 1.5").unwrap();
    assert_eq!(
        program.body,
        vec![assign(
            "x",
            Statement::ExpressionStatement(Expression::Literal(Literal::Float(
                "1.5".to_string()
            ))),
        )]
    );
}

// A block body holds its statements at one nesting depth, and parsing
// ends cleanly at EOF.
#[test]
fn if_statement_body_has_two_statements() {
    let program = parse_source("if (a > b):\n    x = 1\n    y = 2\n").unwrap();
    let expected = Statement::IfStatement {
        test: Box::new(binary(ident("a"), Operator::GreaterThan, ident("b"))),
        body: vec![assign("x", int_lit(1)), assign("y", int_lit(2))],
    };
    assert_eq!(program.body, vec![expected]);
}

#[test]
fn nested_if_blocks() {
    let program = parse_source("if (a):\n    if (b):\n        x = 1\n    y = 2\nz = 3").unwrap();
    let inner = Statement::IfStatement {
        test: Box::new(ident("b")),
        body: vec![assign("x", int_lit(1))],
    };
    let outer = Statement::IfStatement {
        test: Box::new(ident("a")),
        body: vec![inner, assign("y", int_lit(2))],
    };
    assert_eq!(program.body, vec![outer, assign("z", int_lit(3))]);
}

// A missing closing parenthesis fails fatally with no partial tree.
#[test]
fn unclosed_parenthesis_fails() {
    let result = parse_source("(1 + 2");
    assert!(matches!(result, Err(ParseError::UnexpectedToken(Token::EOF))));
}

// A definition whose parameter list is empty parses with no parameters.
#[test]
fn function_definition_with_empty_parameter_list() {
    let program = parse_source("def f():\n    x = 1\n").unwrap();
    let expected = Statement::FunctionDefinitionStatement {
        id: Identifier {
            name: "f".to_string(),
        },
        params: vec![],
        body: vec![assign("x", int_lit(1))],
    };
    assert_eq!(program.body, vec![expected]);
}

// Parameters arrive in declared order.
#[test]
fn function_definition_with_two_parameters() {
    let program = parse_source("def f(a, b):\n    x = a + b\n").unwrap();
    let expected = Statement::FunctionDefinitionStatement {
        id: Identifier {
            name: "f".to_string(),
        },
        params: vec![
            Identifier {
                name: "a".to_string(),
            },
            Identifier {
                name: "b".to_string(),
            },
        ],
        body: vec![assign(
            "x",
            binary(ident("a"), Operator::Add, ident("b")),
        )],
    };
    assert_eq!(program.body, vec![expected]);
}

#[test]
fn function_definition_with_one_parameter() {
    let program = parse_source("def g(a):\n    x = 1\n").unwrap();
    let expected = Statement::FunctionDefinitionStatement {
        id: Identifier {
            name: "g".to_string(),
        },
        params: vec![Identifier {
            name: "a".to_string(),
        }],
        body: vec![assign("x", int_lit(1))],
    };
    assert_eq!(program.body, vec![expected]);
}

#[test]
fn definition_without_name_fails() {
    let result = parse_source("def (a):\n    x = 1\n");
    assert!(matches!(
        result,
        Err(ParseError::MissingIdentifier(Token::LParen))
    ));
}

#[test]
fn invalid_token_in_parameter_list_fails() {
    let result = parse_source("def f(a + b):\n    x = 1\n");
    assert!(matches!(
        result,
        Err(ParseError::UnexpectedToken(Token::Plus))
    ));
}

#[test]
fn operator_in_primary_position_fails() {
    let result = parse_source("+ 1");
    assert!(matches!(
        result,
        Err(ParseError::UnexpectedToken(Token::Plus))
    ));
}

#[test]
fn named_literal_in_primary_position_fails() {
    let result = parse_source("True");
    assert!(matches!(
        result,
        Err(ParseError::UnexpectedToken(Token::BooleanLiteral(true)))
    ));
}

#[test]
fn modulus_operator_is_not_in_the_grammar() {
    assert!(parse_source("a % b").is_err());
}

#[test]
fn empty_token_sequence_fails_with_unexpected_end() {
    let tokens: Vec<Token> = vec![];
    let mut parser = Parser::new(&tokens);
    assert!(matches!(parser.parse(), Err(ParseError::UnexpectedEnd)));
}

#[test]
fn empty_source_parses_to_empty_program() {
    let program = parse_source("").unwrap();
    assert_eq!(program.body, vec![]);
}

#[test]
fn several_top_level_statements_in_order() {
    let program = parse_source("a = 1\nb = 2\nc = a + b").unwrap();
    assert_eq!(
        program.body,
        vec![
            assign("a", int_lit(1)),
            assign("b", int_lit(2)),
            assign("c", binary(ident("a"), Operator::Add, ident("b"))),
        ]
    );
}

#[test]
fn comments_do_not_reach_the_parser() {
    let program = parse_source("x = 1 # set x\ny = 2").unwrap();
    assert_eq!(
        program.body,
        vec![assign("x", int_lit(1)), assign("y", int_lit(2))]
    );
}
