use snek_core::ast::{Expression, Operator, Statement};
use snek_core::compiler::Compiler;
use snek_core::parser::{parse_u128, ParseError, Parser};
use snek_core::token::{Token, TokenType};
use snek_core::value::Value;
use snek_core::vm::{Completion, VirtualMachine};

fn tok(token_type: TokenType, lexeme: &str) -> Token {
    Token::new(token_type, 0, (0, lexeme.len()), lexeme.to_string())
}

fn tokens_of(spec: &[(TokenType, &str)]) -> Vec<Token> {
    spec.iter().map(|(t, s)| tok(t.clone(), s)).collect()
}

fn binary(l: Expression, op: Operator, r: Expression) -> Expression {
    Expression::Binary(Box::new(l), op, Box::new(r))
}

#[test]
fn parses_declaration_and_reference() {
    // foo := 1000 \n bar := (foo / 3)
    let tokens = tokens_of(&[
        (TokenType::Identifier, "foo"),
        (TokenType::Symbol, ":"),
        (TokenType::Symbol, "="),
        (TokenType::Int, "1000"),
        (TokenType::EOL, "\n"),
        (TokenType::Identifier, "bar"),
        (TokenType::Symbol, ":"),
        (TokenType::Symbol, "="),
        (TokenType::Symbol, "("),
        (TokenType::Identifier, "foo"),
        (TokenType::Operator, "/"),
        (TokenType::Int, "3"),
        (TokenType::Symbol, ")"),
        (TokenType::EOL, "\n"),
    ]);
    let mut parser = Parser::new(tokens);
    let ast = parser.parse().unwrap();
    assert_eq!(ast.len(), 2);

    // Compiled and executed, the program leaves only the epilogue's null:
    // both statements are declarations, which store their values.
    let mut compiler = Compiler::new();
    let unit = compiler.compile_main(&ast, "entry").unwrap();
    let mut vm = VirtualMachine::new();
    assert_eq!(vm.execute(&unit, 10_000), Ok(Completion::Halted));
    assert_eq!(vm.stack().clone(), vec![Value::Nil]);
    assert_eq!(unit.locals, vec!["foo".to_string(), "bar".to_string()]);
}

#[test]
fn precedence_groups_multiplication_before_addition() {
    // 2 + 3 * 4 parsed, compiled and executed end to end.
    let tokens = tokens_of(&[
        (TokenType::Int, "2"),
        (TokenType::Operator, "+"),
        (TokenType::Int, "3"),
        (TokenType::Operator, "*"),
        (TokenType::Int, "4"),
        (TokenType::EOL, "\n"),
    ]);
    let mut parser = Parser::new(tokens);
    let ast = parser.parse().unwrap();
    let mut compiler = Compiler::new();
    let unit = compiler.compile_main(&ast, "entry").unwrap();
    let mut vm = VirtualMachine::new();
    assert_eq!(vm.execute(&unit, 10_000), Ok(Completion::Halted));
    assert_eq!(vm.stack().clone(), vec![Value::Int(14), Value::Nil]);
}

#[test]
fn equal_precedence_operators_group_right_to_left() {
    // The operator stack reduces only when a strictly weaker-binding
    // operator arrives, so a run of equal-strength operators groups to
    // the right: 10 - 3 - 2 is 10 - (3 - 2) = 9.
    let tokens = tokens_of(&[
        (TokenType::Int, "10"),
        (TokenType::Operator, "-"),
        (TokenType::Int, "3"),
        (TokenType::Operator, "-"),
        (TokenType::Int, "2"),
    ]);
    let mut parser = Parser::new(tokens);
    let ast = parser.parse().unwrap();
    let mut compiler = Compiler::new();
    let unit = compiler.compile_main(&ast, "entry").unwrap();
    let mut vm = VirtualMachine::new();
    assert_eq!(vm.execute(&unit, 10_000), Ok(Completion::Halted));
    assert_eq!(vm.stack().clone(), vec![Value::Int(9), Value::Nil]);
}

#[test]
fn parses_keyword_statements() {
    let tokens = tokens_of(&[
        (TokenType::Keyword, "break"),
        (TokenType::EOL, "\n"),
        (TokenType::Keyword, "continue"),
        (TokenType::EOL, "\n"),
        (TokenType::Keyword, "return"),
    ]);
    let mut parser = Parser::new(tokens);
    let ast = parser.parse().unwrap();
    assert!(matches!(ast[0], Statement::Break));
    assert!(matches!(ast[1], Statement::Continue));
    assert!(matches!(ast[2], Statement::Return(None)));
}

#[test]
fn parses_constant_declaration_and_assignment() {
    let tokens = tokens_of(&[
        (TokenType::Identifier, "k"),
        (TokenType::Symbol, ":"),
        (TokenType::Symbol, ":"),
        (TokenType::Int, "9"),
        (TokenType::EOL, "\n"),
        (TokenType::Identifier, "k"),
        (TokenType::Symbol, "="),
        (TokenType::Int, "10"),
    ]);
    let mut parser = Parser::new(tokens);
    let ast = parser.parse().unwrap();
    assert!(matches!(&ast[0], Statement::Constant(name, Expression::Int(9)) if name == "k"));
    assert!(matches!(&ast[1], Statement::Assignment(_, Expression::Int(10))));
}

#[test]
fn missing_newline_between_statements_is_reported() {
    let tokens = tokens_of(&[
        (TokenType::Int, "1"),
        (TokenType::Int, "2"),
    ]);
    let mut parser = Parser::new(tokens);
    assert!(matches!(parser.parse(), Err(ParseError::ExpectedNewline)));
}

#[test]
fn unclosed_group_is_reported() {
    let tokens = tokens_of(&[(TokenType::Symbol, "("), (TokenType::Int, "1")]);
    let mut parser = Parser::new(tokens);
    assert!(matches!(parser.parse(), Err(ParseError::UnexpectedEnd)));
}

#[test]
fn trailing_operator_is_reported() {
    let tokens = tokens_of(&[(TokenType::Int, "1"), (TokenType::Operator, "+")]);
    let mut parser = Parser::new(tokens);
    assert!(matches!(parser.parse(), Err(ParseError::UnexpectedEnd)));
}

#[test]
fn unknown_keyword_is_reported() {
    let tokens = tokens_of(&[(TokenType::Keyword, "while")]);
    let mut parser = Parser::new(tokens);
    assert!(matches!(parser.parse(), Err(ParseError::UnexpectedToken)));
}

#[test]
fn bad_integer_literal_is_reported() {
    let tokens = tokens_of(&[(TokenType::Int, "12x")]);
    let mut parser = Parser::new(tokens);
    assert!(matches!(parser.parse(), Err(ParseError::InvalidNumber)));
}

#[test]
fn double_literals_carry_their_bit_patterns() {
    let tokens = tokens_of(&[
        (TokenType::Double, "2.5"),
        (TokenType::Operator, "+"),
        (TokenType::Double, "0.25"),
    ]);
    let mut parser = Parser::new(tokens);
    let ast = parser.parse().unwrap();
    let mut compiler = Compiler::new();
    let unit = compiler.compile_main(&ast, "entry").unwrap();
    let mut vm = VirtualMachine::new();
    assert_eq!(vm.execute(&unit, 10_000), Ok(Completion::Halted));
    assert_eq!(
        vm.stack().clone(),
        vec![Value::Double((2.75f64).to_bits()), Value::Nil]
    );
}

#[test]
fn bool_char_and_string_atoms_parse() {
    let tokens = tokens_of(&[
        (TokenType::Bool, "true"),
        (TokenType::EOL, "\n"),
        (TokenType::Bool, "false"),
        (TokenType::EOL, "\n"),
        (TokenType::Char, "z"),
        (TokenType::EOL, "\n"),
        (TokenType::Str, "words"),
    ]);
    let mut parser = Parser::new(tokens);
    let ast = parser.parse().unwrap();
    assert!(matches!(ast[0], Statement::Expression(Expression::Bool(true))));
    assert!(matches!(ast[1], Statement::Expression(Expression::Bool(false))));
    assert!(matches!(ast[2], Statement::Expression(Expression::Char('z'))));
    assert!(matches!(&ast[3], Statement::Expression(Expression::Str(s)) if s == "words"));
}

#[test]
fn parse_u128_reads_digits_and_rejects_the_rest() {
    assert_eq!(parse_u128("0"), Some(0));
    assert_eq!(parse_u128("1000"), Some(1000));
    assert_eq!(
        parse_u128("340282366920938463463374607431768211455"),
        Some(u128::MAX)
    );
    assert_eq!(parse_u128("340282366920938463463374607431768211456"), None);
    assert_eq!(parse_u128(""), None);
    assert_eq!(parse_u128("12a"), None);
    assert_eq!(parse_u128("-1"), None);
}

#[test]
fn operator_lexemes_map_to_operators_with_precedence() {
    assert_eq!(Operator::from_str("+"), Some((Operator::Add, 2)));
    assert_eq!(Operator::from_str("*"), Some((Operator::Mul, 3)));
    assert_eq!(Operator::from_str("%"), Some((Operator::Mod, 3)));
    assert_eq!(Operator::from_str("<="), Some((Operator::LtEq, 1)));
    assert_eq!(Operator::from_str("=="), Some((Operator::Eq, 0)));
    assert_eq!(Operator::from_str("&&"), None);
}

#[test]
fn fold_collapses_fully_literal_trees() {
    let tree = binary(
        Expression::Int(2),
        Operator::Add,
        binary(Expression::Int(3), Operator::Mul, Expression::Int(4)),
    );
    assert!(matches!(Parser::fold_expression(&tree), Expression::Int(14)));

    let doubles = binary(
        Expression::Double((1.5f64).to_bits()),
        Operator::Add,
        Expression::Double((2.25f64).to_bits()),
    );
    let folded = Parser::fold_expression(&doubles);
    assert!(matches!(folded, Expression::Double(bits) if bits == (3.75f64).to_bits()));
}

#[test]
fn fold_leaves_unfoldable_trees_unchanged() {
    // A non-literal operand.
    let with_name = binary(
        Expression::Identifier("x".to_string()),
        Operator::Add,
        Expression::Int(1),
    );
    assert!(matches!(
        Parser::fold_expression(&with_name),
        Expression::Binary(_, Operator::Add, _)
    ));

    // An overflowing sum.
    let too_big = binary(
        Expression::Int(u128::MAX),
        Operator::Add,
        Expression::Int(1),
    );
    assert!(matches!(
        Parser::fold_expression(&too_big),
        Expression::Binary(_, Operator::Add, _)
    ));

    // A division by zero.
    let by_zero = binary(Expression::Int(1), Operator::Div, Expression::Int(0));
    assert!(matches!(
        Parser::fold_expression(&by_zero),
        Expression::Binary(_, Operator::Div, _)
    ));
}
