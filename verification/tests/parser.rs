use calculator::error::Error;
use calculator::lexer::lex;
use calculator::parser::{parse, Parser};
use calculator::token::{Number, Token};
use calculator::tree::{Node, Operator, Sign};

fn num(text: &str) -> Number {
    Number::new(text.chars().collect()).unwrap()
}

fn lit(text: &str) -> Node {
    Node::Literal(num(text))
}

fn unary(sign: Sign, child: Node) -> Node {
    Node::UnaryOp { sign, child: Box::new(child) }
}

fn binary(left: Node, op: Operator, right: Node) -> Node {
    Node::BinaryOp { op, left: Box::new(left), right: Box::new(right) }
}

fn tree(text: &str) -> Result<Node, Error> {
    parse(lex(text).unwrap())
}

#[test]
fn single_literal() {
    assert_eq!(tree("42"), Ok(lit("42")));
}

#[test]
fn multiplication_binds_tighter_than_addition() {
    assert_eq!(
        tree("2+3*4"),
        Ok(binary(lit("2"), Operator::Add, binary(lit("3"), Operator::Multiply, lit("4"))))
    );
    assert_eq!(
        tree("2*3+4"),
        Ok(binary(binary(lit("2"), Operator::Multiply, lit("3")), Operator::Add, lit("4")))
    );
}

#[test]
fn parentheses_override_precedence() {
    assert_eq!(
        tree("(2+3)*4"),
        Ok(binary(binary(lit("2"), Operator::Add, lit("3")), Operator::Multiply, lit("4")))
    );
}

#[test]
fn operators_of_one_level_group_from_the_left() {
    assert_eq!(
        tree("10-3-2"),
        Ok(binary(binary(lit("10"), Operator::Subtract, lit("3")), Operator::Subtract, lit("2")))
    );
    assert_eq!(
        tree("8/4*2"),
        Ok(binary(binary(lit("8"), Operator::Divide, lit("4")), Operator::Multiply, lit("2")))
    );
}

#[test]
fn signs_stack() {
    assert_eq!(tree("--5"), Ok(unary(Sign::Minus, unary(Sign::Minus, lit("5")))));
    assert_eq!(tree("+-5"), Ok(unary(Sign::Plus, unary(Sign::Minus, lit("5")))));
    assert_eq!(
        tree("-5+3"),
        Ok(binary(unary(Sign::Minus, lit("5")), Operator::Add, lit("3")))
    );
    assert_eq!(
        tree("2--3"),
        Ok(binary(lit("2"), Operator::Subtract, unary(Sign::Minus, lit("3"))))
    );
}

#[test]
fn sign_binds_tighter_than_multiplication() {
    assert_eq!(
        tree("-2*3"),
        Ok(binary(unary(Sign::Minus, lit("2")), Operator::Multiply, lit("3")))
    );
}

#[test]
fn parentheses_leave_no_node() {
    assert_eq!(tree("((7))"), Ok(lit("7")));
    assert_eq!(
        tree("((1+2)*(3+4))"),
        Ok(binary(
            binary(lit("1"), Operator::Add, lit("2")),
            Operator::Multiply,
            binary(lit("3"), Operator::Add, lit("4"))
        ))
    );
}

#[test]
fn reference_expression_tree() {
    let quotient = binary(
        lit("2.33"),
        Operator::Divide,
        binary(lit("2.9"), Operator::Add, lit("3.5")),
    );
    let product = binary(quotient, Operator::Multiply, lit("4"));
    assert_eq!(
        tree("((2.33 / (2.9+3.5)*4) - -6)"),
        Ok(binary(product, Operator::Subtract, unary(Sign::Minus, lit("6"))))
    );
}

#[test]
fn long_well_formed_expression() {
    let quotient = binary(
        lit("4"),
        Operator::Divide,
        binary(lit("5"), Operator::Subtract, unary(Sign::Minus, lit("6"))),
    );
    let sum = binary(lit("1"), Operator::Add, binary(lit("2"), Operator::Multiply, lit("3")));
    assert_eq!(tree("1+2*3-4/(5--6)"), Ok(binary(sum, Operator::Subtract, quotient)));
}

#[test]
fn missing_operand_is_zero() {
    assert_eq!(tree(""), Ok(lit("0")));
    assert_eq!(tree("1+"), Ok(binary(lit("1"), Operator::Add, lit("0"))));
    assert_eq!(tree("*3"), Ok(binary(lit("0"), Operator::Multiply, lit("3"))));
    assert_eq!(tree("-"), Ok(unary(Sign::Minus, lit("0"))));
    assert_eq!(tree(")"), Ok(lit("0")));
    assert_eq!(tree("()"), Ok(lit("0")));
}

#[test]
fn what_follows_the_expression_is_not_read() {
    assert_eq!(tree("1+2)"), Ok(binary(lit("1"), Operator::Add, lit("2"))));
    assert_eq!(tree("1 2"), Ok(lit("1")));
    assert_eq!(tree("1)+2"), Ok(lit("1")));
}

#[test]
fn any_token_closes_a_parenthesis() {
    assert_eq!(tree("(1 2"), Ok(lit("1")));
    assert_eq!(tree("(1 2 + 3"), Ok(binary(lit("1"), Operator::Add, lit("3"))));
    assert_eq!(tree("(1(2"), Ok(lit("1")));
}

#[test]
fn unclosed_parenthesis_at_the_end_is_a_syntax_error() {
    assert_eq!(tree("(1+2"), Err(Error::Syntax));
    assert_eq!(tree("("), Err(Error::Syntax));
    assert_eq!(tree("2*(3"), Err(Error::Syntax));
    assert_eq!(tree("((1)"), Err(Error::Syntax));
    assert_eq!(tree("-(1+"), Err(Error::Syntax));
}

#[test]
fn no_tokens_is_a_syntax_error() {
    assert_eq!(parse(vec![]), Err(Error::Syntax));
    assert!(matches!(Parser::new(vec![]), Err(Error::Syntax)));
}

#[test]
fn tokens_without_sentinel_end_in_a_syntax_error() {
    assert_eq!(parse(vec![Token::Number(num("1"))]), Err(Error::Syntax));
    assert_eq!(
        parse(vec![Token::Number(num("1")), Token::Add]),
        Err(Error::Syntax)
    );
    assert_eq!(parse(vec![Token::Multiply]), Err(Error::Syntax));
    assert_eq!(parse(vec![Token::RightParen]), Ok(lit("0")));
}

#[test]
fn sentinel_in_the_middle_ends_the_expression() {
    assert_eq!(
        parse(vec![
            Token::Number(num("1")),
            Token::EndOfInput,
            Token::Add,
            Token::Number(num("2")),
            Token::EndOfInput,
        ]),
        Ok(lit("1"))
    );
}

#[test]
fn cursor_moves_token_by_token() {
    let mut parser = Parser::new(lex("1+2").unwrap()).unwrap();
    assert_eq!(parser.current(), Token::Number(num("1")));
    assert_eq!(parser.next(), Ok(Token::Add));
    assert_eq!(parser.current(), Token::Add);
    assert_eq!(parser.next(), Ok(Token::Number(num("2"))));
    assert_eq!(parser.next(), Ok(Token::EndOfInput));
    assert_eq!(parser.current(), Token::EndOfInput);
}

#[test]
fn cursor_stays_on_the_last_token() {
    let mut parser = Parser::new(lex("7").unwrap()).unwrap();
    assert_eq!(parser.next(), Ok(Token::EndOfInput));
    assert_eq!(parser.next(), Err(Error::Syntax));
    assert_eq!(parser.next(), Err(Error::Syntax));
    assert_eq!(parser.current(), Token::EndOfInput);
}

#[test]
fn rules_leave_the_cursor_after_what_they_read() {
    let mut parser = Parser::new(lex("2*3+4*5").unwrap()).unwrap();
    assert_eq!(parser.factor(), Ok(lit("2")));
    assert_eq!(parser.current(), Token::Multiply);
    assert_eq!(parser.factor(), Ok(lit("0")));
    assert_eq!(parser.current(), Token::Multiply);
    assert_eq!(parser.next(), Ok(Token::Number(num("3"))));
    assert_eq!(parser.term(), Ok(lit("3")));
    assert_eq!(parser.current(), Token::Add);
    assert_eq!(
        parser.expr(),
        Ok(binary(unary(Sign::Plus, lit("4")), Operator::Multiply, lit("5")))
    );
    assert_eq!(parser.current(), Token::EndOfInput);
}

#[test]
fn failed_rule_leaves_the_cursor_on_the_last_token() {
    let mut parser = Parser::new(lex("(1+2").unwrap()).unwrap();
    assert_eq!(parser.expr(), Err(Error::Syntax));
    assert_eq!(parser.current(), Token::EndOfInput);
    assert_eq!(parser.next(), Err(Error::Syntax));
}
